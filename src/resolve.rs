use vstd::prelude::*;

use crate::entry::{views_of, Entry, EntryView, Run, RunView};
use crate::text::strings_view;
use crate::order::{folded_names, sort_entries, sorted_by_keys};

verus! {

/// An executable found on a search path.
#[derive(Debug, PartialEq, Eq)]
pub struct Found {
    /// Where it lies.
    pub path: String,
    /// Its file name.
    pub name: String,
    /// The default group of the place it was found in.
    pub group: i64,
}

/// The first of the first `n` entries of `es` named `name`.
pub open spec fn first_named(es: Seq<EntryView>, n: nat, name: Seq<char>) -> Option<nat>
    decreases n,
{
    if n == 0 {
        None
    } else {
        match first_named(es, (n - 1) as nat, name) {
            Some(k) => Some(k),
            None => if n <= es.len() && es[n - 1].name == name {
                Some((n - 1) as nat)
            } else {
                None
            },
        }
    }
}

/// `es` after merging the executable at `path` named `name`, where the first `n`
/// entries are the configured ones. A configured entry of that name keeps its name
/// and group and, where `replace` holds, runs the executable instead; without one,
/// a new entry runs it, in `group`.
pub open spec fn merge_found(
    es: Seq<EntryView>,
    n: nat,
    path: Seq<char>,
    name: Seq<char>,
    group: int,
    replace: bool,
) -> Seq<EntryView> {
    match first_named(es, n, name) {
        Some(k) => if replace {
            es.update(k as int, EntryView { run: RunView::Bare(seq![path]), ..es[k as int] })
        } else {
            es
        },
        None => es.push(EntryView { name, run: RunView::Bare(seq![path]), group }),
    }
}

/// `es` after merging each of `found` in turn.
pub open spec fn merge_all(es: Seq<EntryView>, n: nat, found: Seq<Found>, replace: bool) -> Seq<
    EntryView,
>
    decreases found.len(),
{
    if found.len() == 0 {
        es
    } else {
        let f = found.last();
        merge_found(
            merge_all(es, n, found.drop_last(), replace),
            n,
            f.path@,
            f.name@,
            f.group as int,
            replace,
        )
    }
}

proof fn lemma_first_named_stays(es: Seq<EntryView>, m: nat, n: nat, name: Seq<char>)
    requires
        m <= n,
        first_named(es, m, name) is Some,
    ensures
        first_named(es, n, name) == first_named(es, m, name),
    decreases n,
{
    if n > m {
        lemma_first_named_stays(es, m, (n - 1) as nat, name);
    }
}

/// Where among the first `n` entries the first one named `name` stands.
fn find_named(es: &Vec<Entry>, n: usize, name: &String) -> (r: Option<usize>)
    requires
        n <= es.len(),
    ensures
        match r {
            Some(k) => k < n && first_named(views_of(es@), n as nat, name@) == Some(k as nat),
            None => first_named(views_of(es@), n as nat, name@) is None,
        },
{
    let mut i: usize = 0;
    while i < n
        invariant
            i <= n <= es.len(),
            first_named(views_of(es@), i as nat, name@) is None,
        decreases n - i,
    {
        proof {
            assert(views_of(es@)[i as int].name == es@[i as int].name@);
        }
        if es[i].name == *name {
            proof {
                assert(first_named(views_of(es@), (i + 1) as nat, name@) == Some(i as nat));
                lemma_first_named_stays(views_of(es@), (i + 1) as nat, n as nat, name@);
            }
            return Some(i);
        }
        i = i + 1;
    }
    None
}

/// Merges the executables `found` into `entries`, whose first `configured`
/// entries come from the configuration. With `replace`, a configured entry of the
/// same name runs the executable found and keeps its group; without it, the
/// configured entry stands and the executable is dropped. Any other executable is
/// added, in the group of the place where it was found.
pub fn merge_discovered(entries: &mut Vec<Entry>, configured: usize, found: &Vec<Found>, replace: bool)
    requires
        configured <= old(entries).len(),
    ensures
        views_of(final(entries)@) == merge_all(views_of(old(entries)@), configured as nat, found@, replace),
{
    let ghost start = views_of(entries@);
    let mut i: usize = 0;
    while i < found.len()
        invariant
            i <= found.len(),
            configured <= entries.len(),
            views_of(entries@) == merge_all(start, configured as nat, found@.take(i as int), replace),
        decreases found.len() - i,
    {
        let f = &found[i];
        let ghost before = entries@;
        proof {
            assert(found@.take(i + 1).drop_last() =~= found@.take(i as int));
            assert(found@.take(i + 1).last() == found@[i as int]);
        }
        let path: Vec<String> = vec![f.path.clone()];
        proof {
            assert(strings_view(path@) =~= seq![f.path@]);
        }
        match find_named(entries, configured, &f.name) {
            Some(k) => {
                if replace {
                    let e = Entry {
                        name: entries[k].name.clone(),
                        run: Run::Bare(path),
                        group: entries[k].group,
                    };
                    entries.set(k, e);
                    proof {
                        assert(views_of(entries@) =~= merge_found(
                            views_of(before),
                            configured as nat,
                            f.path@,
                            f.name@,
                            f.group as int,
                            replace,
                        ));
                    }
                }
            },
            None => {
                entries.push(Entry { name: f.name.clone(), run: Run::Bare(path), group: f.group });
                proof {
                    assert(views_of(entries@) =~= merge_found(
                        views_of(before),
                        configured as nat,
                        f.path@,
                        f.name@,
                        f.group as int,
                        replace,
                    ));
                }
            },
        }
        i = i + 1;
    }
    assert(found@.take(found.len() as int) =~= found@);
}

/// The menu's entries: the `configured` ones with the executables `found` merged
/// in, in display order.
pub fn resolve_entries(configured: Vec<Entry>, found: &Vec<Found>, replace: bool) -> (r: Vec<Entry>)
    ensures
        exists|p: Seq<int>|
            #[trigger] sorted_by_keys(
                views_of(r@),
                merge_all(views_of(configured@), configured.len() as nat, found@, replace),
                folded_names(merge_all(views_of(configured@), configured.len() as nat, found@, replace)),
                p,
            ),
{
    let mut entries = configured;
    let n = entries.len();
    merge_discovered(&mut entries, n, found, replace);
    sort_entries(&entries)
}

} // verus!
