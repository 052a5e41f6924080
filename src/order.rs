use vstd::prelude::*;

use crate::entry::{views_of, Entry, EntryView};
use crate::text::{chars_of, strings_view};

verus! {

/// `a[i..]` comes before `b[i..]` in the order of their characters' code points.
pub open spec fn lt_from(a: Seq<char>, b: Seq<char>, i: nat) -> bool
    decreases a.len() - i,
{
    if i >= a.len() {
        i < b.len()
    } else if i >= b.len() {
        false
    } else if a[i as int] != b[i as int] {
        (a[i as int] as u32) < (b[i as int] as u32)
    } else {
        lt_from(a, b, i + 1)
    }
}

/// `a` comes strictly before `b` in lexicographic order.
pub open spec fn seq_lt(a: Seq<char>, b: Seq<char>) -> bool {
    lt_from(a, b, 0)
}

proof fn lemma_lt_from_asym(a: Seq<char>, b: Seq<char>, i: nat)
    ensures
        lt_from(a, b, i) ==> !lt_from(b, a, i),
    decreases a.len() - i,
{
    if i < a.len() && i < b.len() && a[i as int] == b[i as int] {
        lemma_lt_from_asym(a, b, i + 1);
    }
}

/// Of two sequences, at most one comes strictly before the other.
pub proof fn lemma_seq_lt_asym(a: Seq<char>, b: Seq<char>)
    ensures
        seq_lt(a, b) ==> !seq_lt(b, a),
{
    lemma_lt_from_asym(a, b, 0);
}

/// Entry `x`, folded name `kx`, may stand before entry `y`, folded name `ky`:
/// a higher group first; within a group, by folded name; then by exact name.
pub open spec fn keyed_before(x: EntryView, kx: Seq<char>, y: EntryView, ky: Seq<char>) -> bool {
    x.group > y.group || (x.group == y.group && (seq_lt(kx, ky) || (!seq_lt(ky, kx) && !seq_lt(
        y.name,
        x.name,
    ))))
}

proof fn lemma_keyed_before_total(x: EntryView, kx: Seq<char>, y: EntryView, ky: Seq<char>)
    ensures
        keyed_before(x, kx, y, ky) || keyed_before(y, ky, x, kx),
{
    lemma_seq_lt_asym(kx, ky);
    lemma_seq_lt_asym(y.name, x.name);
}

/// `p` orders the numbers below `n`: each once.
pub open spec fn is_permutation(p: Seq<int>, n: nat) -> bool {
    &&& p.len() == n
    &&& forall|k: int| 0 <= k < n ==> 0 <= #[trigger] p[k] < n
    &&& forall|a: int, b: int| 0 <= a < n && 0 <= b < n && a != b ==> #[trigger] p[a] != #[trigger] p[b]
}

/// `r` holds the entries of `es` in the order `p`, sorted by `keyed_before`
/// with the folded names `keys`.
pub open spec fn sorted_by_keys(r: Seq<EntryView>, es: Seq<EntryView>, keys: Seq<Seq<char>>, p: Seq<int>) -> bool {
    &&& is_permutation(p, es.len())
    &&& r.len() == es.len()
    &&& forall|k: int| 0 <= k < r.len() ==> #[trigger] r[k] == es[p[k]]
    &&& forall|k: int|
        0 <= k < r.len() - 1 ==> #[trigger] keyed_before(
            es[p[k]],
            keys[p[k]],
            es[p[k + 1]],
            keys[p[k + 1]],
        )
}

/// Whether `a` comes strictly before `b`.
fn chars_less(a: &Vec<char>, b: &Vec<char>) -> (r: bool)
    ensures
        r == seq_lt(a@, b@),
{
    let mut i: usize = 0;
    while i < a.len() && i < b.len() && a[i] == b[i]
        invariant
            i <= a.len(),
            i <= b.len(),
            seq_lt(a@, b@) == lt_from(a@, b@, i as nat),
        decreases a.len() - i,
    {
        i = i + 1;
    }
    if i >= a.len() {
        i < b.len()
    } else if i >= b.len() {
        false
    } else {
        (a[i] as u32) < (b[i] as u32)
    }
}

/// Whether entry `x`, folded name `kx`, exact name `nx`, may stand before `y`.
fn before(x: &Entry, kx: &Vec<char>, nx: &Vec<char>, y: &Entry, ky: &Vec<char>, ny: &Vec<char>) -> (r: bool)
    requires
        nx@ == x.name@,
        ny@ == y.name@,
    ensures
        r == keyed_before(x@, kx@, y@, ky@),
{
    if x.group != y.group {
        x.group > y.group
    } else if chars_less(kx, ky) {
        true
    } else if chars_less(ky, kx) {
        false
    } else {
        !chars_less(ny, nx)
    }
}

/// `entries` in display order, where `keys` holds their names case-folded: a
/// higher group first; within a group, by folded name; then by exact name.
pub fn sort_by_keys(entries: &Vec<Entry>, keys: &Vec<String>) -> (r: Vec<Entry>)
    requires
        keys.len() == entries.len(),
    ensures
        exists|p: Seq<int>|
            #[trigger] sorted_by_keys(
                views_of(r@),
                views_of(entries@),
                strings_view(keys@),
                p,
            ),
{
    let n = entries.len();
    let mut folded: Vec<Vec<char>> = Vec::new();
    let mut names: Vec<Vec<char>> = Vec::new();
    let mut j: usize = 0;
    while j < n
        invariant
            n == entries.len() == keys.len(),
            j <= n,
            folded.len() == j,
            names.len() == j,
            forall|k: int| 0 <= k < j ==> #[trigger] folded@[k]@ == keys@[k]@,
            forall|k: int| 0 <= k < j ==> #[trigger] names@[k]@ == entries@[k].name@,
        decreases n - j,
    {
        folded.push(chars_of(keys[j].as_str()));
        names.push(chars_of(entries[j].name.as_str()));
        j = j + 1;
    }
    let ghost es = views_of(entries@);
    let ghost ks = strings_view(keys@);
    let mut order: Vec<usize> = Vec::new();
    let mut i: usize = 0;
    while i < n
        invariant
            n == entries.len() == keys.len() == folded.len() == names.len(),
            es == views_of(entries@),
            ks == strings_view(keys@),
            forall|k: int| 0 <= k < n ==> #[trigger] folded@[k]@ == ks[k],
            forall|k: int| 0 <= k < n ==> #[trigger] names@[k]@ == entries@[k].name@,
            i <= n,
            order.len() == i,
            forall|k: int| 0 <= k < i ==> #[trigger] order@[k] < i,
            forall|a: int, b: int|
                0 <= a < i && 0 <= b < i && a != b ==> #[trigger] order@[a] != #[trigger] order@[b],
            forall|k: int|
                0 <= k < i - 1 ==> #[trigger] keyed_before(
                    es[order@[k] as int],
                    ks[order@[k] as int],
                    es[order@[k + 1] as int],
                    ks[order@[k + 1] as int],
                ),
        decreases n - i,
    {
        let mut p: usize = 0;
        while p < order.len() && before(
            &entries[order[p]],
            &folded[order[p]],
            &names[order[p]],
            &entries[i],
            &folded[i],
            &names[i],
        )
            invariant
                n == entries.len() == keys.len() == folded.len() == names.len(),
                es == views_of(entries@),
                ks == strings_view(keys@),
                forall|k: int| 0 <= k < n ==> #[trigger] folded@[k]@ == ks[k],
                forall|k: int| 0 <= k < n ==> #[trigger] names@[k]@ == entries@[k].name@,
                i < n,
                order.len() == i,
                forall|k: int| 0 <= k < i ==> #[trigger] order@[k] < i,
                p <= i,
                forall|q: int|
                    0 <= q < p ==> #[trigger] keyed_before(
                        es[order@[q] as int],
                        ks[order@[q] as int],
                        es[i as int],
                        ks[i as int],
                    ),
            decreases i - p,
        {
            p = p + 1;
        }
        let ghost old_order = order@;
        proof {
            if p < i {
                lemma_keyed_before_total(
                    es[old_order[p as int] as int],
                    ks[old_order[p as int] as int],
                    es[i as int],
                    ks[i as int],
                );
            }
        }
        order.insert(p, i);
        proof {
            assert forall|k: int| 0 <= k < i + 1 - 1 implies #[trigger] keyed_before(
                es[order@[k] as int],
                ks[order@[k] as int],
                es[order@[k + 1] as int],
                ks[order@[k + 1] as int],
            ) by {
                if k + 1 < p {
                    assert(order@[k] == old_order[k]);
                    assert(order@[k + 1] == old_order[k + 1]);
                    assert(keyed_before(
                        es[old_order[k] as int],
                        ks[old_order[k] as int],
                        es[old_order[k + 1] as int],
                        ks[old_order[k + 1] as int],
                    ));
                } else if k + 1 == p {
                    assert(order@[k] == old_order[k]);
                    assert(order@[k + 1] == i);
                    assert(keyed_before(
                        es[old_order[k] as int],
                        ks[old_order[k] as int],
                        es[i as int],
                        ks[i as int],
                    ));
                } else if k == p {
                    assert(order@[k] == i);
                    assert(order@[k + 1] == old_order[k]);
                    assert(keyed_before(
                        es[i as int],
                        ks[i as int],
                        es[old_order[k] as int],
                        ks[old_order[k] as int],
                    ));
                } else {
                    let j = k - 1;
                    assert(order@[k] == old_order[j]);
                    assert(order@[k + 1] == old_order[j + 1]);
                    assert(keyed_before(
                        es[old_order[j] as int],
                        ks[old_order[j] as int],
                        es[old_order[j + 1] as int],
                        ks[old_order[j + 1] as int],
                    ));
                }
            }
        }
        i = i + 1;
    }
    let mut out: Vec<Entry> = Vec::new();
    let mut k: usize = 0;
    while k < n
        invariant
            n == entries.len() == order.len(),
            forall|a: int| 0 <= a < n ==> #[trigger] order@[a] < n,
            k <= n,
            out.len() == k,
            forall|a: int| 0 <= a < k ==> #[trigger] out@[a]@ == entries@[order@[a] as int]@,
        decreases n - k,
    {
        out.push(entries[order[k]].copy());
        k = k + 1;
    }
    let ghost p = order@.map_values(|x: usize| x as int);
    assert(sorted_by_keys(views_of(out@), es, ks, p));
    out
}

/// The lower-case form of `s`, as Rust's standard library gives it.
pub uninterp spec fn lower_of(s: Seq<char>) -> Seq<char>;

/// Relies on `str::to_lowercase`: the lower-case form of `s`, which depends on its
/// characters alone.
#[verifier::external_body]
fn lowercase(s: &str) -> (r: String)
    ensures
        r@ == lower_of(s@),
{
    s.to_lowercase()
}

/// The lower-case forms of the names of `es`.
pub open spec fn folded_names(es: Seq<EntryView>) -> Seq<Seq<char>> {
    es.map_values(|e: EntryView| lower_of(e.name))
}

/// `entries` in display order: a higher group first; within a group, by name
/// without regard to case; then by exact name.
pub fn sort_entries(entries: &Vec<Entry>) -> (r: Vec<Entry>)
    ensures
        exists|p: Seq<int>|
            #[trigger] sorted_by_keys(
                views_of(r@),
                views_of(entries@),
                folded_names(views_of(entries@)),
                p,
            ),
{
    let mut keys: Vec<String> = Vec::new();
    let mut i: usize = 0;
    while i < entries.len()
        invariant
            i <= entries.len(),
            keys.len() == i,
            forall|k: int| 0 <= k < i ==> #[trigger] keys@[k]@ == lower_of(entries@[k].name@),
        decreases entries.len() - i,
    {
        keys.push(lowercase(entries[i].name.as_str()));
        i = i + 1;
    }
    assert(strings_view(keys@) =~= folded_names(views_of(entries@)));
    sort_by_keys(entries, &keys)
}

} // verus!
