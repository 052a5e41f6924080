use vstd::prelude::*;
use vstd::string::StrSliceExecFns;
use vstd::string::StringExecFns;

use crate::entry::{names_of, Entry, Run, RunView};
use crate::tag::{
    decode_spec, digit_of, lemma_tag_round_trip, lemma_tag_symbols, starts_plain, tag_chars, Scheme,
};
use crate::text::{
    chars_of, is_ws, keep_line, lemma_single_line, lemma_trim_end_concat, lemma_trim_end_prefix,
    lines_acc, nonblank_lines, trim, trim_bounds, trim_end, trim_start,
};

verus! {

/// How menu lines are tagged: the scheme, and the text between tag and name.
pub struct Codec {
    pub scheme: Scheme,
    pub separator: String,
}

impl Codec {
    /// A codec for `scheme`, with the `custom` separator or else the scheme's own.
    pub fn new(scheme: Scheme, custom: Option<String>) -> (r: Codec)
        ensures
            r.scheme == scheme,
            r.separator@ == match custom {
                Some(c) => c@,
                None => crate::tag::default_separator(scheme),
            },
    {
        let separator = match custom {
            Some(c) => c,
            None => String::from_str(scheme.default_separator()),
        };
        Codec { scheme, separator }
    }
}

/// The menu line of entry `i` named `name`.
pub open spec fn line_chars(s: Scheme, sep: Seq<char>, i: nat, name: Seq<char>) -> Seq<char> {
    tag_chars(s, i) + sep + name + seq!['\n']
}

/// The menu text for entries named `names`: one line each, in order.
pub open spec fn menu_text(s: Scheme, sep: Seq<char>, names: Seq<Seq<char>>) -> Seq<char>
    decreases names.len(),
{
    if names.len() == 0 {
        Seq::empty()
    } else {
        menu_text(s, sep, names.drop_last()) + line_chars(
            s,
            sep,
            (names.len() - 1) as nat,
            names.last(),
        )
    }
}

/// The text handed to the selector: each entry's tag, the separator and its name,
/// one line per entry, in order.
pub fn render_menu(codec: &Codec, entries: &Vec<Entry>) -> (r: String)
    ensures
        r@ == menu_text(codec.scheme, codec.separator@, names_of(entries@)),
{
    let mut out = String::new();
    let mut i: usize = 0;
    while i < entries.len()
        invariant
            i <= entries.len(),
            out@ == menu_text(codec.scheme, codec.separator@, names_of(entries@.take(i as int))),
        decreases entries.len() - i,
    {
        let ghost before = out@;
        codec.scheme.push_tag(&mut out, i);
        out.append(codec.separator.as_str());
        out.append(entries[i].name.as_str());
        out.append("\n");
        proof {
            reveal_strlit("\n");
            let names = names_of(entries@.take(i + 1));
            assert(names.drop_last() =~= names_of(entries@.take(i as int)));
            assert(names.len() == i + 1);
            assert(names.last() == entries@[i as int].name@);
            assert(menu_text(codec.scheme, codec.separator@, names) == before + line_chars(
                codec.scheme,
                codec.separator@,
                i as nat,
                entries@[i as int].name@,
            ));
            assert(out@ =~= menu_text(codec.scheme, codec.separator@, names));
        }
        i = i + 1;
    }
    assert(entries@.take(entries.len() as int) =~= entries@);
    out
}

/// What one line of the selector's output comes to.
#[derive(Debug, PartialEq, Eq)]
pub enum Pick {
    /// An action to run.
    Run(Run),
    /// Typed text that is not run, since ad-hoc commands are off.
    Rejected(String),
}

/// A `Pick` as plain values.
pub ghost enum PickView {
    Run(RunView),
    Rejected(Seq<char>),
}

impl View for Pick {
    type V = PickView;

    open spec fn view(&self) -> PickView {
        match self {
            Pick::Run(r) => PickView::Run(r@),
            Pick::Rejected(l) => PickView::Rejected(l@),
        }
    }
}

/// What `line` comes to: the action of the entry whose tag starts it; else the
/// line itself as a shell command where ad-hoc commands are allowed; else a
/// rejection.
pub open spec fn pick_of(s: Scheme, entries: Seq<Entry>, line: Seq<char>, ad_hoc: bool) -> PickView {
    match decode_spec(s, line, entries.len()) {
        Some(i) => PickView::Run(entries[i as int].run@),
        None => if ad_hoc {
            PickView::Run(RunView::Shell(line))
        } else {
            PickView::Rejected(line)
        },
    }
}

/// What the line `raw[a..b]`, whose characters are `t`, comes to.
fn pick_line(
    scheme: Scheme,
    entries: &Vec<Entry>,
    raw: &str,
    t: &Vec<char>,
    a: usize,
    b: usize,
    ad_hoc: bool,
) -> (r: Pick)
    requires
        t@ == raw@,
        a <= b <= t.len(),
    ensures
        r@ == pick_of(scheme, entries@, t@.subrange(a as int, b as int), ad_hoc),
{
    match scheme.decode_range(t, a, b, entries.len()) {
        Some(i) => Pick::Run(entries[i].run.copy()),
        None => {
            let line = String::from_str(raw.substring_char(a, b));
            if ad_hoc {
                Pick::Run(Run::Shell(line))
            } else {
                Pick::Rejected(line)
            }
        },
    }
}

/// What the selector's output `raw` comes to: one pick for each of its non-blank
/// lines, trimmed, in order.
pub fn resolve_selection(scheme: Scheme, entries: &Vec<Entry>, raw: &str, ad_hoc: bool) -> (r:
    Vec<Pick>)
    ensures
        r.len() == nonblank_lines(raw@).len(),
        forall|k: int|
            0 <= k < r.len() ==> #[trigger] r@[k]@ == pick_of(
                scheme,
                entries@,
                nonblank_lines(raw@)[k],
                ad_hoc,
            ),
{
    let t = chars_of(raw);
    let mut out: Vec<Pick> = Vec::new();
    let ghost mut done: Seq<Seq<char>> = Seq::empty();
    let mut start: usize = 0;
    let mut j: usize = 0;
    while j < t.len()
        invariant
            t@ == raw@,
            start <= j <= t.len(),
            lines_acc(t@.take(j as int)) == (done, t@.subrange(start as int, j as int)),
            out.len() == done.len(),
            forall|k: int|
                0 <= k < out.len() ==> #[trigger] out@[k]@ == pick_of(
                    scheme,
                    entries@,
                    done[k],
                    ad_hoc,
                ),
        decreases t.len() - j,
    {
        let ghost p = t@.take(j as int);
        let ghost q = t@.take(j + 1);
        proof {
            assert(q.drop_last() =~= p);
            assert(q.last() == t@[j as int]);
        }
        if t[j] == '\n' {
            let (a, b) = trim_bounds(&t, start, j);
            if a < b {
                let pick = pick_line(scheme, entries, raw, &t, a, b, ad_hoc);
                out.push(pick);
            }
            proof {
                done = keep_line(done, t@.subrange(start as int, j as int));
            }
            start = j + 1;
        } else {
            proof {
                assert(t@.subrange(start as int, j + 1) =~= t@.subrange(start as int, j as int).push(
                    t@[j as int],
                ));
            }
        }
        j = j + 1;
    }
    let (a, b) = trim_bounds(&t, start, j);
    if a < b {
        let pick = pick_line(scheme, entries, raw, &t, a, b, ad_hoc);
        out.push(pick);
    }
    proof {
        assert(t@.take(j as int) =~= raw@);
    }
    out
}

/// The selector's output that is exactly one rendered menu line comes to one
/// pick, the action of the entry that the line was rendered for, whether or not
/// ad-hoc commands are allowed, so long as separator and name hold no newline and
/// do not start with a tag symbol.
pub proof fn lemma_selected_line_picks_entry(
    s: Scheme,
    entries: Seq<Entry>,
    sep: Seq<char>,
    i: nat,
    ad_hoc: bool,
)
    requires
        i < entries.len(),
        starts_plain(s, sep + entries[i as int].name@),
        forall|k: int|
            0 <= k < (sep + entries[i as int].name@).len() ==> #[trigger] (sep
                + entries[i as int].name@)[k] != '\n',
    ensures
        nonblank_lines(line_chars(s, sep, i, entries[i as int].name@)).len() == 1,
        pick_of(s, entries, nonblank_lines(line_chars(s, sep, i, entries[i as int].name@))[0], ad_hoc)
            == PickView::Run(entries[i as int].run@),
{
    let tag = tag_chars(s, i);
    let rest = sep + entries[i as int].name@;
    let body = tag + rest;
    lemma_tag_symbols(s, i);
    assert forall|k: int| 0 <= k < body.len() implies #[trigger] body[k] != '\n' by {
        if k < tag.len() {
            assert(body[k] == tag[k]);
            assert(digit_of(s, tag[k]) is Some);
        } else {
            assert(body[k] == rest[k - tag.len()]);
        }
    }
    assert(line_chars(s, sep, i, entries[i as int].name@) =~= body.push('\n'));
    lemma_single_line(body);
    assert(digit_of(s, body[0]) is Some);
    assert(!is_ws(body[0]));
    assert(trim_start(body) == body);
    assert(tag.last() == body[tag.len() - 1]);
    assert(digit_of(s, tag.last()) is Some);
    lemma_trim_end_concat(tag, rest);
    let kept = trim_end(rest);
    lemma_trim_end_prefix(rest);
    assert(trim(body) == tag + kept);
    if kept.len() > 0 {
        assert(kept[0] == rest[0]);
    }
    lemma_tag_round_trip(s, i, entries.len(), kept);
}

} // verus!
