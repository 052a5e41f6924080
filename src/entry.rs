use vstd::prelude::*;

use crate::text::strings_view;

verus! {

/// What running an entry does.
#[derive(Debug, PartialEq, Eq)]
pub enum Run {
    /// A program and its arguments, started directly.
    Bare(Vec<String>),
    /// A command line handed to the configured shell.
    Shell(String),
}

/// A `Run` as plain values.
pub ghost enum RunView {
    Bare(Seq<Seq<char>>),
    Shell(Seq<char>),
}

impl View for Run {
    type V = RunView;

    open spec fn view(&self) -> RunView {
        match self {
            Run::Bare(args) => RunView::Bare(strings_view(args@)),
            Run::Shell(line) => RunView::Shell(line@),
        }
    }
}

/// A copy of the strings of `v`.
pub fn copy_strings(v: &Vec<String>) -> (r: Vec<String>)
    ensures
        strings_view(r@) == strings_view(v@),
{
    let mut out: Vec<String> = Vec::new();
    let mut i: usize = 0;
    while i < v.len()
        invariant
            i <= v.len(),
            out.len() == i,
            forall|k: int| 0 <= k < i ==> #[trigger] out@[k]@ == v@[k]@,
        decreases v.len() - i,
    {
        out.push(v[i].clone());
        i = i + 1;
    }
    assert(strings_view(out@) =~= strings_view(v@));
    out
}

impl Run {
    /// A copy of this action.
    pub fn copy(&self) -> (r: Run)
        ensures
            r@ == self@,
    {
        match self {
            Run::Bare(args) => Run::Bare(copy_strings(args)),
            Run::Shell(line) => Run::Shell(line.clone()),
        }
    }
}

/// A named, runnable menu item.
#[derive(Debug, PartialEq, Eq)]
pub struct Entry {
    /// The text shown in the menu.
    pub name: String,
    /// What choosing it runs.
    pub run: Run,
    /// Its sort group: higher groups come first.
    pub group: i64,
}

/// The names of `es`, in order.
pub open spec fn names_of(es: Seq<Entry>) -> Seq<Seq<char>> {
    es.map_values(|e: Entry| e.name@)
}

/// An `Entry` as plain values.
pub ghost struct EntryView {
    pub name: Seq<char>,
    pub run: RunView,
    pub group: int,
}

impl View for Entry {
    type V = EntryView;

    open spec fn view(&self) -> EntryView {
        EntryView { name: self.name@, run: self.run@, group: self.group as int }
    }
}

/// The views of `es`, in order.
pub open spec fn views_of(es: Seq<Entry>) -> Seq<EntryView> {
    es.map_values(|e: Entry| e@)
}

/// What an entry declared without an action runs: its name, through the shell
/// where the shell is enabled, else as a program of its own.
pub open spec fn default_run(name: Seq<char>, shell: bool) -> RunView {
    if shell {
        RunView::Shell(name)
    } else {
        RunView::Bare(seq![name])
    }
}

impl Entry {
    /// An entry declared in the configuration: its action defaults to its name
    /// and its group to 0.
    pub fn configured(name: String, run: Option<Run>, group: Option<i64>, shell: bool) -> (r: Entry)
        ensures
            r.name@ == name@,
            r.run@ == match run {
                Some(x) => x@,
                None => default_run(name@, shell),
            },
            r.group == match group {
                Some(g) => g,
                None => 0,
            },
    {
        let run = match run {
            Some(x) => x,
            None => if shell {
                Run::Shell(name.clone())
            } else {
                let args: Vec<String> = vec![name.clone()];
                proof {
                    assert(strings_view(args@) =~= seq![name@]);
                }
                Run::Bare(args)
            },
        };
        let group = match group {
            Some(g) => g,
            None => 0,
        };
        Entry { name, run, group }
    }

    /// A copy of this entry.
    pub fn copy(&self) -> (r: Entry)
        ensures
            r@ == self@,
    {
        Entry { name: self.name.clone(), run: self.run.copy(), group: self.group }
    }
}

} // verus!
