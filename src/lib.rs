//! A launcher's core: the menu's entries, merged from configuration and from
//! executables found on disk and put in display order; the tags that let a line
//! handed back by an external menu program be traced to the entry it names; and
//! what each chosen action starts.
use vstd::prelude::*;

pub mod dispatch;
pub mod entry;
pub mod menu;
pub mod order;
pub mod resolve;
pub mod tag;
pub mod text;

verus! {

} // verus!
