//! The report sink boundary: the core hands already-computed textual
//! content to an output adapter, which owns all presentation.

use vstd::prelude::*;

use crate::error::DbbaError;

verus! {

/// One call accepted by an output adapter, with the content it
/// carried: the abstract state over which the report contract of a
/// diff run is stated.
pub enum OutputEvent {
    Start,
    Title(Seq<char>),
    DiffSection(Seq<char>, Seq<char>),
    NoDiff,
    CloseSection,
    End,
}

/// An output adapter consumes, in order: `start_output`, then per
/// changed table a `write_title`, `write_diff_section` for each
/// changed record, and `close_section`; `write_no_diff_message` if
/// nothing changed; finally `end_output`. `generate_diff` renders a
/// before/after text pair in the sink's own format. Each successful
/// call appends exactly its event to the sink's log, and a sink that
/// promises infallibility never refuses a call.
pub trait OutputAdapter: Sized {
    /// The calls accepted so far.
    spec fn events(&self) -> Seq<OutputEvent>;

    /// Whether every call on this sink succeeds.
    spec fn obeys_infallible() -> bool;

    /// What `generate_diff` returns for a before/after text pair: a
    /// function of the two texts alone.
    spec fn rendered_diff(left: Seq<char>, right: Seq<char>) -> (Seq<char>, Seq<char>);

    fn start_output(&mut self) -> (r: Result<(), DbbaError>)
        ensures
            Self::obeys_infallible() ==> r is Ok,
            r is Ok ==> final(self).events() == old(self).events().push(OutputEvent::Start),
    ;

    fn end_output(&mut self) -> (r: Result<(), DbbaError>)
        ensures
            Self::obeys_infallible() ==> r is Ok,
            r is Ok ==> final(self).events() == old(self).events().push(OutputEvent::End),
    ;

    fn write_title(&mut self, title: &str) -> (r: Result<(), DbbaError>)
        ensures
            Self::obeys_infallible() ==> r is Ok,
            r is Ok ==> final(self).events() == old(self).events().push(
                OutputEvent::Title(title@),
            ),
    ;

    fn write_diff_section(&mut self, left: &str, right: &str) -> (r: Result<(), DbbaError>)
        ensures
            Self::obeys_infallible() ==> r is Ok,
            r is Ok ==> final(self).events() == old(self).events().push(
                OutputEvent::DiffSection(left@, right@),
            ),
    ;

    fn write_no_diff_message(&mut self) -> (r: Result<(), DbbaError>)
        ensures
            Self::obeys_infallible() ==> r is Ok,
            r is Ok ==> final(self).events() == old(self).events().push(OutputEvent::NoDiff),
    ;

    fn close_section(&mut self) -> (r: Result<(), DbbaError>)
        ensures
            Self::obeys_infallible() ==> r is Ok,
            r is Ok ==> final(self).events() == old(self).events().push(
                OutputEvent::CloseSection,
            ),
    ;

    fn generate_diff(&self, left: &str, right: &str) -> (r: (String, String))
        ensures
            (r.0@, r.1@) == Self::rendered_diff(left@, right@),
    ;
}

} // verus!
