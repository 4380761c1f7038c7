//! What a view shows, kept in step with the location it was loaded for.
use vstd::prelude::*;
use crate::navigator::{PathState, PathView, pushed};
use crate::listing::PathType;

verus! {

/// What a view shows after a result keyed to `issued_for` arrives while the
/// location is `current`: the result where the location has not moved since,
/// what it showed before otherwise.
pub open spec fn delivered<T>(shown: T, current: PathView, issued_for: PathView, result: T) -> T {
    if current == issued_for {
        result
    } else {
        shown
    }
}

/// The content of one view (a listing, a file's text) and the rule that
/// applies a loaded result to it.
pub struct Panel<T> {
    shown: T,
}

impl<T> View for Panel<T> {
    type V = T;

    closed spec fn view(&self) -> T {
        self.shown
    }
}

impl<T> Panel<T> {
    /// A view that shows `initial`.
    pub fn new(initial: T) -> (r: Panel<T>)
        ensures
            r@ == initial,
    {
        Panel { shown: initial }
    }

    /// What the view shows.
    pub fn shown(&self) -> (r: &T)
        ensures
            *r == self@,
    {
        &self.shown
    }

    /// Applies `result`, loaded for the location `issued_for`, if the
    /// location is still `current`; a result for a location that has since
    /// changed is dropped. Returns whether it was applied.
    pub fn deliver(&mut self, current: &PathState, issued_for: &PathState, result: T) -> (applied:
        bool)
        ensures
            applied == (current@ == issued_for@),
            final(self)@ == delivered(old(self)@, current@, issued_for@, result),
    {
        if current.is_current(issued_for) {
            self.shown = result;
            true
        } else {
            false
        }
    }
}

/// A result loaded for one location and arriving after the location moved
/// to another is never shown.
pub proof fn lemma_stale_result_discarded<T>(shown: T, s1: PathView, s2: PathView, result: T)
    requires
        s1 != s2,
    ensures
        delivered(shown, s2, s1, result) == shown,
{
}

/// A result loaded for a location and arriving after the user stepped into a
/// child is never shown.
pub proof fn lemma_result_discarded_after_push<T>(
    shown: T,
    s1: PathView,
    name: Seq<char>,
    kind: PathType,
    result: T,
)
    ensures
        delivered(shown, pushed(s1, name, kind), s1, result) == shown,
{
    assert(pushed(s1, name, kind).segments.len() != s1.segments.len());
}

} // verus!
