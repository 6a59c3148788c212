//! Selections: an optional allow-list and an optional deny-list, and
//! which files the two together let through.

use crate::filter::{filter_of, matches_filter, parse_filter, Filter, FilterView};
use crate::text::opt_str_view;
use vstd::prelude::*;

verus! {

/// What a selection holds: the allow-list and the deny-list, each of which
/// may be absent.
pub struct SelectionView {
    pub allow: Option<FilterView>,
    pub deny: Option<FilterView>,
}

impl SelectionView {
    /// Whether the file that `path` names is let through: there is no
    /// allow-list or it matches the file, and there is no deny-list or it
    /// does not match the file.
    pub open spec fn accepts(self, path: Seq<char>) -> bool {
        &&& self.allow matches Some(a) ==> a.matches(path)
        &&& self.deny matches Some(d) ==> !d.matches(path)
    }
}

/// The filter that an optional specification describes. An absent
/// specification gives no filter, not one that matches nothing.
pub open spec fn optional_filter_of(spec: Option<Seq<char>>) -> Option<FilterView> {
    match spec {
        Some(s) => Some(filter_of(s)),
        None => None,
    }
}

/// The view of an optional filter.
pub open spec fn optional_view(f: Option<Filter>) -> Option<FilterView> {
    match f {
        Some(g) => Some(g@),
        None => None,
    }
}

/// With both lists present a file is let through exactly when the
/// allow-list matches it and the deny-list does not.
pub proof fn lemma_accepts_with_both(allow: FilterView, deny: FilterView, path: Seq<char>)
    ensures
        (SelectionView { allow: Some(allow), deny: Some(deny) }).accepts(path) <==> allow.matches(
            path,
        ) && !deny.matches(path),
{
}

/// Without lists every file is let through; with one list that list alone
/// decides.
pub proof fn lemma_accepts_with_fewer(f: FilterView, path: Seq<char>)
    ensures
        (SelectionView { allow: None, deny: None }).accepts(path),
        (SelectionView { allow: Some(f), deny: None }).accepts(path) <==> f.matches(path),
        (SelectionView { allow: None, deny: Some(f) }).accepts(path) <==> !f.matches(path),
{
}

/// An allow-list and a deny-list, each of which may be absent.
pub struct Selection {
    pub allow: Option<Filter>,
    pub deny: Option<Filter>,
}

impl View for Selection {
    type V = SelectionView;

    open spec fn view(&self) -> SelectionView {
        SelectionView { allow: optional_view(self.allow), deny: optional_view(self.deny) }
    }
}

impl Selection {
    /// Makes the two filters from their specifications.
    pub fn new(allow: Option<&str>, deny: Option<&str>) -> (r: Selection)
        ensures
            r@.allow == optional_filter_of(opt_str_view(allow)),
            r@.deny == optional_filter_of(opt_str_view(deny)),
    {
        Selection { allow: parse_filter(allow), deny: parse_filter(deny) }
    }

    /// Whether the file that `path` names is let through. The deny-list is
    /// looked at only once the allow-list has let the file pass.
    pub fn accepts(&self, path: &str) -> (r: bool)
        ensures
            r == self@.accepts(path@),
    {
        if let Some(f) = &self.allow {
            if !matches_filter(path, f) {
                return false;
            }
        }
        if let Some(f) = &self.deny {
            if matches_filter(path, f) {
                return false;
            }
        }
        true
    }
}

} // verus!
