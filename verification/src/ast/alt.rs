//! The alternation node payload.

use vstd::prelude::*;

use crate::ast::clone_children;
use crate::ast::norm::normalize_view;
use crate::ast::views_of;
use crate::ast::Ast;
use crate::ast::Children;

verus! {

/// A non-empty ordered sequence of alternative subtrees; the node matches
/// if any alternative matches.
#[derive(Debug, PartialEq, Eq, Hash)]
pub struct Alt {
    /// The alternatives; at least one on a well-formed node.
    pub children: Children,
}

impl Alt {
    /// Deep-copy this payload: every alternative is cloned, in order.
    pub fn clone_into(&self) -> (r: Alt)
        ensures
            r.children@.len() == self.children@.len(),
            views_of(r.children@) == views_of(self.children@),
        decreases self,
    {
        Alt { children: clone_children(&self.children) }
    }

    /// Canonicalize `this` when it is an alternation — normalize every
    /// alternative and collapse a singleton into its only child — and leave
    /// any other node unchanged.
    pub fn normalize(this: &mut Ast)
        ensures
            *old(this) is Alt ==> final(this)@ == normalize_view(old(this)@),
            !(*old(this) is Alt) ==> *final(this) == *old(this),
    {
        if this.is_alt() {
            this.normalize();
        }
    }
}

} // verus!
