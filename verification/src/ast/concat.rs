//! The concatenation node payload.

use vstd::prelude::*;

use crate::ast::clone_children;
use crate::ast::norm::normalize_view;
use crate::ast::views_of;
use crate::ast::Ast;
use crate::ast::Children;

verus! {

/// A non-empty ordered sequence of subtrees matched one after another.
#[derive(Debug, PartialEq, Eq, Hash)]
pub struct Concat {
    /// The subtrees; at least one on a well-formed node.
    pub children: Children,
}

impl Concat {
    /// Deep-copy this payload: every subtree is cloned, in order.
    pub fn clone_into(&self) -> (r: Concat)
        ensures
            r.children@.len() == self.children@.len(),
            views_of(r.children@) == views_of(self.children@),
        decreases self,
    {
        Concat { children: clone_children(&self.children) }
    }

    /// Canonicalize `this` when it is a concatenation — normalize every
    /// subtree and collapse a singleton into its only child — and leave any
    /// other node unchanged.
    pub fn normalize(this: &mut Ast)
        ensures
            *old(this) is Concat ==> final(this)@ == normalize_view(old(this)@),
            !(*old(this) is Concat) ==> *final(this) == *old(this),
    {
        if this.is_concat() {
            this.normalize();
        }
    }
}

} // verus!
