//! The grouping node payload.

use vstd::prelude::*;

use crate::ast::clone_children;
use crate::ast::norm::normalize_view;
use crate::ast::views_of;
use crate::ast::Ast;
use crate::util::slice::NonEmpty;

verus! {

/// A single wrapped subtree.  The wrapper marks a grouping boundary whose
/// identity is load-bearing: canonicalization never removes it.
#[derive(Debug, PartialEq, Eq, Hash)]
pub struct Group {
    /// The wrapped subtree; exactly one element on a well-formed node.
    pub child: NonEmpty<Ast>,
}

impl Group {
    /// Deep-copy this payload: the wrapped subtree is cloned.
    pub fn clone_into(&self) -> (r: Group)
        ensures
            r.child@.len() == self.child@.len(),
            views_of(r.child@) == views_of(self.child@),
        decreases self,
    {
        Group { child: clone_children(&self.child) }
    }

    /// Canonicalize `this` when it is a group — normalize the wrapped
    /// subtree, keeping the wrapper — and leave any other node unchanged.
    pub fn normalize(this: &mut Ast)
        ensures
            *old(this) is Group ==> final(this)@ == normalize_view(old(this)@),
            !(*old(this) is Group) ==> *final(this) == *old(this),
    {
        if this.is_group() {
            this.normalize();
        }
    }
}

} // verus!
