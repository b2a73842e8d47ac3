//! The repetition node payload and its repetition-count kinds.

use vstd::prelude::*;

use crate::ast::clone_children;
use crate::ast::norm::normalize_view;
use crate::ast::views_of;
use crate::ast::Ast;
use crate::util::slice::NonEmpty;

verus! {

/// A single wrapped subtree matched a number of times governed by `kind`.
#[derive(Debug, PartialEq, Eq, Hash)]
pub struct Repeat {
    /// How many times the child is matched.
    pub kind: RepeatKind,
    /// The wrapped subtree; exactly one element on a well-formed node.
    pub child: NonEmpty<Ast>,
}

impl Repeat {
    /// Deep-copy this payload: the kind is copied verbatim and the wrapped
    /// subtree is cloned.
    pub fn clone_into(&self) -> (r: Repeat)
        ensures
            r.kind == self.kind,
            r.child@.len() == self.child@.len(),
            views_of(r.child@) == views_of(self.child@),
        decreases self,
    {
        Repeat { kind: self.kind, child: clone_children(&self.child) }
    }

    /// Canonicalize `this` when it is a repetition — fold the kind, turn a
    /// zero-repetition into `Empty`, collapse a one-repetition into its
    /// canonicalized child, and otherwise normalize the child in place —
    /// and leave any other node unchanged.
    pub fn normalize(this: &mut Ast)
        ensures
            *old(this) is Repeat ==> final(this)@ == normalize_view(old(this)@),
            !(*old(this) is Repeat) ==> *final(this) == *old(this),
    {
        if this.is_repeat() {
            this.normalize();
        }
    }
}

/// How many times a [`Repeat`] node matches its child.
#[derive(Debug, Clone, Copy, PartialEq, Eq, Structural, Hash)]
pub enum RepeatKind {
    /// Exactly this many times.
    Exact(u32),
    /// This many times or more.
    AtLeast(u32),
    /// Between the two bounds, inclusive.
    Bounded(u32, u32),
}

/// The canonical form of a repetition kind: `Bounded(n, n)` folds into
/// `Exact(n)`; everything else is already canonical.
pub open spec fn normalize_kind(kind: RepeatKind) -> RepeatKind {
    match kind {
        RepeatKind::Bounded(start, end) => if start == end {
            RepeatKind::Exact(start)
        } else {
            kind
        },
        _ => kind,
    }
}

impl RepeatKind {
    /// Matching at most once.
    pub fn zero_or_one() -> (r: RepeatKind)
        ensures
            r == RepeatKind::Bounded(0, 1),
    {
        RepeatKind::Bounded(0, 1)
    }

    /// Matching any number of times.
    pub fn zero_or_more() -> (r: RepeatKind)
        ensures
            r == RepeatKind::AtLeast(0),
    {
        RepeatKind::AtLeast(0)
    }

    /// Matching at least once.
    pub fn one_or_more() -> (r: RepeatKind)
        ensures
            r == RepeatKind::AtLeast(1),
    {
        RepeatKind::AtLeast(1)
    }

    /// Fold a degenerate bounded kind into an exact one.
    pub fn normalize(self) -> (r: Self)
        ensures
            r == normalize_kind(self),
    {
        match self {
            RepeatKind::Bounded(start, end) => if start == end {
                RepeatKind::Exact(start)
            } else {
                self
            },
            _ => self,
        }
    }

    /// Whether the kind describes a non-empty set of counts: a bounded kind
    /// is valid only when its bounds are ordered.
    pub fn is_valid(self) -> (r: bool)
        ensures
            r == match self {
                RepeatKind::Bounded(start, end) => start <= end,
                _ => true,
            },
    {
        match self {
            RepeatKind::Bounded(start, end) => start <= end,
            _ => true,
        }
    }

    /// The smallest number of repetitions the kind allows.
    pub fn start(self) -> (r: u32)
        ensures
            r == match self {
                RepeatKind::Exact(start) => start,
                RepeatKind::AtLeast(start) => start,
                RepeatKind::Bounded(start, _) => start,
            },
    {
        match self {
            RepeatKind::Exact(start) => start,
            RepeatKind::AtLeast(start) => start,
            RepeatKind::Bounded(start, _) => start,
        }
    }

    /// The largest number of repetitions the kind allows, if it is bounded
    /// above.
    pub fn end(self) -> (r: Option<u32>)
        ensures
            r == match self {
                RepeatKind::Exact(end) => Some(end),
                RepeatKind::AtLeast(_) => None::<u32>,
                RepeatKind::Bounded(_, end) => Some(end),
            },
    {
        match self {
            RepeatKind::Exact(end) => Some(end),
            RepeatKind::AtLeast(_) => None,
            RepeatKind::Bounded(_, end) => Some(end),
        }
    }
}

} // verus!
