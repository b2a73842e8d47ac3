//! The pattern syntax tree: node kinds, variant dispatch, canonicalization
//! and deep copy.

pub mod alt;
pub mod class;
pub mod concat;
pub mod group;
pub mod literal;
pub mod norm;
pub mod repeat;

pub use alt::Alt;
pub use class::ByteRange;
pub use class::Class;
pub use concat::Concat;
pub use group::Group;
pub use literal::Lit;
pub use repeat::Repeat;
pub use repeat::RepeatKind;

use vstd::prelude::*;

use crate::ast::norm::normalize_view;
use crate::util::slice::NonEmpty;

verus! {

/// The child sequence of a composite node.
pub type Children = NonEmpty<Ast>;

/// A pattern syntax tree node.
///
/// The tree is a strict ownership tree: every composite node owns its
/// children outright, there is no sharing and there are no cycles.
/// Equality is structural: two trees compare equal exactly when their
/// shapes — their views — are equal.
#[derive(Debug, Hash)]
pub enum Ast {
    /// Matches the empty string; also the placeholder left behind by the
    /// `take_*` operations.
    Empty,
    /// Matches any single byte.
    Dot,
    /// A non-empty run of literal bytes, matched verbatim in order.
    Lit(Lit),
    /// A non-empty set of inclusive byte ranges, matching one byte.
    Class(Class),
    /// A non-empty ordered choice between subtrees.
    Alt(Alt),
    /// A non-empty ordered sequence of subtrees matched one after another.
    Concat(Concat),
    /// A single wrapped subtree whose grouping boundary is load-bearing.
    Group(Group),
    /// A single wrapped subtree matched a number of times.
    Repeat(Repeat),
}

/// The mathematical shape of a tree: the same variants as [`Ast`], with
/// every owned sequence abstracted to a `Seq`.
///
/// `Group` and `Repeat` carry a sequence here because their executable
/// counterparts store the single child inside a [`NonEmpty`]; on a
/// well-formed tree (see [`wf_view`]) those sequences have length one.
#[verifier::ext_equal]
pub enum AstView {
    /// Matches the empty string.
    Empty,
    /// Matches any single byte.
    Dot,
    /// Literal bytes.
    Lit(Seq<u8>),
    /// Inclusive byte ranges.
    Class(Seq<ByteRange>),
    /// Ordered alternatives.
    Alt(Seq<AstView>),
    /// Ordered sequence.
    Concat(Seq<AstView>),
    /// Grouped subtree.
    Group(Seq<AstView>),
    /// Repeated subtree.
    Repeat(RepeatKind, Seq<AstView>),
}

/// The views of every tree in a sequence, in order.
pub open spec fn views_of(asts: Seq<Ast>) -> Seq<AstView>
    decreases asts,
{
    if asts.len() == 0 {
        Seq::empty()
    } else {
        views_of(asts.drop_last()).push(asts.last().view())
    }
}

/// `views_of` maps the sequence elementwise.
pub proof fn lemma_views_of(asts: Seq<Ast>)
    ensures
        views_of(asts).len() == asts.len(),
        forall|i: int|
            #![trigger views_of(asts)[i]]
            0 <= i < asts.len() ==> views_of(asts)[i] == asts[i]@,
    decreases asts,
{
    if asts.len() > 0 {
        lemma_views_of(asts.drop_last());
        let prev = views_of(asts.drop_last());
        let last_view = asts.last()@;
        assert(views_of(asts) == prev.push(last_view));
        assert(prev.push(last_view).len() == prev.len() + 1);
        assert forall|i: int| 0 <= i < asts.len() implies #[trigger] views_of(asts)[i]
            == asts[i]@ by {
            if i < asts.len() - 1 {
                assert(prev.push(last_view)[i] == prev[i]);
                assert(asts.drop_last()[i] == asts[i]);
            } else {
                assert(prev.push(last_view)[i] == last_view);
            }
        }
    }
}

impl View for Ast {
    type V = AstView;

    open spec fn view(&self) -> AstView
        decreases self,
    {
        match self {
            Ast::Empty => AstView::Empty,
            Ast::Dot => AstView::Dot,
            Ast::Lit(lit) => AstView::Lit(lit.bytes@),
            Ast::Class(class) => AstView::Class(class.ranges@),
            Ast::Alt(alt) => AstView::Alt(views_of(alt.children@)),
            Ast::Concat(concat) => AstView::Concat(views_of(concat.children@)),
            Ast::Group(group) => AstView::Group(views_of(group.child@)),
            Ast::Repeat(repeat) => AstView::Repeat(repeat.kind, views_of(repeat.child@)),
        }
    }
}

/// Well-formedness of a tree shape: every sequence that the data model
/// requires to be non-empty has at least one element, and the wrappers
/// `Group` and `Repeat` hold exactly one child.
pub open spec fn wf_view(v: AstView) -> bool
    decreases v,
{
    match v {
        AstView::Empty => true,
        AstView::Dot => true,
        AstView::Lit(bytes) => bytes.len() >= 1,
        AstView::Class(ranges) => ranges.len() >= 1,
        AstView::Alt(children) => children.len() >= 1 && (forall|i: int|
            0 <= i < children.len() ==> wf_view(#[trigger] children[i])),
        AstView::Concat(children) => children.len() >= 1 && (forall|i: int|
            0 <= i < children.len() ==> wf_view(#[trigger] children[i])),
        AstView::Group(child) => child.len() == 1 && wf_view(child[0]),
        AstView::Repeat(_, child) => child.len() == 1 && wf_view(child[0]),
    }
}

/// Well-formedness of every shape in a sequence.
pub open spec fn wf_seq(vs: Seq<AstView>) -> bool {
    forall|i: int| 0 <= i < vs.len() ==> wf_view(#[trigger] vs[i])
}

impl Default for Ast {
    /// The canonical placeholder node, `Empty`.
    fn default() -> (r: Self)
        ensures
            r == Ast::Empty,
    {
        Ast::Empty
    }
}

impl Ast {
    /// Well-formedness of the tree itself, stated on its view.
    pub open spec fn wf(&self) -> bool {
        wf_view(self@)
    }

    /// The child sequence a node exposes: the stored children of an
    /// alternation or concatenation, the single-element sequence wrapped by
    /// a group or repetition, and nothing for the leaf variants.
    pub open spec fn spec_children(&self) -> Option<Seq<Ast>> {
        match self {
            Ast::Alt(alt) => Some(alt.children@),
            Ast::Concat(concat) => Some(concat.children@),
            Ast::Group(group) => Some(group.child@),
            Ast::Repeat(repeat) => Some(repeat.child@),
            _ => None,
        }
    }

    /// The same node with its child sequence replaced; a leaf is unchanged.
    pub open spec fn with_children(self, children: Children) -> Ast {
        match self {
            Ast::Alt(_) => Ast::Alt(Alt { children }),
            Ast::Concat(_) => Ast::Concat(Concat { children }),
            Ast::Group(_) => Ast::Group(Group { child: children }),
            Ast::Repeat(repeat) => Ast::Repeat(Repeat { kind: repeat.kind, child: children }),
            _ => self,
        }
    }

    /// Borrow the children of a composite node, uniformly over the four
    /// composite variants; a leaf has none.
    pub fn children(&self) -> (r: Option<&Children>)
        ensures
            match r {
                Some(children) => self.spec_children() == Some((*children)@),
                None => self.spec_children() is None,
            },
    {
        match self {
            Ast::Empty => None,
            Ast::Dot => None,
            Ast::Lit(_) => None,
            Ast::Class(_) => None,
            Ast::Alt(alt) => Some(&alt.children),
            Ast::Concat(concat) => Some(&concat.children),
            Ast::Group(group) => Some(&group.child),
            Ast::Repeat(repeat) => Some(&repeat.child),
        }
    }

    /// Mutably borrow the children of a composite node; a leaf has none and
    /// is left untouched.
    pub fn children_mut(&mut self) -> (r: Option<&mut Children>)
        ensures
            match r {
                Some(children) => old(self).spec_children() == Some((*children)@) && *final(self)
                    == old(self).with_children(*final(children)),
                None => old(self).spec_children() is None && *final(self) == *old(self),
            },
    {
        match self {
            Ast::Empty => None,
            Ast::Dot => None,
            Ast::Lit(_) => None,
            Ast::Class(_) => None,
            Ast::Alt(alt) => Some(&mut alt.children),
            Ast::Concat(concat) => Some(&mut concat.children),
            Ast::Group(group) => Some(&mut group.child),
            Ast::Repeat(repeat) => Some(&mut repeat.child),
        }
    }

    /// Whether this node is the `Empty` variant.
    pub fn is_empty(&self) -> (r: bool)
        ensures
            r == (self is Empty),
    {
        match self {
            Ast::Empty => true,
            _ => false,
        }
    }

    /// Whether this node is the `Dot` variant.
    pub fn is_dot(&self) -> (r: bool)
        ensures
            r == (self is Dot),
    {
        match self {
            Ast::Dot => true,
            _ => false,
        }
    }

    /// Deep-copy this tree.  The copy is structurally equal to the source
    /// and owns all of its storage.
    pub fn clone_into(&self) -> (r: Ast)
        ensures
            r@ == self@,
        decreases self,
    {
        match self {
            Ast::Empty => Ast::Empty,
            Ast::Dot => Ast::Dot,
            Ast::Lit(lit) => Ast::Lit(lit.clone_into()),
            Ast::Class(class) => Ast::Class(class.clone_into()),
            Ast::Alt(alt) => Ast::Alt(alt.clone_into()),
            Ast::Concat(concat) => Ast::Concat(concat.clone_into()),
            Ast::Group(group) => Ast::Group(group.clone_into()),
            Ast::Repeat(repeat) => Ast::Repeat(repeat.clone_into()),
        }
    }

    /// Rewrite this tree into its canonical form.
    pub fn normalize(&mut self)
        ensures
            final(self)@ == normalize_view(old(self)@),
            old(self).wf() ==> final(self).wf(),
    {
        proof {
            if old(self).wf() {
                norm::lemma_normalize_wf(old(self)@);
            }
        }
        let mut work = Ast::Empty;
        core::mem::swap(self, &mut work);
        work = normalize_owned(work);
        core::mem::swap(self, &mut work);
    }

    /// Whether this node is a literal.
    pub fn is_lit(&self) -> (r: bool)
        ensures
            r == (self is Lit),
    {
        match self {
            Ast::Lit(..) => true,
            _ => false,
        }
    }

    /// Borrow the payload if this node is a literal.
    pub fn as_lit(&self) -> (r: Option<&Lit>)
        ensures
            match r {
                Some(lit) => *self is Lit && *lit == self->Lit_0,
                None => !(*self is Lit),
            },
    {
        match self {
            Ast::Lit(value) => Some(value),
            _ => None,
        }
    }

    /// Mutably borrow the payload if this node is a literal.
    pub fn as_lit_mut(&mut self) -> (r: Option<&mut Lit>)
        ensures
            match r {
                Some(lit) => *old(self) is Lit && *lit == old(self)->Lit_0 && *final(self)
                    == Ast::Lit(*final(lit)),
                None => !(*old(self) is Lit) && *final(self) == *old(self),
            },
    {
        match self {
            Ast::Lit(value) => Some(value),
            _ => None,
        }
    }

    /// If this node is a literal, take the payload out and leave `Empty`
    /// behind; otherwise return nothing and leave the node unchanged.
    pub fn take_lit(&mut self) -> (r: Option<Lit>)
        ensures
            match r {
                Some(lit) => *old(self) is Lit && lit == old(self)->Lit_0 && *final(self)
                    == Ast::Empty,
                None => !(*old(self) is Lit) && *final(self) == *old(self),
            },
    {
        match self {
            Ast::Lit(..) => {}
            _ => {
                return None;
            }
        }
        let mut taken = Ast::Empty;
        core::mem::swap(self, &mut taken);
        match taken {
            Ast::Lit(value) => Some(value),
            _ => None,
        }
    }

    /// Whether this node is a byte class.
    pub fn is_class(&self) -> (r: bool)
        ensures
            r == (self is Class),
    {
        match self {
            Ast::Class(..) => true,
            _ => false,
        }
    }

    /// Borrow the payload if this node is a byte class.
    pub fn as_class(&self) -> (r: Option<&Class>)
        ensures
            match r {
                Some(class) => *self is Class && *class == self->Class_0,
                None => !(*self is Class),
            },
    {
        match self {
            Ast::Class(value) => Some(value),
            _ => None,
        }
    }

    /// Mutably borrow the payload if this node is a byte class.
    pub fn as_class_mut(&mut self) -> (r: Option<&mut Class>)
        ensures
            match r {
                Some(class) => *old(self) is Class && *class == old(self)->Class_0 && *final(self)
                    == Ast::Class(*final(class)),
                None => !(*old(self) is Class) && *final(self) == *old(self),
            },
    {
        match self {
            Ast::Class(value) => Some(value),
            _ => None,
        }
    }

    /// If this node is a byte class, take the payload out and leave `Empty`
    /// behind; otherwise return nothing and leave the node unchanged.
    pub fn take_class(&mut self) -> (r: Option<Class>)
        ensures
            match r {
                Some(class) => *old(self) is Class && class == old(self)->Class_0 && *final(self)
                    == Ast::Empty,
                None => !(*old(self) is Class) && *final(self) == *old(self),
            },
    {
        match self {
            Ast::Class(..) => {}
            _ => {
                return None;
            }
        }
        let mut taken = Ast::Empty;
        core::mem::swap(self, &mut taken);
        match taken {
            Ast::Class(value) => Some(value),
            _ => None,
        }
    }

    /// Whether this node is an alternation.
    pub fn is_alt(&self) -> (r: bool)
        ensures
            r == (self is Alt),
    {
        match self {
            Ast::Alt(..) => true,
            _ => false,
        }
    }

    /// Borrow the payload if this node is an alternation.
    pub fn as_alt(&self) -> (r: Option<&Alt>)
        ensures
            match r {
                Some(alt) => *self is Alt && *alt == self->Alt_0,
                None => !(*self is Alt),
            },
    {
        match self {
            Ast::Alt(value) => Some(value),
            _ => None,
        }
    }

    /// Mutably borrow the payload if this node is an alternation.
    pub fn as_alt_mut(&mut self) -> (r: Option<&mut Alt>)
        ensures
            match r {
                Some(alt) => *old(self) is Alt && *alt == old(self)->Alt_0 && *final(self)
                    == Ast::Alt(*final(alt)),
                None => !(*old(self) is Alt) && *final(self) == *old(self),
            },
    {
        match self {
            Ast::Alt(value) => Some(value),
            _ => None,
        }
    }

    /// If this node is an alternation, take the payload out and leave
    /// `Empty` behind; otherwise return nothing and leave the node unchanged.
    pub fn take_alt(&mut self) -> (r: Option<Alt>)
        ensures
            match r {
                Some(alt) => *old(self) is Alt && alt == old(self)->Alt_0 && *final(self)
                    == Ast::Empty,
                None => !(*old(self) is Alt) && *final(self) == *old(self),
            },
    {
        match self {
            Ast::Alt(..) => {}
            _ => {
                return None;
            }
        }
        let mut taken = Ast::Empty;
        core::mem::swap(self, &mut taken);
        match taken {
            Ast::Alt(value) => Some(value),
            _ => None,
        }
    }

    /// Whether this node is a concatenation.
    pub fn is_concat(&self) -> (r: bool)
        ensures
            r == (self is Concat),
    {
        match self {
            Ast::Concat(..) => true,
            _ => false,
        }
    }

    /// Borrow the payload if this node is a concatenation.
    pub fn as_concat(&self) -> (r: Option<&Concat>)
        ensures
            match r {
                Some(concat) => *self is Concat && *concat == self->Concat_0,
                None => !(*self is Concat),
            },
    {
        match self {
            Ast::Concat(value) => Some(value),
            _ => None,
        }
    }

    /// Mutably borrow the payload if this node is a concatenation.
    pub fn as_concat_mut(&mut self) -> (r: Option<&mut Concat>)
        ensures
            match r {
                Some(concat) => *old(self) is Concat && *concat == old(self)->Concat_0 && *final(self) == Ast::Concat(*final(concat)),
                None => !(*old(self) is Concat) && *final(self) == *old(self),
            },
    {
        match self {
            Ast::Concat(value) => Some(value),
            _ => None,
        }
    }

    /// If this node is a concatenation, take the payload out and leave
    /// `Empty` behind; otherwise return nothing and leave the node unchanged.
    pub fn take_concat(&mut self) -> (r: Option<Concat>)
        ensures
            match r {
                Some(concat) => *old(self) is Concat && concat == old(self)->Concat_0 && *final(self) == Ast::Empty,
                None => !(*old(self) is Concat) && *final(self) == *old(self),
            },
    {
        match self {
            Ast::Concat(..) => {}
            _ => {
                return None;
            }
        }
        let mut taken = Ast::Empty;
        core::mem::swap(self, &mut taken);
        match taken {
            Ast::Concat(value) => Some(value),
            _ => None,
        }
    }

    /// Whether this node is a group.
    pub fn is_group(&self) -> (r: bool)
        ensures
            r == (self is Group),
    {
        match self {
            Ast::Group(..) => true,
            _ => false,
        }
    }

    /// Borrow the payload if this node is a group.
    pub fn as_group(&self) -> (r: Option<&Group>)
        ensures
            match r {
                Some(group) => *self is Group && *group == self->Group_0,
                None => !(*self is Group),
            },
    {
        match self {
            Ast::Group(value) => Some(value),
            _ => None,
        }
    }

    /// Mutably borrow the payload if this node is a group.
    pub fn as_group_mut(&mut self) -> (r: Option<&mut Group>)
        ensures
            match r {
                Some(group) => *old(self) is Group && *group == old(self)->Group_0 && *final(self)
                    == Ast::Group(*final(group)),
                None => !(*old(self) is Group) && *final(self) == *old(self),
            },
    {
        match self {
            Ast::Group(value) => Some(value),
            _ => None,
        }
    }

    /// If this node is a group, take the payload out and leave `Empty`
    /// behind; otherwise return nothing and leave the node unchanged.
    pub fn take_group(&mut self) -> (r: Option<Group>)
        ensures
            match r {
                Some(group) => *old(self) is Group && group == old(self)->Group_0 && *final(self)
                    == Ast::Empty,
                None => !(*old(self) is Group) && *final(self) == *old(self),
            },
    {
        match self {
            Ast::Group(..) => {}
            _ => {
                return None;
            }
        }
        let mut taken = Ast::Empty;
        core::mem::swap(self, &mut taken);
        match taken {
            Ast::Group(value) => Some(value),
            _ => None,
        }
    }

    /// Whether this node is a repetition.
    pub fn is_repeat(&self) -> (r: bool)
        ensures
            r == (self is Repeat),
    {
        match self {
            Ast::Repeat(..) => true,
            _ => false,
        }
    }

    /// Borrow the payload if this node is a repetition.
    pub fn as_repeat(&self) -> (r: Option<&Repeat>)
        ensures
            match r {
                Some(repeat) => *self is Repeat && *repeat == self->Repeat_0,
                None => !(*self is Repeat),
            },
    {
        match self {
            Ast::Repeat(value) => Some(value),
            _ => None,
        }
    }

    /// Mutably borrow the payload if this node is a repetition.
    pub fn as_repeat_mut(&mut self) -> (r: Option<&mut Repeat>)
        ensures
            match r {
                Some(repeat) => *old(self) is Repeat && *repeat == old(self)->Repeat_0 && *final(self) == Ast::Repeat(*final(repeat)),
                None => !(*old(self) is Repeat) && *final(self) == *old(self),
            },
    {
        match self {
            Ast::Repeat(value) => Some(value),
            _ => None,
        }
    }

    /// If this node is a repetition, take the payload out and leave `Empty`
    /// behind; otherwise return nothing and leave the node unchanged.
    pub fn take_repeat(&mut self) -> (r: Option<Repeat>)
        ensures
            match r {
                Some(repeat) => *old(self) is Repeat && repeat == old(self)->Repeat_0 && *final(self) == Ast::Empty,
                None => !(*old(self) is Repeat) && *final(self) == *old(self),
            },
    {
        match self {
            Ast::Repeat(..) => {}
            _ => {
                return None;
            }
        }
        let mut taken = Ast::Empty;
        core::mem::swap(self, &mut taken);
        match taken {
            Ast::Repeat(value) => Some(value),
            _ => None,
        }
    }
}


/// Structural equality of two byte sequences.
fn bytes_eq(x: &NonEmpty<u8>, y: &NonEmpty<u8>) -> (r: bool)
    ensures
        r == (x@ == y@),
{
    let n = x.len();
    if n != y.len() {
        return false;
    }
    let xs = x.as_slice();
    let ys = y.as_slice();
    let mut i: usize = 0;
    while i < n
        invariant
            n == x@.len(),
            n == y@.len(),
            xs@ == x@,
            ys@ == y@,
            i <= n,
            forall|k: int| #![trigger x@[k]] 0 <= k < i ==> x@[k] == y@[k],
        decreases n - i,
    {
        if xs[i] != ys[i] {
            return false;
        }
        i = i + 1;
    }
    proof {
        assert(x@ =~= y@);
    }
    true
}

/// Structural equality of two range sequences.
fn ranges_eq(x: &NonEmpty<ByteRange>, y: &NonEmpty<ByteRange>) -> (r: bool)
    ensures
        r == (x@ == y@),
{
    let n = x.len();
    if n != y.len() {
        return false;
    }
    let xs = x.as_slice();
    let ys = y.as_slice();
    let mut i: usize = 0;
    while i < n
        invariant
            n == x@.len(),
            n == y@.len(),
            xs@ == x@,
            ys@ == y@,
            i <= n,
            forall|k: int| #![trigger x@[k]] 0 <= k < i ==> x@[k] == y@[k],
        decreases n - i,
    {
        if xs[i] != ys[i] {
            return false;
        }
        i = i + 1;
    }
    proof {
        assert(x@ =~= y@);
    }
    true
}

/// Structural equality of two child sequences, element by element.
fn trees_eq(x: &NonEmpty<Ast>, y: &NonEmpty<Ast>) -> (r: bool)
    ensures
        r == (views_of(x@) == views_of(y@)),
    decreases x,
{
    proof {
        lemma_views_of(x@);
        lemma_views_of(y@);
    }
    let n = x.len();
    if n != y.len() {
        proof {
            assert(views_of(x@).len() != views_of(y@).len());
        }
        return false;
    }
    let mut i: usize = 0;
    while i < n
        invariant
            n == x@.len(),
            n == y@.len(),
            i <= n,
            forall|k: int| #![trigger x@[k]] 0 <= k < i ==> x@[k]@ == y@[k]@,
        decreases n - i,
    {
        let a = &x.inner[i];
        let b = &y.inner[i];
        proof {
            assert(decreases_to!(x => *a));
        }
        if !tree_eq(a, b) {
            proof {
                lemma_views_of(x@);
                lemma_views_of(y@);
                assert(views_of(x@)[i as int] != views_of(y@)[i as int]);
            }
            return false;
        }
        i = i + 1;
    }
    proof {
        assert(views_of(x@) =~= views_of(y@));
    }
    true
}

/// Structural equality of two trees: equal exactly when their views are.
fn tree_eq(a: &Ast, b: &Ast) -> (r: bool)
    ensures
        r == (a@ == b@),
    decreases a,
{
    match (a, b) {
        (Ast::Empty, Ast::Empty) => true,
        (Ast::Dot, Ast::Dot) => true,
        (Ast::Lit(x), Ast::Lit(y)) => bytes_eq(&x.bytes, &y.bytes),
        (Ast::Class(x), Ast::Class(y)) => ranges_eq(&x.ranges, &y.ranges),
        (Ast::Alt(x), Ast::Alt(y)) => trees_eq(&x.children, &y.children),
        (Ast::Concat(x), Ast::Concat(y)) => trees_eq(&x.children, &y.children),
        (Ast::Group(x), Ast::Group(y)) => trees_eq(&x.child, &y.child),
        (Ast::Repeat(x), Ast::Repeat(y)) => x.kind == y.kind && trees_eq(&x.child, &y.child),
        _ => false,
    }
}

impl PartialEq for Ast {
    /// Structural equality, decided recursively over the whole tree.
    fn eq(&self, other: &Self) -> (r: bool) {
        tree_eq(self, other)
    }
}

impl vstd::std_specs::cmp::PartialEqSpecImpl for Ast {
    open spec fn obeys_eq_spec() -> bool {
        true
    }

    open spec fn eq_spec(&self, other: &Self) -> bool {
        self@ == other@
    }
}

impl Eq for Ast {

}

/// Deep-copy a child sequence, preserving order and every subtree's shape.
pub(crate) fn clone_children(children: &NonEmpty<Ast>) -> (r: NonEmpty<Ast>)
    ensures
        r@.len() == children@.len(),
        views_of(r@) == views_of(children@),
    decreases children,
{
    let n = children.len();
    let mut out: Vec<Ast> = Vec::new();
    let mut i: usize = 0;
    while i < n
        invariant
            n == children@.len(),
            i <= n,
            out@.len() == i,
            forall|k: int| #![trigger out@[k]] 0 <= k < i ==> out@[k]@ == children@[k]@,
        decreases n - i,
    {
        let child = &children.inner[i];
        proof {
            assert(decreases_to!(children => *child));
        }
        out.push(child.clone_into());
        i = i + 1;
    }
    proof {
        lemma_views_of(out@);
        lemma_views_of(children@);
        assert(views_of(out@) =~= views_of(children@));
    }
    NonEmpty { inner: out }
}

/// Canonicalize a tree handed over by value; the workhorse behind
/// [`Ast::normalize`].
pub(crate) fn normalize_owned(ast: Ast) -> (r: Ast)
    ensures
        r@ == normalize_view(ast@),
    decreases ast, 1int,
{
    let ghost whole = ast;
    match ast {
        Ast::Empty => Ast::Empty,
        Ast::Dot => Ast::Dot,
        Ast::Lit(lit) => Ast::Lit(lit),
        Ast::Class(class) => {
            let ranges = class::sort_ranges_vec(class.ranges.into_vec());
            Ast::Class(Class { ranges: NonEmpty { inner: ranges } })
        },
        Ast::Alt(alt) => {
            let ghost kids = alt.children@;
            proof { lemma_views_of(kids); }
            let mut children = alt.children.into_vec();
            if children.len() == 1 {
                let only = children.pop().unwrap();
                proof {
                    assert(decreases_to!(whole => only));
                    lemma_views_of(kids);
                }
                normalize_owned(only)
            } else {
                let normalized = normalize_children(children, Ghost(whole));
                Ast::Alt(Alt { children: NonEmpty { inner: normalized } })
            }
        },
        Ast::Concat(concat) => {
            let ghost kids = concat.children@;
            proof { lemma_views_of(kids); }
            let mut children = concat.children.into_vec();
            if children.len() == 1 {
                let only = children.pop().unwrap();
                proof {
                    assert(decreases_to!(whole => only));
                    lemma_views_of(kids);
                }
                normalize_owned(only)
            } else {
                let normalized = normalize_children(children, Ghost(whole));
                Ast::Concat(Concat { children: NonEmpty { inner: normalized } })
            }
        },
        Ast::Group(group) => {
            let normalized = normalize_children(group.child.into_vec(), Ghost(whole));
            Ast::Group(Group { child: NonEmpty { inner: normalized } })
        },
        Ast::Repeat(repeat) => {
            let ghost kids = repeat.child@;
            proof { lemma_views_of(kids); }
            let kind = repeat.kind.normalize();
            let mut children = repeat.child.into_vec();
            match kind {
                RepeatKind::Exact(0) => Ast::Empty,
                RepeatKind::Exact(1) if children.len() == 1 => {
                    let only = children.pop().unwrap();
                    proof {
                        assert(decreases_to!(whole => only));
                        lemma_views_of(kids);
                    }
                    normalize_owned(only)
                },
                _ => {
                    let normalized = normalize_children(children, Ghost(whole));
                    Ast::Repeat(Repeat { kind, child: NonEmpty { inner: normalized } })
                },
            }
        },
    }
}

/// Canonicalize every tree of a child sequence, in order.  The `parent`
/// ghost argument ties the sequence to the node it was taken from, so that
/// the recursion into [`normalize_owned`] is seen to shrink the tree.
fn normalize_children(children: Vec<Ast>, parent: Ghost<Ast>) -> (r: Vec<Ast>)
    requires
        decreases_to!(parent@ => children@),
    ensures
        r@.len() == children@.len(),
        views_of(r@) == norm::normalize_seq(views_of(children@)),
    decreases parent@, 0int,
{
    let ghost orig = children@;
    let mut rest = children;
    let mut out: Vec<Ast> = Vec::new();
    while rest.len() > 0
        invariant
            decreases_to!(parent@ => orig),
            rest@ =~= orig.subrange(0, rest@.len() as int),
            out@.len() + rest@.len() == orig.len(),
            forall|k: int| #![trigger out@[k]]
                0 <= k < out@.len() ==> out@[k]@ == normalize_view(
                    orig[orig.len() - 1 - k]@,
                ),
        decreases rest@.len(),
    {
        let next = rest.pop().unwrap();
        proof {
            assert(next == orig[rest@.len() as int]);
            assert(decreases_to!(orig => next));
        }
        let normalized = normalize_owned(next);
        out.push(normalized);
    }
    let mut r: Vec<Ast> = Vec::new();
    while out.len() > 0
        invariant
            out@.len() + r@.len() == orig.len(),
            forall|k: int| #![trigger out@[k]]
                0 <= k < out@.len() ==> out@[k]@ == normalize_view(
                    orig[orig.len() - 1 - k]@,
                ),
            forall|k: int| #![trigger r@[k]]
                0 <= k < r@.len() ==> r@[k]@ == normalize_view(orig[k]@),
        decreases out@.len(),
    {
        let next = out.pop().unwrap();
        r.push(next);
    }
    proof {
        lemma_views_of(r@);
        lemma_views_of(orig);
        norm::lemma_normalize_seq_index(views_of(orig));
        assert(views_of(r@) =~= norm::normalize_seq(views_of(orig)));
    }
    r
}

} // verus!
