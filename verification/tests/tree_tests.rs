use pattern_ast::util::slice::NonEmpty;
use pattern_ast::Alt;
use pattern_ast::Ast;
use pattern_ast::ByteRange;
use pattern_ast::Class;
use pattern_ast::Concat;
use pattern_ast::Group;
use pattern_ast::Lit;
use pattern_ast::Repeat;
use pattern_ast::RepeatKind;

fn lit(text: &str) -> Ast {
    Ast::Lit(Lit {
        bytes: NonEmpty::new(text.as_bytes().to_vec()),
    })
}

fn alt(children: Vec<Ast>) -> Ast {
    Ast::Alt(Alt {
        children: NonEmpty::new(children),
    })
}

fn concat(children: Vec<Ast>) -> Ast {
    Ast::Concat(Concat {
        children: NonEmpty::new(children),
    })
}

fn group(child: Ast) -> Ast {
    Ast::Group(Group {
        child: NonEmpty::new(vec![child]),
    })
}

fn repeat(kind: RepeatKind, child: Ast) -> Ast {
    Ast::Repeat(Repeat {
        kind,
        child: NonEmpty::new(vec![child]),
    })
}

fn class(ranges: Vec<(u8, u8)>) -> Ast {
    Ast::Class(Class {
        ranges: NonEmpty::new(
            ranges
                .into_iter()
                .map(|(start, end)| ByteRange { start, end })
                .collect(),
        ),
    })
}

#[test]
fn normalize_concat_with_singleton_alt() {
    let mut tree = concat(vec![lit("a"), alt(vec![lit("b")]), lit("c")]);
    tree.normalize();
    assert_eq!(tree, concat(vec![lit("a"), lit("b"), lit("c")]));
}

#[test]
fn normalize_folds_bounded_repeat() {
    let mut tree = repeat(RepeatKind::Bounded(2, 2), Ast::Dot);
    tree.normalize();
    assert_eq!(tree, repeat(RepeatKind::Exact(2), Ast::Dot));
}

#[test]
fn normalize_sorts_class_ranges() {
    let mut tree = class(vec![(5, 5), (1, 3)]);
    tree.normalize();
    assert_eq!(tree, class(vec![(1, 3), (5, 5)]));
}

#[test]
fn normalize_sort_is_stable_on_equal_starts() {
    let mut tree = class(vec![(7, 9), (2, 4), (7, 3), (2, 2)]);
    tree.normalize();
    assert_eq!(tree, class(vec![(2, 4), (2, 2), (7, 9), (7, 3)]));
}

#[test]
fn normalize_repeat_zero_becomes_empty() {
    let mut tree = repeat(RepeatKind::Exact(0), lit("abc"));
    tree.normalize();
    assert_eq!(tree, Ast::Empty);
}

#[test]
fn normalize_repeat_once_becomes_child() {
    let mut tree = repeat(RepeatKind::Exact(1), alt(vec![lit("x")]));
    let mut child = alt(vec![lit("x")]);
    child.normalize();
    tree.normalize();
    assert_eq!(tree, child);
    assert_eq!(tree, lit("x"));
}

#[test]
fn normalize_bounded_one_one_collapses_all_the_way() {
    let mut tree = repeat(RepeatKind::Bounded(1, 1), lit("y"));
    tree.normalize();
    assert_eq!(tree, lit("y"));
}

#[test]
fn normalize_singleton_alt_and_concat() {
    let mut one = alt(vec![lit("x")]);
    one.normalize();
    assert_eq!(one, lit("x"));

    let mut other = concat(vec![lit("x")]);
    other.normalize();
    assert_eq!(other, lit("x"));
}

#[test]
fn normalize_nested_singletons_collapse_fully() {
    let mut tree = alt(vec![concat(vec![alt(vec![lit("z")])])]);
    tree.normalize();
    assert_eq!(tree, lit("z"));
}

#[test]
fn normalize_keeps_group_wrapper() {
    let mut tree = group(alt(vec![lit("g")]));
    tree.normalize();
    assert_eq!(tree, group(lit("g")));
}

#[test]
fn normalize_is_idempotent_on_a_messy_tree() {
    let mut tree = concat(vec![
        alt(vec![repeat(RepeatKind::Bounded(3, 3), class(vec![(9, 9), (0, 1)]))]),
        repeat(RepeatKind::Exact(1), group(alt(vec![lit("k")]))),
        repeat(RepeatKind::Exact(0), Ast::Dot),
    ]);
    tree.normalize();
    let once = tree.clone_into();
    tree.normalize();
    assert_eq!(tree, once);
}

#[test]
fn normalize_leaves_invalid_bounded_kind_alone() {
    let mut tree = repeat(RepeatKind::Bounded(4, 2), Ast::Dot);
    tree.normalize();
    assert_eq!(tree, repeat(RepeatKind::Bounded(4, 2), Ast::Dot));
}

#[test]
fn per_variant_normalize_only_touches_its_variant() {
    let mut tree = alt(vec![lit("q")]);
    Class::normalize(&mut tree);
    assert_eq!(tree, alt(vec![lit("q")]));
    Alt::normalize(&mut tree);
    assert_eq!(tree, lit("q"));

    let mut other = class(vec![(8, 8), (2, 2)]);
    Repeat::normalize(&mut other);
    assert_eq!(other, class(vec![(8, 8), (2, 2)]));
    Class::normalize(&mut other);
    assert_eq!(other, class(vec![(2, 2), (8, 8)]));

    let mut third = concat(vec![lit("c")]);
    Group::normalize(&mut third);
    assert_eq!(third, concat(vec![lit("c")]));
    Concat::normalize(&mut third);
    assert_eq!(third, lit("c"));
}

#[test]
fn clone_into_is_structurally_equal() {
    let tree = concat(vec![
        lit("ab"),
        class(vec![(3, 7)]),
        group(repeat(RepeatKind::AtLeast(2), Ast::Dot)),
        alt(vec![Ast::Empty, Ast::Dot]),
    ]);
    let copy = tree.clone_into();
    assert_eq!(copy, tree);
}

#[test]
fn clone_into_copies_are_independent() {
    let tree = lit("ab");
    let mut copy = tree.clone_into();
    if let Ast::Lit(payload) = &mut copy {
        payload.bytes.inner[0] = b'z';
    }
    assert_eq!(tree, lit("ab"));
    assert_eq!(copy, lit("zb"));
}

#[test]
fn payload_clone_into_matches() {
    let source = Lit {
        bytes: NonEmpty::new(vec![1, 2, 3]),
    };
    assert_eq!(source.clone_into(), source);

    let ranges = Class {
        ranges: NonEmpty::new(vec![ByteRange { start: 1, end: 2 }]),
    };
    assert_eq!(ranges.clone_into(), ranges);
}

#[test]
fn take_on_matching_variant_leaves_empty() {
    let mut tree = lit("a");
    let taken = tree.take_lit().expect("variant matched");
    assert_eq!(taken.bytes.inner, b"a".to_vec());
    assert_eq!(tree, Ast::Empty);

    let mut tree = class(vec![(1, 2)]);
    assert!(tree.take_class().is_some());
    assert_eq!(tree, Ast::Empty);

    let mut tree = alt(vec![lit("a"), lit("b")]);
    assert!(tree.take_alt().is_some());
    assert_eq!(tree, Ast::Empty);

    let mut tree = concat(vec![lit("a"), lit("b")]);
    assert!(tree.take_concat().is_some());
    assert_eq!(tree, Ast::Empty);

    let mut tree = group(Ast::Dot);
    assert!(tree.take_group().is_some());
    assert_eq!(tree, Ast::Empty);

    let mut tree = repeat(RepeatKind::Exact(5), Ast::Dot);
    let taken = tree.take_repeat().expect("variant matched");
    assert_eq!(taken.kind, RepeatKind::Exact(5));
    assert_eq!(tree, Ast::Empty);
}

#[test]
fn take_on_other_variant_changes_nothing() {
    let mut tree = lit("a");
    assert!(tree.take_class().is_none());
    assert!(tree.take_alt().is_none());
    assert!(tree.take_concat().is_none());
    assert!(tree.take_group().is_none());
    assert!(tree.take_repeat().is_none());
    assert_eq!(tree, lit("a"));

    let mut dot = Ast::Dot;
    assert!(dot.take_lit().is_none());
    assert_eq!(dot, Ast::Dot);
}

#[test]
fn predicates_match_variants() {
    assert!(Ast::Empty.is_empty());
    assert!(!Ast::Empty.is_dot());
    assert!(Ast::Dot.is_dot());
    assert!(lit("a").is_lit());
    assert!(class(vec![(0, 255)]).is_class());
    assert!(alt(vec![Ast::Dot]).is_alt());
    assert!(concat(vec![Ast::Dot]).is_concat());
    assert!(group(Ast::Dot).is_group());
    assert!(repeat(RepeatKind::AtLeast(0), Ast::Dot).is_repeat());
    assert!(!lit("a").is_class());
    assert!(!Ast::Dot.is_empty());
}

#[test]
fn borrow_accessors_expose_payloads() {
    let tree = lit("ab");
    assert_eq!(tree.as_lit().expect("is a literal").bytes.inner, vec![b'a', b'b']);
    assert!(tree.as_class().is_none());

    let tree = repeat(RepeatKind::Exact(3), Ast::Dot);
    let payload = tree.as_repeat().expect("is a repetition");
    assert_eq!(payload.kind, RepeatKind::Exact(3));
    assert!(tree.as_alt().is_none());
    assert!(tree.as_group().is_none());
    assert!(tree.as_concat().is_none());
}

#[test]
fn mutable_accessors_update_in_place() {
    let mut tree = lit("ab");
    tree.as_lit_mut().expect("is a literal").bytes.inner[0] = b'c';
    assert_eq!(tree, lit("cb"));
    assert!(tree.as_class_mut().is_none());

    let mut tree = repeat(RepeatKind::Exact(3), Ast::Dot);
    tree.as_repeat_mut().expect("is a repetition").kind = RepeatKind::AtLeast(1);
    assert_eq!(tree, repeat(RepeatKind::AtLeast(1), Ast::Dot));

    let mut tree = class(vec![(1, 2)]);
    tree.as_class_mut().expect("is a class").ranges.inner[0].end = 9;
    assert_eq!(tree, class(vec![(1, 9)]));

    let mut tree = alt(vec![Ast::Dot, Ast::Empty]);
    tree.as_alt_mut().expect("is an alternation").children.inner[1] = lit("e");
    assert_eq!(tree, alt(vec![Ast::Dot, lit("e")]));

    let mut tree = concat(vec![Ast::Dot]);
    tree.as_concat_mut().expect("is a concatenation").children.inner[0] = lit("f");
    assert_eq!(tree, concat(vec![lit("f")]));

    let mut tree = group(Ast::Dot);
    tree.as_group_mut().expect("is a group").child.inner[0] = lit("g");
    assert_eq!(tree, group(lit("g")));
}

#[test]
fn children_of_leaves_and_composites() {
    assert!(Ast::Empty.children().is_none());
    assert!(Ast::Dot.children().is_none());
    assert!(lit("a").children().is_none());
    assert!(class(vec![(1, 2)]).children().is_none());

    let tree = alt(vec![lit("a"), lit("b")]);
    assert_eq!(tree.children().expect("has children").len(), 2);

    let tree = concat(vec![lit("a"), lit("b"), lit("c")]);
    assert_eq!(tree.children().expect("has children").len(), 3);

    let tree = group(lit("a"));
    let children = tree.children().expect("has one child");
    assert_eq!(children.len(), 1);
    assert_eq!(*children.first(), lit("a"));

    let tree = repeat(RepeatKind::Exact(2), Ast::Dot);
    let children = tree.children().expect("has one child");
    assert_eq!(children.len(), 1);
    assert_eq!(*children.first(), Ast::Dot);
}

#[test]
fn children_mut_reaches_every_composite() {
    let mut tree = group(Ast::Dot);
    *tree.children_mut().expect("has one child").first_mut() = lit("h");
    assert_eq!(tree, group(lit("h")));

    let mut tree = repeat(RepeatKind::Exact(2), Ast::Dot);
    *tree.children_mut().expect("has one child").first_mut() = lit("i");
    assert_eq!(tree, repeat(RepeatKind::Exact(2), lit("i")));

    let mut tree = alt(vec![Ast::Dot, Ast::Empty]);
    *tree.children_mut().expect("has children").last_mut() = lit("j");
    assert_eq!(tree, alt(vec![Ast::Dot, lit("j")]));

    let mut leaf = lit("k");
    assert!(leaf.children_mut().is_none());
    assert_eq!(leaf, lit("k"));
}

#[test]
fn repeat_kind_normalize_and_queries() {
    assert_eq!(RepeatKind::Bounded(3, 3).normalize(), RepeatKind::Exact(3));
    assert_eq!(RepeatKind::Bounded(2, 5).normalize(), RepeatKind::Bounded(2, 5));
    assert_eq!(RepeatKind::Exact(4).normalize(), RepeatKind::Exact(4));
    assert_eq!(RepeatKind::AtLeast(1).normalize(), RepeatKind::AtLeast(1));

    assert!(RepeatKind::Bounded(2, 5).is_valid());
    assert!(RepeatKind::Bounded(5, 5).is_valid());
    assert!(!RepeatKind::Bounded(6, 5).is_valid());
    assert!(RepeatKind::Exact(0).is_valid());
    assert!(RepeatKind::AtLeast(9).is_valid());

    assert_eq!(RepeatKind::Exact(7).start(), 7);
    assert_eq!(RepeatKind::AtLeast(2).start(), 2);
    assert_eq!(RepeatKind::Bounded(1, 4).start(), 1);

    assert_eq!(RepeatKind::Exact(7).end(), Some(7));
    assert_eq!(RepeatKind::AtLeast(2).end(), None);
    assert_eq!(RepeatKind::Bounded(1, 4).end(), Some(4));

    assert_eq!(RepeatKind::zero_or_one(), RepeatKind::Bounded(0, 1));
    assert_eq!(RepeatKind::zero_or_more(), RepeatKind::AtLeast(0));
    assert_eq!(RepeatKind::one_or_more(), RepeatKind::AtLeast(1));
}

#[test]
fn byte_range_iter_and_debug_text() {
    let range = ByteRange { start: 3, end: 6 };
    assert_eq!(range.iter(), vec![3, 4, 5, 6]);

    let inverted = ByteRange { start: 6, end: 3 };
    assert_eq!(inverted.iter(), Vec::<u8>::new());

    let single = ByteRange { start: 255, end: 255 };
    assert_eq!(single.iter(), vec![255]);

    let text: String = ByteRange { start: 5, end: 5 }.to_debug_chars().into_iter().collect();
    assert_eq!(text, "5..=5");
    let text: String = ByteRange { start: 0, end: 255 }.to_debug_chars().into_iter().collect();
    assert_eq!(text, "0..=255");
    let text: String = ByteRange { start: 42, end: 107 }.to_debug_chars().into_iter().collect();
    assert_eq!(text, "42..=107");

    assert_eq!(ByteRange::default(), ByteRange { start: 0, end: 0 });
}

#[test]
fn default_node_is_empty() {
    assert_eq!(Ast::default(), Ast::Empty);
}
