use pattern_ast::util::slice::NonEmpty;

#[test]
fn try_new_rejects_empty_input_unchanged() {
    let empty: Vec<u8> = Vec::new();
    match NonEmpty::try_new(empty) {
        Ok(_) => panic!("an empty vector must be rejected"),
        Err(rejected) => assert_eq!(rejected, Vec::<u8>::new()),
    }
}

#[test]
fn try_new_wraps_nonempty_input_in_order() {
    let wrapped = NonEmpty::try_new(vec![10, 20, 30]).expect("three elements");
    assert_eq!(wrapped.as_slice(), &[10, 20, 30]);
    assert_eq!(wrapped.len(), 3);
}

#[test]
fn new_and_new_unchecked_keep_elements() {
    let a = NonEmpty::new(vec![1, 2]);
    let b = NonEmpty::new_unchecked(vec![1, 2]);
    assert_eq!(a, b);
    assert_eq!(a.into_vec(), vec![1, 2]);
}

#[test]
fn from_value_wraps_one_element() {
    let one = NonEmpty::from_value(99u8);
    assert_eq!(one.len(), 1);
    assert_eq!(*one.first(), 99);
    assert_eq!(*one.last(), 99);
}

#[test]
fn first_and_last_accessors() {
    let s = NonEmpty::new(vec![5, 6, 7]);
    assert_eq!(*s.first(), 5);
    assert_eq!(*s.last(), 7);

    let (head, rest) = s.split_first();
    assert_eq!(*head, 5);
    assert_eq!(rest, &[6, 7]);

    let (tail, front) = s.split_last();
    assert_eq!(*tail, 7);
    assert_eq!(front, &[5, 6]);
}

#[test]
fn split_on_singleton_leaves_empty_rest() {
    let s = NonEmpty::new(vec![4]);
    let (head, rest) = s.split_first();
    assert_eq!(*head, 4);
    assert!(rest.is_empty());
    let (tail, front) = s.split_last();
    assert_eq!(*tail, 4);
    assert!(front.is_empty());
}

#[test]
fn mutable_accessors_write_through() {
    let mut s = NonEmpty::new(vec![1, 2, 3]);
    *s.first_mut() = 10;
    *s.last_mut() = 30;
    assert_eq!(s.as_slice(), &[10, 2, 30]);

    s.as_slice_mut()[1] = 20;
    assert_eq!(s.as_slice(), &[10, 20, 30]);
}

#[test]
fn split_mut_accessors_write_through() {
    let mut s = NonEmpty::new(vec![1, 2, 3]);
    {
        let (first, rest) = s.split_first_mut();
        *first = 9;
        rest[0] = 8;
    }
    assert_eq!(s.as_slice(), &[9, 8, 3]);
    {
        let (last, front) = s.split_last_mut();
        *last = 7;
        front[0] = 6;
    }
    assert_eq!(s.as_slice(), &[6, 8, 7]);
}
