use neap::syntax::span::{Span, Spanned};

#[test]
fn span_new() {
    let span = Span::new(10, 20);
    assert_eq!(span.start, 10);
    assert_eq!(span.end, 20);
    assert_eq!(span.len(), 10);
    assert!(!span.is_empty());
}

#[test]
fn span_empty() {
    let span = Span::empty(5);
    assert_eq!(span.start, 5);
    assert_eq!(span.end, 5);
    assert_eq!(span.len(), 0);
    assert!(span.is_empty());
}

#[test]
fn span_single() {
    let span = Span::single(7);
    assert_eq!(span.start, 7);
    assert_eq!(span.end, 8);
    assert_eq!(span.len(), 1);
}

#[test]
fn span_merge() {
    let a = Span::new(5, 10);
    let b = Span::new(8, 15);
    let merged = a.merge(b);
    assert_eq!(merged.start, 5);
    assert_eq!(merged.end, 15);
}

#[test]
fn span_merge_disjoint() {
    let a = Span::new(0, 5);
    let b = Span::new(10, 15);
    let merged = a.merge(b);
    assert_eq!(merged.start, 0);
    assert_eq!(merged.end, 15);
}

#[test]
fn span_extend() {
    let mut span = Span::new(5, 10);
    span.extend(Span::new(3, 12));
    assert_eq!(span.start, 3);
    assert_eq!(span.end, 12);
}

#[test]
fn span_contains() {
    let span = Span::new(5, 10);
    assert!(!span.contains(4));
    assert!(span.contains(5));
    assert!(span.contains(7));
    assert!(span.contains(9));
    assert!(!span.contains(10));
}

#[test]
fn span_overlaps() {
    let a = Span::new(5, 10);
    let b = Span::new(8, 15);
    let c = Span::new(10, 15);
    let d = Span::new(0, 5);

    assert!(a.overlaps(&b));
    assert!(b.overlaps(&a));
    assert!(!a.overlaps(&c)); // Adjacent but not overlapping
    assert!(!a.overlaps(&d)); // Adjacent but not overlapping
}

#[test]
fn spanned_new() {
    let spanned = Spanned::new(42, Span::new(0, 2));
    assert_eq!(spanned.value, 42);
    assert_eq!(spanned.span, Span::new(0, 2));
}

#[test]
fn spanned_map() {
    let spanned = Spanned::new(42, Span::new(0, 2));
    let doubled = spanned.map(|x| x * 2);
    assert_eq!(doubled.value, 84);
    assert_eq!(doubled.span, Span::new(0, 2));
}

#[test]
fn spanned_into_inner() {
    let spanned = Spanned::new("hello", Span::new(0, 5));
    assert_eq!(spanned.into_inner(), "hello");
}

// ----- further cases -----

#[test]
fn span_dummy_and_default_are_empty_at_zero() {
    let d = Span::dummy();
    assert_eq!(d, Span::new(0, 0));
    assert!(d.is_empty());
    assert_eq!(Span::default(), Span::new(0, 0));
}

#[test]
fn span_merge_covers_both_operands() {
    let a = Span::new(3, 4);
    let b = Span::new(20, 30);
    let m = a.merge(b);
    for i in 3..4 {
        assert!(m.contains(i));
    }
    for i in 20..30 {
        assert!(m.contains(i));
    }
    assert_eq!(m, b.merge(a));
}

#[test]
fn span_overlap_is_symmetric_on_examples() {
    let spans = [Span::new(0, 3), Span::new(2, 6), Span::new(6, 9), Span::new(1, 2)];
    for a in spans.iter() {
        for b in spans.iter() {
            assert_eq!(a.overlaps(b), b.overlaps(a));
        }
    }
}

#[test]
fn spanned_as_ref_keeps_span() {
    let spanned = Spanned::new(String::from("x"), Span::new(4, 5));
    let r = spanned.as_ref();
    assert_eq!(r.value.as_str(), "x");
    assert_eq!(r.span, Span::new(4, 5));
}
