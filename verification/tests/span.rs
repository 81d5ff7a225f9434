use frontend::common::span::{AddSpan, IntoSpan, Span, Spanned};

#[test]
fn compose_takes_min_start_and_max_end() {
    let a = Span::new(0, 4, 9);
    let b = Span::new(0, 2, 6);
    assert_eq!(a.compose(b), Span::new(0, 2, 9));
    assert_eq!(b.compose(a), Span::new(0, 2, 9));
}

#[test]
fn range_is_start_to_end() {
    assert_eq!(Span::new(3, 5, 8).range(), 5..8);
}

#[test]
fn add_span_wraps_the_value() {
    let s: Spanned<u8> = 7u8.add_span(Span::new(1, 0, 1));
    assert_eq!(s.value, 7);
    assert_eq!(s.span(), Span::new(1, 0, 1));
}

#[test]
fn map_keeps_the_span() {
    let s = Spanned::new(2u32, Span::new(0, 1, 2));
    let t = s.map(|x| x + 1);
    assert_eq!(t, Spanned::new(3u32, Span::new(0, 1, 2)));
    let u = t.map_ref(|x| *x * 2);
    assert_eq!(u.value, 6);
    assert_eq!(u.span, Span::new(0, 1, 2));
}
