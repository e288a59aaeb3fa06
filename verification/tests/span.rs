use bgrep::span::{find_span, span_begin, span_end, BEGINNING_NOT_FOUND, END_NOT_FOUND};

#[test]
fn span_begin_is_just_after_the_nearest_nul_before() {
    let buffer = [0, 65, 66, 0, 67, 0];
    assert_eq!(span_begin(&buffer, 0), None);
    assert_eq!(span_begin(&buffer, 1), Some(1));
    assert_eq!(span_begin(&buffer, 2), Some(1));
    assert_eq!(span_begin(&buffer, 3), Some(1));
    assert_eq!(span_begin(&buffer, 4), Some(4));
    assert_eq!(span_begin(&buffer, 6), Some(6));
    assert_eq!(span_begin(&[65, 66], 2), None);
}

#[test]
fn span_end_is_the_nearest_nul_from_the_offset() {
    let buffer = [0, 65, 66, 0, 67, 0];
    assert_eq!(span_end(&buffer, 0), Some(0));
    assert_eq!(span_end(&buffer, 1), Some(3));
    assert_eq!(span_end(&buffer, 3), Some(3));
    assert_eq!(span_end(&buffer, 4), Some(5));
    assert_eq!(span_end(&buffer, 6), None);
    assert_eq!(span_end(&buffer, 60), None);
    assert_eq!(span_end(&[65, 66], 0), None);
}

#[test]
fn find_span_gives_the_delimited_range() {
    let buffer = [0, 65, 66, 0, 67, 0];
    assert_eq!(find_span(&buffer, 1), Ok((1, 3)));
    assert_eq!(find_span(&buffer, 2), Ok((1, 3)));
    assert_eq!(find_span(&buffer, 3), Ok((1, 3)));
    assert_eq!(find_span(&buffer, 4), Ok((4, 5)));
    assert_eq!(find_span(&buffer, 5), Ok((4, 5)));
}

#[test]
fn find_span_fails_where_a_boundary_is_missing() {
    let buffer = [0, 65, 66, 0, 67, 0];
    assert_eq!(find_span(&buffer, 0), Err(BEGINNING_NOT_FOUND));
    assert_eq!(find_span(&buffer, 6), Err(END_NOT_FOUND));
    assert_eq!(find_span(&[65, 66, 67], 1), Err(BEGINNING_NOT_FOUND));
    assert_eq!(find_span(&[0, 65, 66, 67], 2), Err(END_NOT_FOUND));
    assert_eq!(find_span(&[65, 66, 67, 0], 2), Err(BEGINNING_NOT_FOUND));
}
