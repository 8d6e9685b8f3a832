use tensor_env::shape::parse_shape;
use tensor_env::shape::render_joined;
use tensor_env::shape::render_shape;
use tensor_env::shape::usize_to_string;

#[test]
fn parses_simple_shape() {
    assert_eq!(parse_shape("(2,3)"), Some(vec![2, 3]));
}

#[test]
fn parses_empty_shape_as_scalar() {
    assert_eq!(parse_shape("()"), Some(vec![]));
}

#[test]
fn parses_single_dimension() {
    assert_eq!(parse_shape("(7)"), Some(vec![7]));
}

#[test]
fn parses_zero_dimension() {
    assert_eq!(parse_shape("(0)"), Some(vec![0]));
}

#[test]
fn parses_leading_zeros() {
    assert_eq!(parse_shape("(007,1)"), Some(vec![7, 1]));
}

#[test]
fn parses_leading_plus_sign() {
    assert_eq!(parse_shape("(+3)"), Some(vec![3]));
}

#[test]
fn parses_longer_shape() {
    assert_eq!(parse_shape("(3,32,32)"), Some(vec![3, 32, 32]));
}

#[test]
fn parses_largest_dimension() {
    assert_eq!(
        parse_shape("(18446744073709551615)"),
        Some(vec![usize::MAX])
    );
}

#[test]
fn rejects_dimension_beyond_platform_limit() {
    assert_eq!(parse_shape("(18446744073709551616)"), None);
}

#[test]
fn rejects_empty_text() {
    assert_eq!(parse_shape(""), None);
}

#[test]
fn rejects_missing_open_paren() {
    assert_eq!(parse_shape("2,3)"), None);
}

#[test]
fn rejects_missing_close_paren() {
    assert_eq!(parse_shape("(2,3"), None);
}

#[test]
fn rejects_single_paren() {
    assert_eq!(parse_shape("("), None);
}

#[test]
fn rejects_non_integer_field() {
    assert_eq!(parse_shape("(a)"), None);
}

#[test]
fn rejects_inner_whitespace() {
    assert_eq!(parse_shape("(2, 3)"), None);
}

#[test]
fn rejects_trailing_comma() {
    assert_eq!(parse_shape("(2,)"), None);
}

#[test]
fn rejects_lone_comma() {
    assert_eq!(parse_shape("(,)"), None);
}

#[test]
fn rejects_negative_field() {
    assert_eq!(parse_shape("(-1)"), None);
}

#[test]
fn rejects_lone_plus() {
    assert_eq!(parse_shape("(+)"), None);
}

#[test]
fn renders_shape_canonically() {
    assert_eq!(render_shape(&vec![2, 3]), "(2,3)");
    assert_eq!(render_shape(&vec![]), "()");
    assert_eq!(render_shape(&vec![10]), "(10)");
}

#[test]
fn render_then_parse_round_trips() {
    for dims in [vec![], vec![0], vec![1, 2, 3], vec![usize::MAX, 7]] {
        let text = render_shape(&dims);
        assert_eq!(parse_shape(&text), Some(dims));
    }
}

#[test]
fn writes_decimal_numbers() {
    assert_eq!(usize_to_string(0), "0");
    assert_eq!(usize_to_string(9), "9");
    assert_eq!(usize_to_string(10), "10");
    assert_eq!(usize_to_string(1234), "1234");
    assert_eq!(usize_to_string(usize::MAX), "18446744073709551615");
}

#[test]
fn joins_dimensions_with_separator() {
    assert_eq!(render_joined(&vec![2, 3], ", "), "2, 3");
    assert_eq!(render_joined(&vec![], ", "), "");
    assert_eq!(render_joined(&vec![5], ","), "5");
}
