use tensor_env::fmt::format_result;
use tensor_env::fmt::RunResult;

#[test]
fn formats_tensor_results() {
    let r = RunResult::Tensor { dims: vec![2, 3] };
    assert_eq!(format_result(&r), "tensor with shape:\n(2, 3)\nand value:\n");
}

#[test]
fn formats_scalar_tensor_results() {
    let r = RunResult::Tensor { dims: vec![] };
    assert_eq!(format_result(&r), "tensor with shape:\n()\nand value:\n");
}

#[test]
fn formats_access_pattern_results() {
    let r = RunResult::Access {
        dims: vec![2, 3],
        axis: 1,
    };
    assert_eq!(
        format_result(&r),
        "access pattern with shape:\n((2), (3))\nand value:\n"
    );
}

#[test]
fn formats_access_at_axis_zero() {
    let r = RunResult::Access {
        dims: vec![2, 3],
        axis: 0,
    };
    assert_eq!(
        format_result(&r),
        "access pattern with shape:\n((), (2, 3))\nand value:\n"
    );
}

#[test]
fn formats_access_shape_literals() {
    let r = RunResult::AccessShape {
        dims: vec![1, 3, 3, 3],
        axis: 2,
    };
    assert_eq!(
        format_result(&r),
        "access pattern shape literal with value:\n((1, 3), (3, 3))"
    );
}

#[test]
fn names_unsupported_result_kinds() {
    assert_eq!(
        format_result(&RunResult::Num { value: 4 }),
        "unsupported result kind: number"
    );
    assert_eq!(
        format_result(&RunResult::Shape { dims: vec![2] }),
        "unsupported result kind: shape"
    );
    assert_eq!(
        format_result(&RunResult::ComputeType),
        "unsupported result kind: compute type"
    );
    assert_eq!(
        format_result(&RunResult::PadType),
        "unsupported result kind: pad type"
    );
    assert_eq!(
        format_result(&RunResult::List),
        "unsupported result kind: list"
    );
}
