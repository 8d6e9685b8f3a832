use tensor_env::row::EnvironmentRow;
use tensor_env::row::RowEdit;
use tensor_env::tensor::FillStrategy;
use tensor_env::tensor::FIXED_ONE;

fn row(name: &str, shape_text: &str, fill: Option<FillStrategy>) -> EnvironmentRow {
    EnvironmentRow {
        name: name.to_string(),
        shape_text: shape_text.to_string(),
        fill_strategy: fill,
    }
}

#[test]
fn fresh_row_yields_nothing() {
    let r = EnvironmentRow::new();
    assert!(r.current_value().is_none());
}

#[test]
fn unset_strategy_yields_nothing_whatever_the_fields_hold() {
    for (name, text) in [("", ""), ("t", "(2,3)"), ("x", "not a shape")] {
        let r = row(name, text, None);
        assert!(r.current_value().is_none());
    }
}

#[test]
fn invalid_shape_text_yields_nothing() {
    for text in ["", "2,3", "(2,3", "2,3)", "(a,b)", "(2, 3)"] {
        let r = row("t", text, Some(FillStrategy::Zeros));
        assert!(r.current_value().is_none());
    }
}

#[test]
fn complete_row_yields_zeros_of_its_shape() {
    let r = row("t", "(2,3)", Some(FillStrategy::Zeros));
    let nv = r.current_value().expect("row is complete and valid");
    assert_eq!(nv.name, "t");
    assert_eq!(nv.value.dims, vec![2, 3]);
    assert_eq!(nv.value.elems, vec![0i64; 6]);
}

#[test]
fn complete_row_yields_ones_of_its_shape() {
    let r = row("w", "(4)", Some(FillStrategy::Ones));
    let nv = r.current_value().expect("row is complete and valid");
    assert_eq!(nv.name, "w");
    assert_eq!(nv.value.dims, vec![4]);
    assert_eq!(nv.value.elems, vec![FIXED_ONE; 4]);
}

#[test]
fn empty_name_still_contributes() {
    let r = row("", "()", Some(FillStrategy::Ones));
    let nv = r.current_value().expect("empty names are permitted");
    assert_eq!(nv.name, "");
    assert_eq!(nv.value.elems.len(), 1);
}

#[test]
fn edits_accumulate_until_the_row_derives() {
    let mut r = EnvironmentRow::new();
    assert!(r.apply_edit(RowEdit::Name("t".to_string())).is_none());
    assert!(r.apply_edit(RowEdit::ShapeText("(2,2)".to_string())).is_none());
    let nv = r
        .apply_edit(RowEdit::Fill(FillStrategy::Zeros))
        .expect("all three fields are now populated");
    assert_eq!(nv.name, "t");
    assert_eq!(nv.value.dims, vec![2, 2]);
}

#[test]
fn an_edit_to_invalid_text_stops_the_row_contributing() {
    let mut r = row("t", "(2,2)", Some(FillStrategy::Zeros));
    assert!(r.apply_edit(RowEdit::ShapeText("(2,".to_string())).is_none());
    assert!(r.current_value().is_none());
}
