use tensor_env::env::Environment;
use tensor_env::env::NamedValue;
use tensor_env::row::EnvironmentRow;
use tensor_env::row::RowEdit;
use tensor_env::session::PresetExample;
use tensor_env::session::Session;
use tensor_env::tensor::generate;
use tensor_env::tensor::FillStrategy;

fn named(name: &str, dims: Vec<usize>, fill: FillStrategy) -> NamedValue {
    NamedValue {
        name: name.to_string(),
        value: generate(&dims, fill),
    }
}

fn tensor_preset() -> PresetExample {
    let mut environment = Environment::new();
    environment.insert(named("t", vec![2, 3], FillStrategy::Random));
    PresetExample {
        name: "A single tensor".to_string(),
        description: "Tensors are defined simply by their shape.".to_string(),
        source_text: "t".to_string(),
        environment,
    }
}

#[test]
fn fresh_session_shows_empty_user_source() {
    let s = Session::new(vec![tensor_preset()]);
    assert_eq!(s.displayed_source_text(), "");
    assert!(s.aggregator.env.get("t").is_none());
}

#[test]
fn selecting_a_preset_loads_its_source_and_environment() {
    let mut s = Session::new(vec![tensor_preset()]);
    let editor = s.displayed_source_text();
    s.select_example(0, editor);
    assert_eq!(s.displayed_source_text(), "t");
    assert!(s.aggregator.env.get("t").is_some());
}

#[test]
fn select_then_deselect_restores_user_state() {
    // The user contributes "u" and types nothing; selecting preset 0 and
    // deselecting restores exactly the source text and environment from
    // immediately before the selection.
    let mut s = Session::new(vec![tensor_preset()]);
    let u = named("u", vec![2], FillStrategy::Ones);
    let u_elems = u.value.elems.clone();
    s.update_environment_value(u);
    let before_source = s.displayed_source_text();
    let before_len = s.aggregator.env.len();

    s.select_example(0, s.displayed_source_text());
    assert_eq!(s.displayed_source_text(), "t");
    s.deselect_example();

    assert_eq!(s.displayed_source_text(), before_source);
    assert_eq!(s.aggregator.env.len(), before_len);
    let restored = s.aggregator.env.get("u").expect("user entry survives");
    assert_eq!(restored.elems, u_elems);
    assert!(s.aggregator.env.get("t").is_none());
}

#[test]
fn row_updates_reach_both_environments() {
    let mut s = Session::new(vec![]);
    s.update_environment_value(named("a", vec![1], FillStrategy::Zeros));
    assert!(s.aggregator.env.get("a").is_some());
    assert!(s.user_env.get("a").is_some());
}

#[test]
fn row_edits_feed_the_session_when_valid() {
    let mut s = Session::new(vec![]);
    let mut row = EnvironmentRow::new();
    s.handle_row_edit(&mut row, RowEdit::Name("v".to_string()));
    assert!(s.aggregator.env.get("v").is_none());
    s.handle_row_edit(&mut row, RowEdit::ShapeText("(3)".to_string()));
    assert!(s.aggregator.env.get("v").is_none());
    s.handle_row_edit(&mut row, RowEdit::Fill(FillStrategy::Ones));
    let v = s.aggregator.env.get("v").expect("row became valid");
    assert_eq!(v.dims, vec![3]);
}

#[test]
fn invalid_row_edit_leaves_prior_contribution_in_place() {
    // There is no retraction signal: a row that becomes invalid after
    // contributing leaves its previous value in the environment.
    let mut s = Session::new(vec![]);
    let mut row = EnvironmentRow::new();
    s.handle_row_edit(&mut row, RowEdit::Name("v".to_string()));
    s.handle_row_edit(&mut row, RowEdit::Fill(FillStrategy::Ones));
    s.handle_row_edit(&mut row, RowEdit::ShapeText("(3)".to_string()));
    assert!(s.aggregator.env.get("v").is_some());
    s.handle_row_edit(&mut row, RowEdit::ShapeText("(3".to_string()));
    assert!(s.aggregator.env.get("v").is_some());
}
