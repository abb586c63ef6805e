use illium::theme_picker::{label, Action, Model, Outcome};

fn model() -> Model {
    Model::new(["catppuccin-latte", "nord", "tokyo-night"].map(String::from).to_vec(), "nord")
}

#[test]
fn labels_and_substrings_not_fuzzy() {
    assert_eq!(label("tokyo--night_test"), "Tokyo Night Test");
    let mut m = model();
    m.action(Action::Text("TOKYO N".into()));
    assert_eq!(m.current_label(), "Tokyo Night");
    m.action(Action::Clear);
    m.action(Action::Text("tn".into()));
    assert_eq!(m.current_label(), "No matches");
    assert_eq!(m.action(Action::Confirm), Outcome::Cancel);
}

#[test]
fn wraps_selection_and_separates_browse_from_apply() {
    let mut m = model();
    assert_eq!(m.action(Action::Next), Outcome::Nothing);
    assert_eq!(m.selected(), Some(2));
    m.action(Action::Next);
    assert_eq!(m.selected(), Some(0));
    m.action(Action::Previous);
    assert_eq!(m.selected(), Some(2));
    assert_eq!(m.action(Action::Click(1)), Outcome::Nothing);
    assert_eq!(m.action(Action::Click(1)), Outcome::Apply("nord".into()));
}

#[test]
fn escape_and_editing() {
    let mut m = model();
    m.action(Action::Text("tokyo night  ".into()));
    m.action(Action::DeleteWord);
    assert_eq!(m.filter, "tokyo ");
    m.action(Action::Backspace);
    assert_eq!(m.filter, "tokyo");
    m.action(Action::Text("é".into()));
    m.action(Action::Backspace);
    assert_eq!(m.filter, "tokyo");
    assert_eq!(m.action(Action::Escape), Outcome::Nothing);
    assert_eq!(m.action(Action::Escape), Outcome::Cancel);
    assert_eq!(m.selected_id(), Some("tokyo-night"));
}

#[test]
fn keeps_matching_selection_and_survives_catalog_removal() {
    let mut m = model();
    m.action(Action::Text("o".into()));
    assert_eq!(m.selected_id(), Some("nord"));
    m.replace(vec!["tokyo-night".into()]);
    assert_eq!(m.selected_id(), Some("tokyo-night"));
    m.replace(vec![]);
    assert_eq!(m.selected(), None);
    assert_eq!(m.action(Action::Next), Outcome::Nothing);
    assert_eq!(m.action(Action::Confirm), Outcome::Cancel);
}

#[test]
fn browsing_never_applies() {
    let mut m = model();
    for action in [Action::Next, Action::Previous, Action::Text("o".into()), Action::Backspace, Action::DeleteWord, Action::Clear] {
        assert_eq!(m.action(action), Outcome::Nothing);
    }
    assert_eq!(m.action(Action::Confirm), Outcome::Apply("nord".into()));
}

#[test]
fn filters_skip_control_characters_and_match_labels() {
    let mut m = model();
    m.action(Action::Text("Tokyo\u{7} Night".into()));
    assert_eq!(m.filter, "Tokyo Night");
    assert_eq!(m.matches_indices(), vec![2]);
    assert_eq!(m.selected_id(), Some("tokyo-night"));
    assert!(m.matches(2));
    assert!(!m.matches(0));
    assert!(!m.matches(7));
}

#[test]
fn an_unknown_active_theme_starts_on_the_first() {
    let m = Model::new(vec!["a".into(), "b".into()], "zzz");
    assert_eq!(m.selected(), Some(0));
    assert_eq!(m.current_label(), "A");
}

#[test]
fn an_empty_filter_matches_every_theme() {
    let m = model();
    assert!(m.matches(0) && m.matches(1) && m.matches(2));
    assert!(!m.matches(3));
}
