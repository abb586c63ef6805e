use illium::space_picker::{Action, Mode, Model, Outcome, Row, SpaceCommand};

fn rows() -> Vec<Row> {
    ["dev", "perso", "docs"]
        .iter()
        .enumerate()
        .map(|(i, name)| Row { name: (*name).into(), current: i == 0, apps: vec![] })
        .collect()
}

fn text(s: &str) -> Action {
    Action::Text(s.into())
}

#[test]
fn browsing_and_switching() {
    let mut m = Model::new(rows(), 1);
    assert_eq!(m.action(Action::Confirm), Outcome::Run(SpaceCommand::Switch("perso".into())));
    m.action(Action::Next);
    m.action(Action::Next);
    assert_eq!(m.selected, 0);
    assert_eq!(m.action(Action::Confirm), Outcome::Close);
    m.action(Action::Previous);
    assert_eq!(m.selected, 2);
    assert_eq!(m.action(text("x")), Outcome::Nothing);
    assert_eq!(m.action(Action::Escape), Outcome::Close);
    assert_eq!(Model::new(rows(), 9).selected, 2);
}

#[test]
fn creating_keeps_the_prompt_until_new_rows() {
    let mut m = Model::new(rows(), 0);
    m.action(text("N"));
    for s in ["w", "o r", "k"] {
        m.action(text(s));
    }
    m.action(Action::Backspace);
    m.action(text("x"));
    assert_eq!(m.action(Action::Confirm), Outcome::Run(SpaceCommand::Create("worx".into())));
    assert_eq!(m.mode, Mode::Create("worx".into()));
    m.action(Action::Escape);
    assert_eq!(m.mode, Mode::Browse);
}

#[test]
fn renaming_starts_from_the_selected_name() {
    let mut m = Model::new(rows(), 1);
    m.action(text("e"));
    assert_eq!(m.mode, Mode::Rename("perso".into()));
    m.action(text("2"));
    assert_eq!(
        m.action(Action::Confirm),
        Outcome::Run(SpaceCommand::Rename("perso".into(), "perso2".into()))
    );
    let mut renamed = rows();
    renamed[1].name = "perso2".into();
    m.set_rows(renamed);
    assert_eq!((m.mode.clone(), m.selected), (Mode::Browse, 1));
}

#[test]
fn deleting_needs_a_second_d() {
    let mut m = Model::new(rows(), 2);
    m.action(text("d"));
    assert_eq!(m.action(Action::Next), Outcome::Nothing);
    assert_eq!((m.mode.clone(), m.selected), (Mode::Browse, 2));
    m.action(text("d"));
    assert_eq!(m.action(text("D")), Outcome::Run(SpaceCommand::Delete("docs".into())));
    m.set_rows(rows()[..2].to_vec());
    assert_eq!(m.selected, 1);
}

#[test]
fn the_prompt_stops_at_twenty_four_characters() {
    let mut m = Model::new(rows(), 0);
    m.action(text("n"));
    m.action(text(&"a".repeat(30)));
    assert_eq!(m.mode, Mode::Create("a".repeat(24)));
    m.action(text("\u{7}\t"));
    assert_eq!(m.mode, Mode::Create("a".repeat(24)));
}

#[test]
fn an_empty_picker_closes_and_keeps_its_selection() {
    let mut m = Model::default();
    assert_eq!(m.action(Action::Next), Outcome::Nothing);
    assert_eq!(m.selected, 0);
    assert_eq!(m.action(Action::Confirm), Outcome::Close);
    m.select(3);
    assert_eq!(m.selected, 0);
    assert_eq!(m.name(), "");
}

#[test]
fn typing_appends_the_printable_characters_that_fit() {
    let mut m = Model::new(rows(), 0);
    m.action(text("n"));
    m.action(text("ab"));
    assert_eq!(m.action(text("c d\u{7}e\tfghijklmnopqrstuvwxyz0123")), Outcome::Nothing);
    assert_eq!(m.mode, Mode::Create("abcdefghijklmnopqrstuvwx".into()));
}

#[test]
fn a_prompt_ignores_navigation_wherever_the_selection_is() {
    let mut m = Model::new(rows(), 0);
    m.action(text("n"));
    m.action(text("ab"));
    m.selected = usize::MAX;
    assert_eq!(m.action(Action::Next), Outcome::Nothing);
    assert_eq!(m.action(Action::Previous), Outcome::Nothing);
    assert_eq!(m.mode, Mode::Create("ab".into()));
}
