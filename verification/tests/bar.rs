use illium::bar::{drawer_rows, split_workspaces};

fn strings(v: &[&str]) -> Vec<String> {
    v.iter().map(|s| s.to_string()).collect()
}

#[test]
fn workspaces_keep_their_configured_place() {
    let modules = strings(&["clock", "workspaces", "cpu", "drawer"]);
    let (before, after) = split_workspaces(&modules);
    assert_eq!(before, &modules[..1]);
    assert_eq!(after, &modules[2..]);
    let none = strings(&["clock", "cpu"]);
    let (before, after) = split_workspaces(&none);
    assert!(before.is_empty());
    assert_eq!(after, &none[..]);
}

#[test]
fn the_open_drawer_shows_its_modules_left_of_the_chevron() {
    let modules = strings(&["cpu", "drawer", "clock"]);
    let drawer = strings(&["wifi", "battery"]);
    assert_eq!(drawer_rows(&modules, &drawer, true), strings(&["cpu", "wifi", "battery", "drawer", "clock"]));
    assert_eq!(drawer_rows(&modules, &drawer, false), modules);
}
