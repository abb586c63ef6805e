use illium::geometry::Rect;
use illium::state::{valid_space_name, Placement, SavedSpace, State};

const MAX_SPACES: usize = 9;

fn placement(id: isize, workspace: u8) -> Placement {
    Placement {
        id,
        pid: 40 + id as u32,
        exe: format!("C:\\app{id}.exe"),
        space: 0,
        workspace,
        floating: id == 2,
        fullscreen: false,
        restore: Rect { x: 1, y: 2, w: 3, h: 4 },
    }
}

fn saved(id: u32, name: &str) -> SavedSpace {
    SavedSpace { id, name: name.into(), active: 2, recent: 1, monitors: [0; 9] }
}

#[test]
fn round_trip() {
    let state = State {
        active: 3,
        recent: 1,
        monitors: [0; 9],
        clients: vec![placement(1, 3), placement(2, 5)],
        space: 1,
        recent_space: 0,
        spaces: vec![saved(0, "dev"), saved(1, "perso")],
    };
    let mut loaded = state.clone();
    loaded.normalize(MAX_SPACES);
    assert_eq!(loaded, state);
}

#[test]
fn out_of_range_values_are_normalized() {
    let mut state = State {
        active: 12,
        recent: 0,
        monitors: [0; 9],
        clients: vec![placement(1, 3), placement(2, 0)],
        ..Default::default()
    };
    state.normalize(MAX_SPACES);
    assert_eq!((state.active, state.recent), (1, 1));
    assert_eq!(state.clients.len(), 1);
}

#[test]
fn files_without_spaces_load_into_the_default_space() {
    let mut state = State {
        active: 2,
        recent: 1,
        clients: vec![Placement { pid: 41, exe: "a".into(), restore: Rect { x: 0, y: 0, w: 1, h: 1 }, ..placement(1, 2) }],
        ..Default::default()
    };
    state.normalize(MAX_SPACES);
    assert!(state.spaces.is_empty());
    assert_eq!((state.space, state.clients[0].space), (0, 0));
}

#[test]
fn invalid_spaces_are_dropped() {
    let mut perso = saved(4, "perso");
    perso.active = 0;
    let mut state = State {
        active: 1,
        recent: 1,
        clients: vec![Placement { space: 9, ..placement(1, 3) }],
        space: 4,
        recent_space: 7,
        spaces: vec![saved(0, "dev"), saved(3, "dev"), saved(5, "a b"), perso],
        ..Default::default()
    };
    state.normalize(MAX_SPACES);
    assert_eq!(state.spaces.iter().map(|s| s.id).collect::<Vec<_>>(), vec![0, 4]);
    assert_eq!((state.spaces[1].active, state.recent_space), (1, 4));
    assert_eq!(state.clients[0].space, 4);
    state.space = 8;
    state.normalize(MAX_SPACES);
    assert!(state.spaces.is_empty());
    assert_eq!((state.space, state.clients[0].space), (0, 0));
}

#[test]
fn retains_only_windows_of_the_same_process() {
    let mut state = State {
        clients: vec![placement(1, 1), placement(2, 1), placement(3, 1)],
        ..Default::default()
    };
    state.retain_alive(|id| match id {
        1 => Some((41, "C:\\app1.exe".into())),
        2 => Some((99, "C:\\app2.exe".into())),
        _ => None,
    });
    assert_eq!(state.clients.iter().map(|c| c.id).collect::<Vec<_>>(), vec![1]);
}

#[test]
fn order_places_unknown_windows_last() {
    let state = State { clients: vec![placement(7, 1), placement(5, 1)], ..Default::default() };
    let mut ids = vec![5, 9, 7];
    ids.sort_by_key(|id| state.order(*id));
    assert_eq!(ids, vec![7, 5, 9]);
    assert_eq!(state.placement(5).map(|p| p.pid), Some(45));
}

#[test]
fn normalizing_twice_changes_nothing_more() {
    let mut state = State {
        active: 0,
        recent: 40,
        clients: vec![Placement { space: 6, ..placement(1, 3) }, placement(2, 11)],
        space: 6,
        recent_space: 2,
        spaces: vec![saved(6, "six"), saved(6, "again"), saved(1, "six"), saved(2, "two")],
        ..Default::default()
    };
    state.normalize(MAX_SPACES);
    let once = state.clone();
    state.normalize(MAX_SPACES);
    assert_eq!(state, once);
    assert_eq!(once.spaces.iter().map(|s| s.id).collect::<Vec<_>>(), vec![6, 2]);
    assert_eq!((once.active, once.recent, once.recent_space), (1, 1, 2));
}

#[test]
fn space_limit_keeps_the_first_spaces() {
    let mut state = State {
        space: 0,
        spaces: vec![saved(0, "a"), saved(1, "b"), saved(2, "c")],
        ..Default::default()
    };
    state.normalize(2);
    assert_eq!(state.spaces.iter().map(|s| s.id).collect::<Vec<_>>(), vec![0, 1]);
}

#[test]
fn space_names_are_short_words() {
    assert!(valid_space_name("dev"));
    assert!(valid_space_name("é-24"));
    assert!(!valid_space_name(""));
    assert!(!valid_space_name("a b"));
    assert!(!valid_space_name(&"x".repeat(25)));
    assert!(valid_space_name(&"x".repeat(24)));
    assert!(!valid_space_name("tab\there"));
}
