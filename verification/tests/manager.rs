use illium::manager::{clamp_monitors, reopen_blocked};
use illium::geometry::Rect;
use illium::manager::{
    focus_from_foreground, layout_command, monitor_at, spawn_target, Client, Desk, DeskEvent, Effect,
    LayoutCommand, Placement, WindowFlags,
};

#[test]
fn click_after_closing_press_does_not_reopen() {
    let mut closed = Some(("volume".to_string(), 1_000_000_000u64));
    assert!(reopen_blocked(&mut closed, "volume", 1_200_000_000));
    assert!(closed.is_none());
    // The memory is used up: a second click opens.
    assert!(!reopen_blocked(&mut closed, "volume", 1_200_000_001));
}

#[test]
fn late_or_other_clicks_open() {
    let mut closed = Some(("volume".to_string(), 0u64));
    assert!(!reopen_blocked(&mut closed, "volume", 500_000_000));
    assert!(closed.is_none());
    let mut closed = Some(("volume".to_string(), 0u64));
    assert!(!reopen_blocked(&mut closed, "battery", 1));
    assert!(closed.is_none());
}

#[test]
fn monitors_that_are_gone_move_to_the_last() {
    let mut indices = vec![0usize, 1, 2, 3];
    clamp_monitors(&mut indices, 2);
    assert_eq!(indices, vec![0, 1, 1, 1]);
    clamp_monitors(&mut indices, 0);
    assert_eq!(indices, vec![0, 0, 0, 0]);
}

fn rect(x: i32, y: i32, w: i32, h: i32) -> Rect {
    Rect { x, y, w, h }
}

#[test]
fn layout_commands() {
    let area = rect(0, 0, 1200, 600);
    let w = WindowFlags { floating: false, fullscreen: true, restore: rect(1, 2, 3, 4) };
    let (f, p) = layout_command(w, LayoutCommand::Tile, area, rect(0, 0, 0, 0));
    assert!(!f.floating && !f.fullscreen);
    assert_eq!(p, Placement::Stay);
    let (f, p) = layout_command(w, LayoutCommand::Float, area, rect(0, 0, 0, 0));
    assert!(f.floating && !f.fullscreen);
    assert_eq!(p, Placement::FloatAt(rect(200, 100, 800, 400)));
    let (f2, p) = layout_command(f, LayoutCommand::Float, area, rect(0, 0, 0, 0));
    assert!(!f2.floating);
    assert_eq!(p, Placement::Stay);
    let plain = WindowFlags { floating: false, fullscreen: false, restore: rect(0, 0, 0, 0) };
    let (f, p) = layout_command(plain, LayoutCommand::Fullscreen, area, rect(5, 6, 7, 8));
    assert!(f.fullscreen);
    assert_eq!(f.restore, rect(5, 6, 7, 8));
    assert_eq!(p, Placement::Stay);
    let (f, p) = layout_command(f, LayoutCommand::Fullscreen, area, rect(0, 0, 1200, 600));
    assert!(!f.fullscreen);
    assert_eq!(p, Placement::Restore(rect(5, 6, 7, 8)));
}

#[test]
fn spawning_looks_up_the_application() {
    let apps = vec![("term".to_string(), "wt.exe".to_string()), ("web".to_string(), "edge".to_string())];
    assert_eq!(spawn_target(&apps, "web"), Ok("edge".to_string()));
    assert_eq!(spawn_target(&apps, "mail"), Err("unknown application: mail".to_string()));
}

#[test]
fn foreground_focus_and_monitor() {
    let clients = [Client { id: 7, workspace: 1 }, Client { id: 9, workspace: 2 }];
    assert_eq!(focus_from_foreground(&clients, 1, None, 7, false), Some(7));
    assert_eq!(focus_from_foreground(&clients, 1, Some(3), 7, true), Some(3));
    assert_eq!(focus_from_foreground(&clients, 1, Some(3), 9, false), Some(3));
    let monitors = [rect(0, 0, 100, 100), rect(100, 0, 100, 100)];
    assert_eq!(monitor_at(&monitors, rect(60, 10, 100, 20)), Some(1));
    assert_eq!(monitor_at(&monitors, rect(40, 10, 100, 20)), Some(0));
    assert_eq!(monitor_at(&monitors, rect(300, 10, 10, 10)), None);
}

fn desk() -> Desk {
    Desk {
        clients: vec![Client { id: 7, workspace: 1 }, Client { id: 9, workspace: 2 }],
        active: 1,
        focused: None,
        monitors: vec![rect(0, 0, 100, 100), rect(100, 0, 100, 100)],
        workspace_monitors: vec![0, 0],
        dirty: false,
        popup_open: None,
        applet_open: None,
        just_closed: None,
        focus_follows_mouse: true,
        launcher_visible: false,
    }
}

#[test]
fn dispatch_foreground_moves_the_workspace_to_the_window_monitor() {
    let mut d = desk();
    let e = d.dispatch(DeskEvent::Foreground { id: 7, minimized: false, rect: rect(120, 0, 40, 40) });
    assert_eq!(e, vec![Effect::Refresh, Effect::Borders]);
    assert_eq!(d.focused, Some(7));
    assert_eq!(d.workspace_monitors, vec![1, 0]);
    assert!(d.dirty);
    let mut d = desk();
    d.dispatch(DeskEvent::Foreground { id: 9, minimized: false, rect: rect(120, 0, 40, 40) });
    assert_eq!(d.focused, None);
    assert!(!d.dirty);
}

#[test]
fn dispatch_popups_and_modules() {
    let mut d = desk();
    d.popup_open = Some("clock".to_string());
    let e = d.dispatch(DeskEvent::Click { on_applet: false, on_popup: false, now: 1_000 });
    assert_eq!(e, vec![Effect::ClosePopup, Effect::CloseApplet]);
    assert_eq!(d.popup_open, None);
    assert_eq!(d.just_closed, Some(("clock".to_string(), 1_000)));
    let module = |now| DeskEvent::Module { kind: "clock".into(), target: "clock".into(), is_applet: false, now };
    assert!(d.dispatch(module(2_000)).is_empty());
    assert_eq!(d.dispatch(module(3_000)), vec![Effect::ShowDetails("clock".into())]);
    d.popup_open = Some("clock".to_string());
    assert_eq!(d.dispatch(module(4_000)), vec![Effect::ClosePopup]);
    let applet = DeskEvent::Module { kind: "vol".into(), target: "volume".into(), is_applet: true, now: 5_000 };
    assert_eq!(d.dispatch(applet), vec![Effect::ClosePopup, Effect::ToggleApplet("volume".into())]);
    assert!(d.dispatch(DeskEvent::Click { on_applet: true, on_popup: false, now: 6_000 }).is_empty());
    d.applet_open = Some("volume".into());
    d.dispatch(DeskEvent::Escape);
    assert_eq!(d.applet_open, None);
}

#[test]
fn focus_follows_the_mouse_only_on_the_active_workspace() {
    let mut d = desk();
    assert_eq!(d.dispatch(DeskEvent::Mouse { id: 7 }), vec![Effect::Focus(7)]);
    assert!(d.dispatch(DeskEvent::Mouse { id: 9 }).is_empty());
    d.launcher_visible = true;
    d.focused = None;
    assert!(d.dispatch(DeskEvent::Mouse { id: 7 }).is_empty());
    assert_eq!(d.focused, None);
}
