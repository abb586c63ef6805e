use illium::apps::command_line;
use illium::browser;
use illium::terminal;

const BROWSER: &str = "\"C:\\Program Files\\Illium\\illium-browser.exe\"";
const TERMINAL: &str = "\"C:\\Program Files\\Illium\\winarchy-terminal.exe\"";

#[test]
fn only_bundled_argument_free_aliases_use_resident() {
    let command = Some(BROWSER);
    assert!(browser::bundled("illium-browser.exe", command));
    assert!(browser::bundled(BROWSER, command));
    assert!(!browser::bundled("illium-browser.exe --standalone", command));
    assert!(!browser::bundled("illium-browser.exe https://example.com", command));
    assert!(!browser::bundled("C:\\other\\illium-browser.exe", command));
    assert!(!browser::bundled("msedge.exe", command));
}

#[test]
fn only_bundled_argument_free_launches_use_ipc() {
    let command = Some(TERMINAL);
    assert!(terminal::bundled("winarchy-terminal.exe", command));
    assert!(terminal::bundled(TERMINAL, command));
    assert!(!terminal::bundled("wezterm.exe", command));
    assert!(!terminal::bundled("winarchy-terminal.exe --standalone", command));
    assert!(!terminal::bundled("C:\\other\\winarchy-terminal.exe", command));
}

#[test]
fn bundled_names_ignore_case_spaces_and_quotes() {
    assert!(browser::bundled("  ILLIUM-Browser.EXE ", None));
    assert!(browser::bundled("C:\\Program Files\\Illium\\illium-browser.exe", Some(BROWSER)));
    assert!(!browser::bundled(BROWSER, None));
}

#[test]
fn focus_requests_are_used_up_by_their_own_executable() {
    let mut requested = Some(std::time::Instant::now());
    assert!(!terminal::wants_focus("C:\\x\\wezterm.exe", &mut requested));
    assert!(requested.is_some());
    assert!(terminal::wants_focus("C:\\X\\WINARCHY-TERMINAL.EXE", &mut requested));
    assert!(requested.is_none());
    assert!(!terminal::wants_focus("C:\\x\\winarchy-terminal.exe", &mut requested));
}

#[test]
fn companion_windows_take_focus_once_per_request() {
    let mut requested = Some(std::time::Instant::now());
    assert!(illium::apps::wants_focus("C:\\Apps\\Illium-Apps.exe", &mut requested));
    assert!(!illium::apps::wants_focus("C:\\Apps\\illium-apps.exe", &mut requested));
    let mut stale = Some(std::time::Instant::now() - std::time::Duration::from_secs(4));
    assert!(!illium::apps::wants_focus("C:\\Apps\\illium-apps.exe", &mut stale));
    assert!(stale.is_some());
}

#[test]
fn companion_command_quotes_the_executable() {
    assert_eq!(command_line("C:\\Illium\\illium-apps.exe", "serve"), "\"C:\\Illium\\illium-apps.exe\" serve");
}
