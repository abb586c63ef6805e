use illium::protocol::{parse, read_command, Command, MAX_COMMAND_BYTES};

#[test]
fn requires_terminator() {
    assert_eq!(read_command(&mut &b"quit\n"[..]), Ok(Command::Quit));
    assert!(read_command(&mut &b"quit"[..]).is_err());
    assert!(read_command(&mut &b""[..]).is_err());
}

#[test]
fn bounds_and_utf8() {
    let exact = format!("quit{}\n", " ".repeat(MAX_COMMAND_BYTES - 4));
    assert_eq!(read_command(&mut exact.as_bytes()), Ok(Command::Quit));
    let oversized = format!("quit{}\n", " ".repeat(MAX_COMMAND_BYTES - 3));
    assert!(read_command(&mut oversized.as_bytes()).is_err());
    assert!(read_command(&mut &b"spawn \xff\n"[..]).is_err());
    assert_eq!(
        read_command(&mut "spawn éditeur\r\n".as_bytes()),
        Ok(Command::Spawn("éditeur".into()))
    );
}

#[test]
fn consumes_one_frame() {
    let mut input = &b"status\nquit\n"[..];
    assert_eq!(read_command(&mut input), Ok(Command::Status));
    assert_eq!(input, b"quit\n");
}

#[test]
fn frames_are_read_one_after_another() {
    let mut input = &b"status\nquit\nspawn  notepad.exe  a \n"[..];
    assert_eq!(read_command(&mut input), Ok(Command::Status));
    assert_eq!(read_command(&mut input), Ok(Command::Quit));
    assert_eq!(read_command(&mut input), Ok(Command::Spawn("notepad.exe  a".into())));
    assert!(input.is_empty());
}

#[test]
fn oversized_frame_reports_its_limit_and_consumes_the_bound() {
    let long = vec![b'a'; MAX_COMMAND_BYTES + 5];
    let mut input = &long[..];
    assert_eq!(read_command(&mut input), Err("IPC command exceeds 8191 bytes".to_string()));
    assert_eq!(input.len(), 4);
}

#[test]
fn unterminated_frame_is_consumed_whole() {
    let mut input = &b"status"[..];
    assert_eq!(
        read_command(&mut input),
        Err("incomplete IPC command: failed to fill whole buffer".to_string())
    );
    assert!(input.is_empty());
}

#[test]
fn commands_ignore_surrounding_whitespace_and_reject_extra_arguments() {
    assert_eq!(parse("  quit\t"), Ok(Command::Quit));
    assert_eq!(parse("status"), Ok(Command::Status));
    assert!(parse("quit now").is_err());
    assert!(parse("spawn").is_err());
    assert!(parse("").is_err());
    assert!(parse("reboot").is_err());
}
