use illium::request::{begin, transition, Ticket, TicketOp, CANCELLED, QUEUED, RUNNING};

const SECOND: u64 = 1_000_000_000;

#[test]
fn cancelled_never_runs() {
    let now = 5 * SECOND;
    let t = Ticket::new(now + SECOND);
    assert!(t.cancel());
    assert!(!t.start(now));
}

#[test]
fn expired_never_runs() {
    let now = 5 * SECOND;
    let t = Ticket::new(now);
    assert!(!t.start(now));
}

#[test]
fn starts_at_most_once() {
    let now = 5 * SECOND;
    let t = Ticket::new(now + SECOND);
    assert!(t.start(now));
    assert!(!t.start(now));
    assert!(!t.cancel());
}

#[test]
fn an_expired_ticket_is_cancelled() {
    let now = 5 * SECOND;
    let t = Ticket::new(now);
    assert!(!t.start(now + SECOND));
    assert!(!t.cancel());
}

#[test]
fn a_start_just_before_the_deadline_runs() {
    let t = Ticket::new(SECOND);
    assert!(t.start(SECOND - 1));
}

#[test]
fn expired_commands_get_the_expiry_reply() {
    let t = Ticket::new(SECOND);
    assert_eq!(begin(&t, SECOND), Err("IPC request expired before execution".to_string()));
    let t = Ticket::new(SECOND);
    assert_eq!(begin(&t, 0), Ok(()));
    assert_eq!(begin(&t, 0), Err("IPC request expired before execution".to_string()));
}

#[test]
fn transitions_handed_to_the_ticket() {
    assert_eq!(transition(TicketOp::Start, 1, 2), Some((QUEUED, RUNNING)));
    assert_eq!(transition(TicketOp::Start, 2, 2), None);
    assert_eq!(transition(TicketOp::Cancel, 9, 2), Some((QUEUED, CANCELLED)));
}
