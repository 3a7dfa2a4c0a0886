use mail_queue::message::{Domain, Message, Schedule, Status};

fn domain(status: Status, retry: u64, notify: u64, expires: u64) -> Domain {
    Domain {
        status,
        retry: Schedule { due: retry },
        notify: Schedule { due: notify },
        expires,
    }
}

#[test]
fn next_event_is_the_earliest_pending_deadline() {
    let m = Message {
        id: 1,
        domains: vec![
            domain(Status::Scheduled, 500, 700, 900),
            domain(Status::TemporaryFailure, 450, 800, 460),
            domain(Status::Completed, 1, 2, 3),
        ],
    };
    assert_eq!(m.next_event(), Some(450));
}

#[test]
fn next_event_ignores_terminal_domains() {
    let m = Message {
        id: 2,
        domains: vec![
            domain(Status::PermanentFailure, 1, 2, 3),
            domain(Status::Completed, 4, 5, 6),
        ],
    };
    assert_eq!(m.next_event(), None);
}

#[test]
fn next_event_picks_notify_or_expiry_when_earlier() {
    let m = Message {
        id: 3,
        domains: vec![domain(Status::Scheduled, 900, 300, 600)],
    };
    assert_eq!(m.next_event(), Some(300));
    let m2 = Message {
        id: 4,
        domains: vec![domain(Status::Scheduled, 900, 950, 600)],
    };
    assert_eq!(m2.next_event(), Some(600));
}

#[test]
fn next_delivery_event_is_the_earliest_pending_retry() {
    let m = Message {
        id: 5,
        domains: vec![
            domain(Status::Scheduled, 800, 1, 1),
            domain(Status::TemporaryFailure, 750, 1, 1),
            domain(Status::PermanentFailure, 10, 1, 1),
        ],
    };
    assert_eq!(m.next_delivery_event(), 750);
}

#[test]
fn next_dsn_is_the_earliest_pending_notify() {
    let m = Message {
        id: 6,
        domains: vec![
            domain(Status::Scheduled, 1, 620, 1),
            domain(Status::TemporaryFailure, 1, 610, 1),
        ],
    };
    assert_eq!(m.next_dsn(), 610);
}

#[test]
fn expires_is_the_earliest_pending_expiry() {
    let m = Message {
        id: 7,
        domains: vec![
            domain(Status::Scheduled, 1, 1, 880),
            domain(Status::TemporaryFailure, 1, 1, 870),
            domain(Status::Completed, 1, 1, 5),
        ],
    };
    assert_eq!(m.expires(), 870);
}

#[test]
fn next_event_after_skips_deadlines_at_or_before_the_instant() {
    let m = Message {
        id: 8,
        domains: vec![
            domain(Status::Scheduled, 500, 700, 900),
            domain(Status::TemporaryFailure, 450, 800, 460),
        ],
    };
    assert_eq!(m.next_event_after(0), Some(450));
    assert_eq!(m.next_event_after(450), Some(460));
    assert_eq!(m.next_event_after(460), Some(500));
    assert_eq!(m.next_event_after(500), Some(700));
    assert_eq!(m.next_event_after(800), Some(900));
    assert_eq!(m.next_event_after(900), None);
}

#[test]
fn next_event_after_ignores_terminal_domains() {
    let m = Message {
        id: 9,
        domains: vec![domain(Status::Completed, 100, 200, 300)],
    };
    assert_eq!(m.next_event_after(0), None);
}
