use space_server::session::{Action, Event, Phase, Session};

fn post_of(a: Action) -> Vec<u8> {
    match a {
        Action::Post(f) => f,
        _ => panic!("expected a post"),
    }
}

#[test]
fn session_joins_then_serves_snapshots_and_steering() {
    let mut s = Session::new(5);
    assert_eq!(vec![0, 5], post_of(s.step(Event::Start)));
    assert!(matches!(s.step(Event::Posted), Action::AwaitSnapshot));
    match s.step(Event::Snapshot(vec![7, 7])) {
        Action::Write(f) => assert_eq!(vec![0, 0, 0, 2, 7, 7], f),
        _ => panic!("expected a write"),
    }
    assert!(matches!(s.step(Event::Written), Action::ReadFrame));
    let frame = [1, 0, 0, 0, 0, 0, 0, 0, 9];
    assert_eq!(vec![2, 5, 1, 0, 0, 0, 0, 0, 0, 0, 9], post_of(s.step(Event::Frame(frame))));
    assert_eq!(Phase::Posting, s.phase);
    assert!(matches!(s.step(Event::Posted), Action::AwaitSnapshot));
}

#[test]
fn session_tears_down_once() {
    let mut s = Session::new(2);
    s.step(Event::Start);
    s.step(Event::Posted);
    match s.step(Event::Failed) {
        Action::Finish(f) => assert_eq!(vec![1, 2], f),
        _ => panic!("expected teardown"),
    }
    assert_eq!(Phase::Closed, s.phase);
    assert!(matches!(s.step(Event::Failed), Action::Idle));
    assert!(matches!(s.step(Event::Snapshot(vec![1])), Action::Idle));
}

#[test]
fn session_ignores_out_of_order_events() {
    let mut s = Session::new(9);
    assert!(matches!(s.step(Event::Written), Action::Idle));
    assert_eq!(Phase::Fresh, s.phase);
    s.step(Event::Start);
    assert!(matches!(s.step(Event::Frame([0; 9])), Action::Idle));
    assert_eq!(Phase::Posting, s.phase);
}
