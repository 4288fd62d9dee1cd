use stattracker::config::Config;
use stattracker::db::{QuestionType, QueuedTally};
use stattracker::sync::{refresh_fallback, DrainAction, DrainEvent, DrainPhase, Drainer};

fn tally(id: i64) -> QueuedTally {
    QueuedTally { id, desk_id: 7, question_type_id: 100 + id, created: format!("2024-01-0{id} 10:00:00") }
}

fn complete_config() -> Config {
    let mut c = Config::defaults("/data".to_string());
    c.base_url = "https://stats.example.org/".to_string();
    c.desk_id = 7;
    c
}

fn config_event(online: bool) -> DrainEvent {
    DrainEvent::Config { config: Some(complete_config()), has_db: true, online }
}

#[test]
fn drain_posts_each_tally_in_order_and_marks_it() {
    let mut d = Drainer::new();
    assert!(matches!(d.step(DrainEvent::Start), DrainAction::ReadConfig));
    assert!(matches!(d.step(config_event(false)), DrainAction::ReadQueue));
    let mut posted = Vec::new();
    let mut marked = Vec::new();
    let mut action = d.step(DrainEvent::Queue(Ok(vec![tally(1), tally(2), tally(3)])));
    loop {
        match action {
            DrainAction::Post { base_url, tally } => {
                assert_eq!(base_url, "https://stats.example.org/");
                posted.push(tally.id);
                action = d.step(DrainEvent::Posted(Ok(())));
            }
            DrainAction::MarkSynced(id) => {
                marked.push(id);
                action = d.step(DrainEvent::Marked);
            }
            DrainAction::ReadConfig => break,
            _ => panic!("unexpected action"),
        }
    }
    assert_eq!(posted, vec![1, 2, 3]);
    assert_eq!(marked, vec![1, 2, 3]);
    assert!(matches!(d.step(config_event(true)), DrainAction::ReadQueue));
    match d.step(DrainEvent::Queue(Ok(vec![]))) {
        DrainAction::Finish { report, result } => {
            assert_eq!(report, Some((true, None)));
            assert_eq!(result, Ok(true));
        }
        _ => panic!("expected the drain to finish"),
    }
    assert_eq!(d.phase(), DrainPhase::Done);
}

#[test]
fn drain_stops_at_the_first_refused_post() {
    let mut d = Drainer::new();
    d.step(DrainEvent::Start);
    d.step(config_event(true));
    let first = d.step(DrainEvent::Queue(Ok(vec![tally(4), tally(5)])));
    assert!(matches!(first, DrainAction::Post { ref tally, .. } if tally.id == 4));
    match d.step(DrainEvent::Posted(Err("HTTP 500".to_string()))) {
        DrainAction::Finish { report, result } => {
            assert_eq!(report, Some((false, Some("HTTP 500".to_string()))));
            assert_eq!(result, Ok(false));
        }
        _ => panic!("expected the drain to finish"),
    }
    assert!(matches!(d.step(DrainEvent::Posted(Ok(()))), DrainAction::Ignore));
}

#[test]
fn drain_without_configuration_returns_the_connection_state() {
    let mut d = Drainer::new();
    d.step(DrainEvent::Start);
    let mut incomplete = Config::defaults("/data".to_string());
    incomplete.base_url = "https://x/".to_string();
    match d.step(DrainEvent::Config { config: Some(incomplete), has_db: true, online: true }) {
        DrainAction::Finish { report, result } => {
            assert_eq!(report, None);
            assert_eq!(result, Ok(true));
        }
        _ => panic!("expected the drain to finish"),
    }
    let mut e = Drainer::new();
    e.step(DrainEvent::Start);
    match e.step(DrainEvent::Config { config: Some(complete_config()), has_db: false, online: false }) {
        DrainAction::Finish { report, result } => {
            assert_eq!(report, None);
            assert_eq!(result, Ok(false));
        }
        _ => panic!("expected the drain to finish"),
    }
}

#[test]
fn drain_reports_read_failures() {
    let mut d = Drainer::new();
    d.step(DrainEvent::Start);
    match d.step(DrainEvent::LockFailed) {
        DrainAction::Finish { result, .. } => {
            assert_eq!(result, Err("Internal state lock was poisoned.".to_string()))
        }
        _ => panic!("expected the drain to finish"),
    }
    let mut e = Drainer::new();
    e.step(DrainEvent::Start);
    e.step(config_event(true));
    match e.step(DrainEvent::Queue(Err("disk I/O error".to_string()))) {
        DrainAction::Finish { report, result } => {
            assert_eq!(report, None);
            assert_eq!(result, Err("disk I/O error".to_string()));
        }
        _ => panic!("expected the drain to finish"),
    }
}

#[test]
fn refresh_falls_back_to_cached_types() {
    let cached = vec![QuestionType {
        id: 1,
        name: "Directions".to_string(),
        description: String::new(),
        sort_order: 0,
    }];
    let ok = refresh_fallback("offline".to_string(), cached).unwrap();
    assert_eq!(ok.len(), 1);
    assert_eq!(ok[0].name, "Directions");
    assert_eq!(refresh_fallback("offline".to_string(), Vec::new()).unwrap_err(), "offline");
}
