use orc_village::color::Color;
use orc_village::event::{EventLog, DEFAULT_CAPACITY};
use orc_village::text::{join3, push_decimal};

#[test]
fn new_log_is_empty() {
    let log = EventLog::new();
    assert!(log.events.is_empty());
    assert_eq!(log.max_events, 100);
    assert_eq!(DEFAULT_CAPACITY, 100);
    assert!(log.recent(5).is_empty());
}

#[test]
fn log_appends_in_order() {
    let mut log = EventLog::new();
    log.log(1, "first".to_string(), Color::White);
    log.log(2, "second".to_string(), Color::Red);
    assert_eq!(log.events.len(), 2);
    assert_eq!(log.events[0].tick, 1);
    assert_eq!(log.events[0].message, "first");
    assert_eq!(log.events[0].color, Color::White);
    assert_eq!(log.events[1].tick, 2);
    assert_eq!(log.events[1].message, "second");
    assert_eq!(log.events[1].color, Color::Red);
}

#[test]
fn log_drops_the_oldest_when_full() {
    let mut log = EventLog::new();
    for i in 0..100u64 {
        log.log(i, format!("event {}", i), Color::Green);
    }
    assert_eq!(log.events.len(), 100);
    assert_eq!(log.events[0].message, "event 0");
    log.log(100, "event 100".to_string(), Color::Green);
    assert_eq!(log.events.len(), 100);
    assert_eq!(log.events[0].message, "event 1");
    assert_eq!(log.events[99].message, "event 100");
    log.log(101, "event 101".to_string(), Color::Green);
    assert_eq!(log.events.len(), 100);
    assert_eq!(log.events[0].tick, 2);
    assert_eq!(log.events[99].tick, 101);
}

#[test]
fn small_log_keeps_only_the_newest() {
    let mut log = EventLog { events: Vec::new(), max_events: 2 };
    log.log(1, "a".to_string(), Color::White);
    log.log(2, "b".to_string(), Color::White);
    log.log(3, "c".to_string(), Color::White);
    let messages: Vec<&str> = log.events.iter().map(|e| e.message.as_str()).collect();
    assert_eq!(messages, vec!["b", "c"]);
}

#[test]
fn recent_gives_the_newest_oldest_first() {
    let mut log = EventLog::new();
    for i in 0..10u64 {
        log.log(i, format!("event {}", i), Color::Green);
    }
    let last = log.recent(3);
    assert_eq!(last.len(), 3);
    assert_eq!(last[0].tick, 7);
    assert_eq!(last[1].tick, 8);
    assert_eq!(last[2].tick, 9);
    assert_eq!(log.recent(0).len(), 0);
    assert_eq!(log.recent(10).len(), 10);
    assert_eq!(log.recent(11).len(), 10);
    assert_eq!(log.recent(usize::MAX)[0].tick, 0);
}

#[test]
fn decimal_numerals() {
    let mut s = String::from("n=");
    push_decimal(&mut s, 0);
    assert_eq!(s, "n=0");
    push_decimal(&mut s, 7);
    assert_eq!(s, "n=07");
    let mut t = String::new();
    push_decimal(&mut t, 1080);
    assert_eq!(t, "1080");
    let mut u = String::new();
    push_decimal(&mut u, u64::MAX);
    assert_eq!(u, "18446744073709551615");
}

#[test]
fn join3_joins_in_order() {
    assert_eq!(join3("A ", "Deer", " was hunted!"), "A Deer was hunted!");
    assert_eq!(join3("", "", ""), "");
    assert_eq!(join3("x", "", "z"), "xz");
}
