use icmpsh::layout::{measure_text_height, wrapped_height};
use icmpsh::registry::App;
use icmpsh::session::{Entry, Recipient};

fn marker() -> Vec<u8> {
    let mut m = vec![0u8; 9];
    m.extend_from_slice(b"icmpsh");
    m.extend_from_slice(&[0u8; 9]);
    m
}

fn probe() -> Vec<u8> {
    let mut raw = vec![8u8, 0, 0, 0, 0, 1, 0, 1];
    raw.extend_from_slice(&marker());
    raw
}

fn app_with(peers: &[&str]) -> App {
    let mut app = App::new();
    for p in peers {
        app.process_packet(&p.to_string(), &probe()).unwrap();
    }
    app
}

#[test]
fn recipient_new_is_idle_and_empty() {
    let r = Recipient::new("10.0.0.9");
    assert_eq!(r.label(), "10.0.0.9");
    assert!(!r.is_blocked());
    assert!(r.history().is_empty());
    assert_eq!(r.scroll(), 0);
    assert!(r.auto_scroll());
}

#[test]
fn add_message_appends_inbound() {
    let mut r = Recipient::new("a");
    r.add_message("one");
    r.add_message("two");
    let texts: Vec<String> = r
        .history()
        .iter()
        .map(|e| match e {
            Entry::Inbound(s) => s.clone(),
            Entry::Outbound(_) => panic!("expected inbound"),
        })
        .collect();
    assert_eq!(texts, vec!["one", "two"]);
    assert!(!r.is_blocked());
}

#[test]
fn recipient_submit_rules() {
    let mut r = Recipient::new("a");
    assert!(!r.submit(&String::new()));
    assert!(r.history().is_empty());
    assert!(r.submit(&"ls".to_string()));
    assert!(r.is_blocked());
    assert!(!r.submit(&"pwd".to_string()));
    assert_eq!(r.history().len(), 1);
    r.receive("out".to_string());
    assert!(!r.is_blocked());
    assert_eq!(r.outbound_payload(), marker());
}

#[test]
fn app_new_is_empty() {
    let app = App::new();
    assert!(app.recipients().is_empty());
    assert_eq!(app.selected(), 0);
    assert_eq!(app.input(), "");
}

#[test]
fn typing_needs_an_idle_selected_session() {
    let mut app = App::new();
    app.handle_char('x');
    assert_eq!(app.input(), "");
    let mut app = app_with(&["alpha"]);
    app.handle_char('l');
    app.handle_char('s');
    assert_eq!(app.input(), "ls");
    app.submit_message();
    app.handle_char('z');
    assert_eq!(app.input(), "");
}

#[test]
fn backspace_removes_last_char() {
    let mut app = app_with(&["alpha"]);
    app.handle_char('a');
    app.handle_char('é');
    app.backspace();
    assert_eq!(app.input(), "a");
    app.backspace();
    app.backspace();
    assert_eq!(app.input(), "");
}

#[test]
fn empty_input_is_not_submitted() {
    let mut app = app_with(&["alpha"]);
    app.submit_message();
    assert!(!app.recipients()[0].is_blocked());
    assert!(app.recipients()[0].history().is_empty());
}

#[test]
fn submit_without_sessions_keeps_input() {
    let mut app = App::new();
    app.submit_message();
    assert_eq!(app.input(), "");
}

#[test]
fn navigation_stays_in_range() {
    let mut app = app_with(&["alpha", "bravo", "charlie"]);
    app.navigate_up();
    assert_eq!(app.selected(), 0);
    app.navigate_down();
    app.navigate_down();
    app.navigate_down();
    assert_eq!(app.selected(), 2);
    app.navigate_up();
    assert_eq!(app.selected(), 1);
    let mut empty = App::new();
    empty.navigate_down();
    empty.navigate_up();
    assert_eq!(empty.selected(), 0);
}

#[test]
fn submit_goes_to_selected_session() {
    let mut app = app_with(&["alpha", "bravo"]);
    app.navigate_down();
    app.handle_char('w');
    app.submit_message();
    assert!(!app.recipients()[0].is_blocked());
    assert!(app.recipients()[1].is_blocked());
}

#[test]
fn scrolling_selected_session() {
    let mut app = app_with(&["alpha"]);
    app.scroll_up();
    assert_eq!(app.recipients()[0].scroll(), 0);
    assert!(app.recipients()[0].auto_scroll());
    app.scroll_down();
    app.scroll_down();
    assert_eq!(app.recipients()[0].scroll(), 2);
    assert!(!app.recipients()[0].auto_scroll());
    app.scroll_up();
    assert_eq!(app.recipients()[0].scroll(), 1);
}

#[test]
fn scroll_down_saturates() {
    let mut r = Recipient::new("a");
    for _ in 0..70000u32 {
        r.scroll_down();
    }
    assert_eq!(r.scroll(), u16::MAX);
}

#[test]
fn fit_scroll_rules() {
    let mut r = Recipient::new("a");
    r.fit_scroll(5, 10);
    assert_eq!((r.scroll(), r.auto_scroll()), (0, true));
    r.fit_scroll(30, 10);
    assert_eq!((r.scroll(), r.auto_scroll()), (20, true));
    r.scroll_up();
    r.fit_scroll(30, 10);
    assert_eq!((r.scroll(), r.auto_scroll()), (19, false));
    r.fit_scroll(25, 10);
    assert_eq!((r.scroll(), r.auto_scroll()), (15, true));
    let mut app = app_with(&["alpha"]);
    app.fit_scroll(12, 4);
    assert_eq!(app.recipients()[0].scroll(), 8);
}

#[test]
fn wrapped_height_exact() {
    assert_eq!(wrapped_height(&vec![5, 0, 10], 4), 2 + 1 + 3);
    assert_eq!(wrapped_height(&vec![8], 4), 2);
    assert_eq!(wrapped_height(&vec![], 4), 0);
    assert_eq!(wrapped_height(&vec![5], 0), 0);
    assert_eq!(wrapped_height(&vec![65534, 1], 1), 65535);
    assert_eq!(wrapped_height(&vec![usize::MAX], 1), u16::MAX);
    assert_eq!(wrapped_height(&vec![65533, 1], 1), 65534);
}

#[test]
fn measure_text_height_uses_display_width() {
    let lines = vec!["hello".to_string(), String::new(), "日本語".to_string()];
    // widths 5, 0 and 6 columns at 4 columns: 2 + 1 + 2 rows
    assert_eq!(measure_text_height(&lines, 4), 5);
    assert_eq!(measure_text_height(&lines, 0), 0);
    assert_eq!(measure_text_height(&lines, 80), 3);
}

#[test]
fn submit_by_identity() {
    let mut app = app_with(&["alpha", "bravo"]);
    assert!(!app.submit(&"zulu".to_string(), &"ls".to_string()));
    assert!(!app.submit(&"bravo".to_string(), &String::new()));
    assert!(app.submit(&"bravo".to_string(), &"ls".to_string()));
    assert!(!app.submit(&"bravo".to_string(), &"pwd".to_string()));
    assert!(!app.recipients()[0].is_blocked());
    assert!(app.recipients()[1].is_blocked());
    assert_eq!(app.recipients()[1].history().len(), 1);
    assert_eq!(app.find(&"bravo".to_string()), Some(1));
    assert_eq!(app.find(&"zulu".to_string()), None);
}
