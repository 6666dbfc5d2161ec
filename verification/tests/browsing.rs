use gremlin::interface::input::{read_key, Data, Key, SignalType};
use gremlin::networking::Scheme;
use gremlin::state::{Action, ApplicationState, Mode, Viewport};

fn cmd(s: SignalType) -> Data {
    Data::Command(s)
}

fn target_of(a: &Action) -> (Scheme, String) {
    match a {
        Action::Navigate(u) => (u.scheme(), u.get_request().to_string()),
        _ => panic!("not a navigation"),
    }
}

fn fresh() -> (ApplicationState, Viewport) {
    let mut s = ApplicationState::new();
    s.history.push("gemini://gemini.circumlunar.space".to_string());
    (s, Viewport { scroll: 0, link_scroll: 0 })
}

#[test]
fn new_state_is_empty() {
    let s = ApplicationState::new();
    assert!(s.history.is_empty());
    assert!(s.future.is_empty());
    assert_eq!(s.curr_input, "");
    assert_eq!(s.mode, Mode::Normal);
}

#[test]
fn typing_an_address_and_going_there() {
    let (mut s, mut v) = fresh();
    v.scroll = 7;
    v.link_scroll = 2;
    assert!(matches!(s.handle(&mut v, "", cmd(SignalType::NewURI)), Action::Redraw));
    assert_eq!(s.mode, Mode::Editing);
    for c in "example.orgX".chars() {
        assert!(matches!(s.handle(&mut v, "", Data::Char(c)), Action::Redraw));
    }
    s.handle(&mut v, "", cmd(SignalType::BackSpace));
    assert_eq!(s.curr_input, "example.org");
    let a = s.handle(&mut v, "", cmd(SignalType::Go));
    assert_eq!(target_of(&a), (Scheme::Gemini, "gemini://example.org/\r\n".to_string()));
    assert_eq!(s.mode, Mode::Normal);
    assert_eq!(s.curr_input, "");
    assert_eq!(s.history, vec!["gemini://gemini.circumlunar.space", "gemini://example.org"]);
    assert_eq!((v.scroll, v.link_scroll), (0, 0));
}

#[test]
fn following_the_selected_link() {
    let (mut s, mut v) = fresh();
    let page = "=> gemini://a.example/one A\n=> gemini://b.example/two B";
    s.handle(&mut v, page, cmd(SignalType::ScrollLD));
    let a = s.handle(&mut v, page, cmd(SignalType::Go));
    assert_eq!(
        target_of(&a),
        (Scheme::Gemini, "gemini://b.example/two/\r\n".to_string())
    );
    assert_eq!(s.history.last().unwrap(), "gemini://b.example/two");
}

#[test]
fn following_a_missing_link_changes_nothing() {
    let (mut s, mut v) = fresh();
    v.link_scroll = 3;
    let a = s.handle(&mut v, "=> only.example", cmd(SignalType::Go));
    assert!(matches!(a, Action::LinkMissing));
    assert_eq!(s.history.len(), 1);
    assert_eq!(v.link_scroll, 3);
}

#[test]
fn back_and_forward_through_history() {
    let (mut s, mut v) = fresh();
    s.history.push("gemini://second.example".to_string());
    let a = s.handle(&mut v, "", cmd(SignalType::HistoryBack));
    assert_eq!(
        target_of(&a),
        (Scheme::Gemini, "gemini://gemini.circumlunar.space/\r\n".to_string())
    );
    assert_eq!(s.history, vec!["gemini://gemini.circumlunar.space"]);
    assert_eq!(s.future, vec!["gemini://second.example"]);
    assert!(matches!(s.handle(&mut v, "", cmd(SignalType::HistoryBack)), Action::Idle));
    let a = s.handle(&mut v, "", cmd(SignalType::HistoryForward));
    assert_eq!(target_of(&a), (Scheme::Gemini, "gemini://second.example/\r\n".to_string()));
    assert_eq!(s.history, vec!["gemini://gemini.circumlunar.space", "gemini://second.example"]);
    assert!(s.future.is_empty());
    assert!(matches!(s.handle(&mut v, "", cmd(SignalType::HistoryForward)), Action::Idle));
}

#[test]
fn history_entry_reloads_same_request() {
    let (mut s, mut v) = fresh();
    s.mode = Mode::Editing;
    s.curr_input = "gemini://x.example/page".to_string();
    let first = target_of(&s.handle(&mut v, "", cmd(SignalType::Go)));
    s.mode = Mode::Editing;
    s.curr_input = "other.example".to_string();
    s.handle(&mut v, "", cmd(SignalType::Go));
    let back = target_of(&s.handle(&mut v, "", cmd(SignalType::HistoryBack)));
    assert_eq!(first, back);
}

#[test]
fn scrolling_stops_at_the_top() {
    let (mut s, mut v) = fresh();
    s.handle(&mut v, "", cmd(SignalType::ScrollU));
    s.handle(&mut v, "", cmd(SignalType::ScrollLU));
    assert_eq!((v.scroll, v.link_scroll), (0, 0));
    s.handle(&mut v, "", cmd(SignalType::ScrollD));
    s.handle(&mut v, "", cmd(SignalType::ScrollD));
    s.handle(&mut v, "", cmd(SignalType::ScrollU));
    assert_eq!(v.scroll, 1);
    s.handle(&mut v, "", cmd(SignalType::ScrollLD));
    s.handle(&mut v, "", cmd(SignalType::ScrollLU));
    assert_eq!(v.link_scroll, 0);
}

#[test]
fn close_quits_and_keeps_state() {
    let (mut s, mut v) = fresh();
    assert!(matches!(s.handle(&mut v, "", cmd(SignalType::Close)), Action::Quit));
    assert_eq!(s.history.len(), 1);
}

#[test]
fn backspace_on_empty_input() {
    let (mut s, mut v) = fresh();
    assert!(matches!(s.handle(&mut v, "", cmd(SignalType::BackSpace)), Action::Redraw));
    assert_eq!(s.curr_input, "");
}

#[test]
fn keys_in_normal_mode() {
    let n = Mode::Normal;
    assert_eq!(read_key(n, Key::Ctrl('c')), (n, Some(cmd(SignalType::Close))));
    assert_eq!(read_key(n, Key::Up), (n, Some(cmd(SignalType::ScrollU))));
    assert_eq!(read_key(n, Key::Down), (n, Some(cmd(SignalType::ScrollD))));
    assert_eq!(read_key(n, Key::Ctrl('k')), (n, Some(cmd(SignalType::ScrollLU))));
    assert_eq!(read_key(n, Key::Ctrl('l')), (n, Some(cmd(SignalType::ScrollLD))));
    assert_eq!(read_key(n, Key::Char('\n')), (n, Some(cmd(SignalType::Go))));
    assert_eq!(read_key(n, Key::Alt('k')), (n, Some(cmd(SignalType::HistoryBack))));
    assert_eq!(read_key(n, Key::Alt('l')), (n, Some(cmd(SignalType::HistoryForward))));
    assert_eq!(read_key(n, Key::Alt('n')), (Mode::Editing, Some(cmd(SignalType::NewURI))));
    assert_eq!(read_key(n, Key::Char('a')), (n, None));
    assert_eq!(read_key(n, Key::Backspace), (n, None));
    assert_eq!(read_key(n, Key::Other), (n, None));
}

#[test]
fn keys_in_editing_mode() {
    let e = Mode::Editing;
    assert_eq!(read_key(e, Key::Char('\n')), (Mode::Normal, Some(cmd(SignalType::Go))));
    assert_eq!(read_key(e, Key::Backspace), (e, Some(cmd(SignalType::BackSpace))));
    assert_eq!(read_key(e, Key::Char('q')), (e, Some(Data::Char('q'))));
    assert_eq!(read_key(e, Key::Ctrl('c')), (e, Some(cmd(SignalType::Close))));
    assert_eq!(read_key(e, Key::Up), (e, None));
    assert_eq!(read_key(e, Key::Alt('n')), (e, None));
}

#[test]
fn reader_mode_and_browser_mode_agree() {
    let (mut s, mut v) = fresh();
    let keys = [Key::Alt('n'), Key::Char('a'), Key::Char('\n'), Key::Down, Key::Alt('n'), Key::Backspace];
    let mut reader = Mode::Normal;
    for k in keys {
        let (m, sent) = read_key(reader, k);
        reader = m;
        if let Some(ev) = sent {
            s.handle(&mut v, "", ev);
        }
        assert_eq!(reader, s.mode);
    }
}

#[test]
fn key_sequence_keeps_typing_inside_edit_spans() {
    let keys = [
        Key::Char('x'),
        Key::Down,
        Key::Alt('n'),
        Key::Char('a'),
        Key::Down,
        Key::Backspace,
        Key::Char('\n'),
        Key::Backspace,
        Key::Ctrl('c'),
    ];
    let mut mode = Mode::Normal;
    let mut sent = Vec::new();
    for k in keys {
        let (m, d) = read_key(mode, k);
        mode = m;
        sent.extend(d);
    }
    assert_eq!(
        sent,
        vec![
            cmd(SignalType::ScrollD),
            cmd(SignalType::NewURI),
            Data::Char('a'),
            cmd(SignalType::BackSpace),
            cmd(SignalType::Go),
            cmd(SignalType::Close),
        ]
    );
    assert_eq!(mode, Mode::Normal);
}
