//! The browser's state and how each command changes it.
use vstd::prelude::*;
use crate::interface::input::{Data, SignalType};
use crate::networking::{url_of, UrlParsed};
use crate::parser::{extract_link, link_targets, page_lines};
use crate::text::{chars_of, pop_char, push_char, string_of, strip_suffix_all, strip_suffix_all_chars};

verus! {

/// Whether keys move around the page or type an address.
#[derive(PartialEq, Eq, Structural, Clone, Copy, Debug)]
pub enum Mode {
    Normal,
    Editing,
}

/// The browsing history, the pages gone back from, the address being typed,
/// and the input mode.
pub struct ApplicationState {
    pub history: Vec<String>,
    pub future: Vec<String>,
    pub curr_input: String,
    pub mode: Mode,
}

/// How far the page is scrolled, and which link the link cursor is on.
pub struct Viewport {
    pub scroll: usize,
    pub link_scroll: u16,
}

/// What the caller does after a command.
pub enum Action {
    /// Leave the browser.
    Quit,
    /// Nothing to do.
    Idle,
    /// Draw the screen again.
    Redraw,
    /// Load this address, show it from the top, and draw the screen again.
    Navigate(UrlParsed),
    /// The link cursor is on no link of the page.
    LinkMissing,
}

/// The state of a browsing session, as values.
#[verifier::ext_equal]
pub struct Session {
    pub history: Seq<Seq<char>>,
    pub future: Seq<Seq<char>>,
    pub input: Seq<char>,
    pub mode: Mode,
    pub scroll: int,
    pub link_scroll: int,
}

/// What a command leads to: `Visit(t)` loads the address `t`.
pub enum Effect {
    Quit,
    Idle,
    Redraw,
    Visit(Seq<char>),
    LinkMissing,
}

/// The texts held by a vector of strings.
pub open spec fn strings(v: Seq<String>) -> Seq<Seq<char>> {
    v.map_values(|s: String| s@)
}

/// The session that a state and a viewport describe.
pub open spec fn session_of(s: ApplicationState, v: Viewport) -> Session {
    Session {
        history: strings(s.history@),
        future: strings(s.future@),
        input: s.curr_input@,
        mode: s.mode,
        scroll: v.scroll as int,
        link_scroll: v.link_scroll as int,
    }
}

/// What the history records for a followed address: its request without
/// trailing `/` + CRLF.
pub open spec fn history_entry(target: Seq<char>) -> Seq<char> {
    strip_suffix_all(url_of(target).request, "/\r\n"@)
}

/// `s` shown from the top with the link cursor on the first link.
pub open spec fn from_top(s: Session) -> Session {
    Session { scroll: 0, link_scroll: 0, ..s }
}

/// Following the address `t`: it is recorded in the history and loaded.
pub open spec fn follow(s: Session, t: Seq<char>) -> (Session, Effect) {
    (from_top(Session { history: s.history.push(history_entry(t)), ..s }), Effect::Visit(t))
}

/// How a command changes the session on the page `content`, and what it
/// leads to.
pub open spec fn react(s: Session, content: Seq<char>, ev: Data) -> (Session, Effect) {
    match ev {
        Data::Char(c) => (Session { input: s.input.push(c), ..s }, Effect::Redraw),
        Data::Command(cmd) => match cmd {
            SignalType::Close => (s, Effect::Quit),
            SignalType::ScrollU => (
                Session { scroll: if s.scroll == 0 { 0 } else { s.scroll - 1 }, ..s },
                Effect::Redraw,
            ),
            SignalType::ScrollD => (Session { scroll: s.scroll + 1, ..s }, Effect::Redraw),
            SignalType::ScrollLU => (
                Session {
                    link_scroll: if s.link_scroll == 0 { 0 } else { s.link_scroll - 1 },
                    ..s
                },
                Effect::Redraw,
            ),
            SignalType::ScrollLD => (
                Session { link_scroll: s.link_scroll + 1, ..s },
                Effect::Redraw,
            ),
            SignalType::Go => if s.mode == Mode::Editing {
                follow(Session { input: Seq::empty(), mode: Mode::Normal, ..s }, s.input)
            } else {
                let targets = link_targets(page_lines(content));
                if 0 <= s.link_scroll < targets.len() {
                    follow(s, targets[s.link_scroll])
                } else {
                    (s, Effect::LinkMissing)
                }
            },
            SignalType::NewURI => (Session { mode: Mode::Editing, ..s }, Effect::Redraw),
            SignalType::HistoryBack => if s.history.len() > 1 {
                let h = s.history.drop_last();
                (
                    from_top(Session { history: h, future: s.future.push(s.history.last()), ..s }),
                    Effect::Visit(h.last()),
                )
            } else {
                (s, Effect::Idle)
            },
            SignalType::HistoryForward => if s.future.len() > 0 {
                let t = s.future.last();
                (
                    from_top(Session { history: s.history.push(t), future: s.future.drop_last(), ..s }),
                    Effect::Visit(t),
                )
            } else {
                (s, Effect::Idle)
            },
            SignalType::BackSpace => (
                Session {
                    input: if s.input.len() > 0 { s.input.drop_last() } else { s.input },
                    ..s
                },
                Effect::Redraw,
            ),
        },
    }
}

/// The action that carries out an effect: `Visit(t)` becomes navigation to
/// the parsed address `t`.
pub open spec fn carries_out(a: Action, e: Effect) -> bool {
    match e {
        Effect::Quit => a is Quit,
        Effect::Idle => a is Idle,
        Effect::Redraw => a is Redraw,
        Effect::LinkMissing => a is LinkMissing,
        Effect::Visit(t) => a matches Action::Navigate(u) && u@ == url_of(t),
    }
}

impl ApplicationState {
    /// An empty history, nothing typed, normal mode.
    pub fn new() -> (r: Self)
        ensures
            r.history@.len() == 0,
            r.future@.len() == 0,
            r.curr_input@ == Seq::<char>::empty(),
            r.mode == Mode::Normal,
    {
        ApplicationState {
            history: Vec::new(),
            future: Vec::new(),
            mode: Mode::Normal,
            curr_input: String::new(),
        }
    }

    /// Records `target` in the history and asks for it to be loaded.
    fn follow_link(&mut self, view: &mut Viewport, target: &str) -> (r: Action)
        ensures
            final(self).history@.len() == old(self).history@.len() + 1,
            strings(final(self).history@) == strings(old(self).history@).push(
                history_entry(target@),
            ),
            final(self).future@ == old(self).future@,
            final(self).curr_input@ == old(self).curr_input@,
            final(self).mode == old(self).mode,
            final(view).scroll == 0,
            final(view).link_scroll == 0,
            r matches Action::Navigate(u) && u@ == url_of(target@),
    {
        let url = UrlParsed::new(target);
        let req = chars_of(url.get_request());
        let tail = chars_of("/\r\n");
        let entry = strip_suffix_all_chars(&req, &tail);
        let ghost before = strings(self.history@);
        self.history.push(string_of(&entry));
        assert(strings(self.history@) =~= before.push(history_entry(target@)));
        view.scroll = 0;
        view.link_scroll = 0;
        Action::Navigate(url)
    }

    /// Carries out one command on the page `content` (see `react`).
    pub fn handle(&mut self, view: &mut Viewport, content: &str, event: Data) -> (r: Action)
        requires
            event == Data::Command(SignalType::ScrollD) ==> old(view).scroll < usize::MAX,
            event == Data::Command(SignalType::ScrollLD) ==> old(view).link_scroll < u16::MAX,
        ensures
            session_of(*final(self), *final(view)) == react(
                session_of(*old(self), *old(view)),
                content@,
                event,
            ).0,
            carries_out(r, react(session_of(*old(self), *old(view)), content@, event).1),
    {
        match event {
            Data::Char(c) => {
                push_char(&mut self.curr_input, c);
                Action::Redraw
            },
            Data::Command(SignalType::Close) => Action::Quit,
            Data::Command(SignalType::ScrollU) => {
                if view.scroll != 0 {
                    view.scroll = view.scroll - 1;
                }
                Action::Redraw
            },
            Data::Command(SignalType::ScrollD) => {
                view.scroll = view.scroll + 1;
                Action::Redraw
            },
            Data::Command(SignalType::ScrollLU) => {
                if view.link_scroll != 0 {
                    view.link_scroll = view.link_scroll - 1;
                }
                Action::Redraw
            },
            Data::Command(SignalType::ScrollLD) => {
                view.link_scroll = view.link_scroll + 1;
                Action::Redraw
            },
            Data::Command(SignalType::Go) => {
                if self.mode == Mode::Editing {
                    let mut target = String::new();
                    std::mem::swap(&mut target, &mut self.curr_input);
                    self.mode = Mode::Normal;
                    self.follow_link(view, target.as_str())
                } else {
                    match extract_link(content, view.link_scroll) {
                        Some(target) => self.follow_link(view, target.as_str()),
                        None => Action::LinkMissing,
                    }
                }
            },
            Data::Command(SignalType::NewURI) => {
                self.mode = Mode::Editing;
                Action::Redraw
            },
            Data::Command(SignalType::HistoryBack) => {
                if self.history.len() > 1 {
                    let ghost h = strings(self.history@);
                    let last = self.history.pop().unwrap();
                    self.future.push(last);
                    let target = self.history[self.history.len() - 1].clone();
                    assert(strings(self.history@) =~= h.drop_last());
                    view.scroll = 0;
                    view.link_scroll = 0;
                    Action::Navigate(UrlParsed::new(target.as_str()))
                } else {
                    Action::Idle
                }
            },
            Data::Command(SignalType::HistoryForward) => {
                if self.future.len() > 0 {
                    let ghost f = strings(self.future@);
                    let target = self.future.pop().unwrap();
                    let url = UrlParsed::new(target.as_str());
                    self.history.push(target);
                    assert(strings(self.future@) =~= f.drop_last());
                    view.scroll = 0;
                    view.link_scroll = 0;
                    Action::Navigate(url)
                } else {
                    Action::Idle
                }
            },
            Data::Command(SignalType::BackSpace) => {
                pop_char(&mut self.curr_input);
                Action::Redraw
            },
        }
    }
}

} // verus!
