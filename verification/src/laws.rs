//! Properties that hold across the library's operations.
use vstd::prelude::*;
use crate::interface::input::{key_effect, Data, Key, SignalType};
use crate::networking::{
    chars_spanning, response_result, url_of, utf8_width, ResponseError, Scheme,
};
use crate::networking::status::{is_digit, is_status_line};
use crate::parser::{
    is_link_line, link_count, link_target, link_targets, page_lines, shown_page, style_of,
    styled_page, LineKind,
    lemma_link_count_step, lemma_link_count_prefix,
};
use crate::state::{history_entry, react, Effect, Mode, Session};
use crate::text::{
    ends_with, is_word, join, lemma_take_until_prefix, lemma_words_are_words, lemma_words_join,
    lemma_words_trim, split_on, starts_with, strip_prefix_all, strip_suffix_all, take_until, trim,
    words,
};

verus! {

// ----- history -----

/// Going back and then forward again returns to the page one was on, with
/// the history and the pages gone back from as they were.
pub proof fn law_back_then_forward(s: Session, content: Seq<char>)
    requires
        s.history.len() > 1,
    ensures
        ({
            let s1 = react(s, content, Data::Command(SignalType::HistoryBack)).0;
            let (s2, e2) = react(s1, content, Data::Command(SignalType::HistoryForward));
            &&& s2.history == s.history
            &&& s2.future == s.future
            &&& s2.input == s.input
            &&& s2.mode == s.mode
            &&& e2 == Effect::Visit(s.history.last())
        }),
{
    let s1 = react(s, content, Data::Command(SignalType::HistoryBack)).0;
    assert(s1.future.last() == s.history.last());
    assert(s1.future.drop_last() =~= s.future);
    assert(s1.history.push(s.history.last()) =~= s.history);
}

/// Going forward and then back again returns to the page one was on, with
/// the history and the pages gone back from as they were.
pub proof fn law_forward_then_back(s: Session, content: Seq<char>)
    requires
        s.future.len() > 0,
        s.history.len() > 0,
    ensures
        ({
            let s1 = react(s, content, Data::Command(SignalType::HistoryForward)).0;
            let (s2, e2) = react(s1, content, Data::Command(SignalType::HistoryBack));
            &&& s2.history == s.history
            &&& s2.future == s.future
            &&& s2.input == s.input
            &&& s2.mode == s.mode
            &&& e2 == Effect::Visit(s.history.last())
        }),
{
    let s1 = react(s, content, Data::Command(SignalType::HistoryForward)).0;
    assert(s1.history.drop_last() =~= s.history);
    assert(s1.future.push(s1.history.last()) =~= s.future);
}

/// Moving through the history neither loses nor adds pages: the history and
/// the pages gone back from hold as many entries together as before.
pub proof fn law_history_moves_keep_pages(s: Session, content: Seq<char>, ev: Data)
    requires
        ev == Data::Command(SignalType::HistoryBack) || ev == Data::Command(
            SignalType::HistoryForward,
        ),
    ensures
        ({
            let s1 = react(s, content, ev).0;
            s1.history.len() + s1.future.len() == s.history.len() + s.future.len()
        }),
{
}

/// No command empties a history that has a page in it.
pub proof fn law_history_stays_nonempty(s: Session, content: Seq<char>, ev: Data)
    requires
        s.history.len() > 0,
    ensures
        react(s, content, ev).0.history.len() > 0,
{
}

/// Following an address (typed, or the selected link) adds exactly one
/// history entry and leaves the pages gone back from as they were.
pub proof fn law_follow_records_one_entry(s: Session, content: Seq<char>)
    ensures
        ({
            let (s1, e) = react(s, content, Data::Command(SignalType::Go));
            e is Visit ==> {
                &&& s1.history == s.history.push(history_entry(e->0))
                &&& s1.future == s.future
            }
        }),
{
}

// ----- typing and scrolling -----

/// Typing a character and erasing it leaves the address being typed as it
/// was.
pub proof fn law_erase_undoes_typing(s: Session, content: Seq<char>, c: char)
    ensures
        ({
            let s1 = react(s, content, Data::Char(c)).0;
            react(s1, content, Data::Command(SignalType::BackSpace)).0 == s
        }),
{
    let s1 = react(s, content, Data::Char(c)).0;
    assert(s1.input.drop_last() =~= s.input);
}

/// Scrolling down and back up, or moving the link cursor down and back up,
/// returns to where one was.
pub proof fn law_scroll_undone(s: Session, content: Seq<char>)
    requires
        s.scroll >= 0,
        s.link_scroll >= 0,
    ensures
        ({
            let s1 = react(s, content, Data::Command(SignalType::ScrollD)).0;
            react(s1, content, Data::Command(SignalType::ScrollU)).0 == s
        }),
        ({
            let s1 = react(s, content, Data::Command(SignalType::ScrollLD)).0;
            react(s1, content, Data::Command(SignalType::ScrollLU)).0 == s
        }),
{
}

// ----- keyboard -----

/// The keyboard reader's input mode and the browser's mode stay the same:
/// after any key, the mode the reader moves to is the mode the browser is in
/// once it has carried out what the key sent.
pub proof fn law_modes_agree(s: Session, content: Seq<char>, key: Key)
    ensures
        ({
            let (m, sent) = key_effect(s.mode, key);
            match sent {
                Some(ev) => react(s, content, ev).0.mode == m,
                None => m == s.mode,
            }
        }),
{
}

/// The input mode and the messages sent after reading `keys` one by one,
/// starting in `mode`.
pub open spec fn read_keys(mode: Mode, keys: Seq<Key>) -> (Mode, Seq<Data>)
    decreases keys.len(),
{
    if keys.len() == 0 {
        (mode, Seq::empty())
    } else {
        let (m, sent) = read_keys(mode, keys.drop_last());
        let (m2, d) = key_effect(m, keys.last());
        (
            m2,
            match d {
                Some(x) => sent.push(x),
                None => sent,
            },
        )
    }
}

/// Whether an address is being typed after the messages `ms`: from a
/// `NewURI` up to the next `Go`.
pub open spec fn editing_after(ms: Seq<Data>) -> bool
    decreases ms.len(),
{
    if ms.len() == 0 {
        false
    } else if ms.last() == Data::Command(SignalType::NewURI) {
        true
    } else if ms.last() == Data::Command(SignalType::Go) {
        false
    } else {
        editing_after(ms.drop_last())
    }
}

/// Whether the message `d` may come while an address is being typed
/// (`editing`) or not: typed characters (never a line feed) and Backspace
/// only while typing; `NewURI`, scrolling and history moves only while not;
/// `Go` and `Close` either way.
pub open spec fn allowed(editing: bool, d: Data) -> bool {
    match d {
        Data::Char(c) => editing && c != '\n',
        Data::Command(SignalType::BackSpace) => editing,
        Data::Command(SignalType::Go) => true,
        Data::Command(SignalType::Close) => true,
        Data::Command(_) => !editing,
    }
}

/// Every message of `ms` is allowed where it stands.
pub open spec fn well_ordered(ms: Seq<Data>) -> bool {
    forall|i: int| 0 <= i < ms.len() ==> allowed(editing_after(ms.take(i)), #[trigger] ms[i])
}

/// Whatever keys are pressed, the keyboard reader (which starts in normal
/// mode) sends typed characters and Backspace only between a `NewURI` and
/// the next `Go`, sends `NewURI`, scrolling and history moves only outside
/// such spans, never sends a typed line feed, and is in editing mode exactly
/// inside such a span.
pub proof fn law_key_sequences(keys: Seq<Key>)
    ensures
        ({
            let (m, sent) = read_keys(Mode::Normal, keys);
            &&& well_ordered(sent)
            &&& (m == Mode::Editing <==> editing_after(sent))
        }),
    decreases keys.len(),
{
    if keys.len() > 0 {
        law_key_sequences(keys.drop_last());
        let (m, sent) = read_keys(Mode::Normal, keys.drop_last());
        let (m2, d) = key_effect(m, keys.last());
        if let Some(x) = d {
            let s2 = sent.push(x);
            assert(s2.drop_last() =~= sent);
            assert(s2.take(sent.len() as int) =~= sent);
            assert forall|i: int| 0 <= i < s2.len() implies allowed(
                editing_after(s2.take(i)),
                #[trigger] s2[i],
            ) by {
                if i < sent.len() {
                    assert(s2.take(i) =~= sent.take(i));
                    assert(s2[i] == sent[i]);
                }
            }
        }
    }
}

/// The key that types `c`.
pub open spec fn char_key(c: char) -> Key {
    Key::Char(c)
}

/// The message that carries the typed character `c`.
pub open spec fn char_message(c: char) -> Data {
    Data::Char(c)
}

/// The keys for typing the characters `cs`.
pub open spec fn keys_for(cs: Seq<char>) -> Seq<Key>
    decreases cs.len(),
{
    if cs.len() == 0 {
        Seq::empty()
    } else {
        keys_for(cs.drop_last()).push(char_key(cs.last()))
    }
}

/// The messages that carry the typed characters `cs`.
pub open spec fn typed(cs: Seq<char>) -> Seq<Data>
    decreases cs.len(),
{
    if cs.len() == 0 {
        Seq::empty()
    } else {
        typed(cs.drop_last()).push(char_message(cs.last()))
    }
}

/// While an address is being typed, typing any text without a line feed
/// sends exactly its characters, one message each, in order, and stays in
/// editing mode.
pub proof fn law_typing_sends_each_character(cs: Seq<char>)
    requires
        !cs.contains('\n'),
    ensures
        read_keys(Mode::Editing, keys_for(cs)) == (Mode::Editing, typed(cs)),
    decreases cs.len(),
{
    if cs.len() > 0 {
        let d = cs.drop_last();
        assert(!d.contains('\n')) by {
            if d.contains('\n') {
                let i = choose|i: int| 0 <= i < d.len() && d[i] == '\n';
                assert(cs[i] == '\n');
            }
        }
        law_typing_sends_each_character(d);
        assert(keys_for(cs).drop_last() =~= keys_for(d));
        assert(cs.last() != '\n') by {
            assert(cs[cs.len() - 1] == cs.last());
        }
    }
}

/// The session after the commands `ms`, one after another, on the page
/// `content`.
pub open spec fn react_all(s: Session, content: Seq<char>, ms: Seq<Data>) -> Session
    decreases ms.len(),
{
    if ms.len() == 0 {
        s
    } else {
        react(react_all(s, content, ms.drop_last()), content, ms.last()).0
    }
}

/// Typed characters are added to the address being typed exactly as they
/// come, in order, and change nothing else.
pub proof fn law_typed_text_is_appended(s: Session, content: Seq<char>, cs: Seq<char>)
    ensures
        ({
            let s2 = react_all(s, content, typed(cs));
            &&& s2.input == s.input + cs
            &&& s2.history == s.history
            &&& s2.future == s.future
            &&& s2.mode == s.mode
            &&& s2.scroll == s.scroll
            &&& s2.link_scroll == s.link_scroll
        }),
    decreases cs.len(),
{
    if cs.len() > 0 {
        let d = cs.drop_last();
        law_typed_text_is_appended(s, content, d);
        assert(typed(cs).drop_last() =~= typed(d));
        assert((s.input + d).push(cs.last()) =~= s.input + cs);
    } else {
        assert(s.input + cs =~= s.input);
    }
}

/// Typing a text into the address bar and pressing Enter goes to exactly
/// the address typed.
pub proof fn law_enter_goes_to_typed_text(s: Session, content: Seq<char>, cs: Seq<char>)
    requires
        s.mode == Mode::Editing,
    ensures
        react(react_all(s, content, typed(cs)), content, Data::Command(SignalType::Go)).1
            == Effect::Visit(s.input + cs),
{
    law_typed_text_is_appended(s, content, cs);
}

// ----- addresses -----

/// A Gemini address connects to port 1965, every other one to port 443.
pub proof fn law_port_follows_scheme(n: Seq<char>)
    ensures
        url_of(n).port == ":1965"@ <==> url_of(n).scheme == Scheme::Gemini,
{
    reveal_strlit(":1965");
    reveal_strlit(":443");
    assert(":1965"@.len() != ":443"@.len());
}

/// Going back to the history entry of a Gemini address sends the same
/// request to the same port as the first visit, for every address that does
/// not end with `/` CR LF and is not CR LF alone; the host is the same too
/// when the address begins with `gemini://` or holds no `/`.
pub proof fn law_history_entry_same_request(n: Seq<char>)
    requires
        url_of(n).scheme == Scheme::Gemini,
        !ends_with(n, "/\r\n"@),
        n != "\r\n"@,
    ensures
        url_of(history_entry(n)).request == url_of(n).request,
        url_of(history_entry(n)).scheme == Scheme::Gemini,
        url_of(history_entry(n)).port == url_of(n).port,
        starts_with(n, "gemini://"@) || !n.contains('/') ==> url_of(history_entry(n)).name
            == url_of(n).name,
{
    reveal_strlit("gemini://");
    reveal_strlit("/\r\n");
    reveal_strlit("file://");
    reveal_strlit("https://");
    reveal_strlit("help://");
    let g = "gemini://"@;
    let t = "/\r\n"@;
    let req = url_of(n).request;
    if starts_with(n, g) {
        assert(req == n + t);
        assert(ends_with(req, t)) by {
            assert(req.skip(req.len() - t.len()) =~= t);
        }
        assert(req.take(req.len() - t.len()) =~= n);
        assert(strip_suffix_all(n, t) == n);
        assert(history_entry(n) == n);
    } else {
        assert(req == g + n + t);
        assert(ends_with(req, t)) by {
            assert(req.skip(req.len() - t.len()) =~= t);
        }
        let e = g + n;
        assert(req.take(req.len() - t.len()) =~= e);
        reveal_strlit("\r\n");
        assert(!ends_with(e, t)) by {
            if ends_with(e, t) {
                let k = e.skip(e.len() - t.len());
                assert(k =~= t);
                if n.len() >= 3 {
                    assert(n.skip(n.len() - t.len()) =~= k);
                } else if n.len() == 2 {
                    assert(k[1] == n[0]);
                    assert(k[2] == n[1]);
                    assert(n =~= "\r\n"@);
                } else if n.len() == 1 {
                    assert(k[1] == g[8]);
                } else {
                    assert(k[0] == g[6]);
                }
            }
        }
        assert(strip_suffix_all(e, t) == e);
        assert(history_entry(n) == e);
        assert(starts_with(e, g)) by {
            assert(e.take(g.len() as int) =~= g);
        }
        assert(!starts_with(e, "file://"@)) by {
            if starts_with(e, "file://"@) {
                assert(e.take(7)[0] == 'f');
            }
        }
        assert(!starts_with(e, "https://"@)) by {
            if starts_with(e, "https://"@) {
                assert(e.take(8)[0] == 'h');
            }
        }
        assert(e != "help://"@) by {
            if e == "help://"@ {
                assert(e[0] == 'h');
            }
        }
        if !n.contains('/') {
            assert(e.skip(g.len() as int) =~= n);
            assert(strip_prefix_all(n, g) == n);
            assert(strip_prefix_all(e, g) == n);
            lemma_take_until_absent(n, '/');
        }
    }
}

/// Text without `d` is kept whole by `take_until`.
proof fn lemma_take_until_absent(s: Seq<char>, d: char)
    requires
        !s.contains(d),
    ensures
        take_until(s, d) == s,
    decreases s.len(),
{
    if s.len() > 0 {
        assert(s[0] != d);
        assert(!s.drop_first().contains(d)) by {
            if s.drop_first().contains(d) {
                let i = choose|i: int| 0 <= i < s.drop_first().len() && s.drop_first()[i] == d;
                assert(s[i + 1] == d);
            }
        }
        lemma_take_until_absent(s.drop_first(), d);
        assert(s =~= seq![s[0]] + s.drop_first());
    }
}

// ----- pages -----

/// The number of times `d` occurs in `s`.
pub open spec fn count_char(s: Seq<char>, d: char) -> nat
    decreases s.len(),
{
    if s.len() == 0 {
        0
    } else {
        count_char(s.drop_last(), d) + if s.last() == d {
            1nat
        } else {
            0nat
        }
    }
}

proof fn lemma_split_len(s: Seq<char>, d: char)
    ensures
        split_on(s, d).len() == count_char(s, d) + 1,
    decreases s.len(),
{
    if s.len() > 0 {
        lemma_split_len(s.drop_last(), d);
    }
}

/// A page is shown as one line more than it has line breaks.
pub proof fn law_one_line_per_line_break(content: Seq<char>, link_scroll: int)
    ensures
        styled_page(content, link_scroll).len() == count_char(content, '\n') + 1,
{
    lemma_split_len(content, '\n');
}

/// The scroll position passed to `parse` never changes the lines shown.
pub proof fn law_parse_ignores_scroll(content: Seq<char>, link_scroll: int, s1: int, s2: int)
    ensures
        shown_page(content, link_scroll, s1) == shown_page(content, link_scroll, s2),
{
}

/// A link line with a label shows every label word, in order, joined by
/// single spaces: the words after its address.
pub proof fn law_link_label_keeps_every_word(x: Seq<char>, selected: bool)
    requires
        is_link_line(x),
        words(x.skip(2)).len() > 1,
    ensures
        words(style_of(x, selected).1) == words(x.skip(2)).skip(1),
        style_of(x, selected).1 == join(words(x.skip(2)).skip(1), seq![' ']),
        style_of(x, selected).0 == if selected {
            LineKind::SelectedLink
        } else {
            LineKind::Link
        },
{
    let b = x.skip(2);
    lemma_words_trim(b);
    lemma_words_are_words(b);
    let ws = words(b).skip(1);
    assert forall|i: int| 0 <= i < ws.len() implies is_word(#[trigger] ws[i]) by {
        assert(ws[i] == words(b)[i + 1]);
    }
    lemma_words_join(ws);
}

/// The address of a link line is the first word after `=>`, every
/// character kept, when a label follows it; without a label it is the whole
/// text after `=>`, trimmed.
pub proof fn law_link_address_is_first_word(x: Seq<char>)
    requires
        is_link_line(x),
    ensures
        words(x.skip(2)).len() > 1 ==> link_target(x) == words(x.skip(2))[0],
        words(x.skip(2)).len() <= 1 ==> link_target(x) == trim(x.skip(2)),
{
    lemma_words_trim(x.skip(2));
}

/// Link lines further down have higher numbers.
proof fn lemma_links_numbered_in_order(lines: Seq<Seq<char>>, i: int, j: int)
    requires
        0 <= i < j < lines.len(),
        is_link_line(lines[i]),
    ensures
        link_count(lines.take(i)) < link_count(lines.take(j)),
    decreases j - i,
{
    lemma_link_count_step(lines, i);
    if j > i + 1 {
        lemma_count_mono(lines, i + 1, j);
    }
}

proof fn lemma_count_mono(lines: Seq<Seq<char>>, i: int, j: int)
    requires
        0 <= i <= j <= lines.len(),
    ensures
        link_count(lines.take(i)) <= link_count(lines.take(j)),
    decreases j - i,
{
    if i < j {
        lemma_link_count_step(lines, i);
        lemma_count_mono(lines, i + 1, j);
    }
}

/// Every link number below the number of links belongs to a link line, and
/// that line's address is the address at that number.
proof fn lemma_link_number_found(lines: Seq<Seq<char>>, k: int)
    requires
        0 <= k < link_count(lines),
    ensures
        exists|i: int|
            0 <= i < lines.len() && is_link_line(lines[i]) && link_count(lines.take(i)) == k,
    decreases lines.len(),
{
    let p = lines.drop_last();
    let last = lines.len() - 1;
    assert(lines.take(last) =~= p);
    if k < link_count(p) {
        lemma_link_number_found(p, k);
        let i = choose|i: int| 0 <= i < p.len() && is_link_line(p[i]) && link_count(p.take(i)) == k;
        assert(lines.take(i) =~= p.take(i));
        assert(lines[i] == p[i]);
    } else {
        assert(is_link_line(lines[last]));
        assert(link_count(lines.take(last)) == k);
    }
}

/// The address at a link line's number is that line's address.
proof fn lemma_target_at_number(lines: Seq<Seq<char>>, i: int)
    requires
        0 <= i < lines.len(),
        is_link_line(lines[i]),
    ensures
        link_count(lines.take(i)) < link_targets(lines).len(),
        link_targets(lines)[link_count(lines.take(i)) as int] == link_target(lines[i]),
    decreases lines.len(),
{
    let p = lines.drop_last();
    let last = lines.len() - 1;
    assert(lines.take(last) =~= p);
    crate::parser::lemma_link_targets_len(lines);
    crate::parser::lemma_link_targets_len(p);
    if i < last {
        lemma_target_at_number(p, i);
        assert(lines.take(i) =~= p.take(i));
    }
}

/// At most one line of a page is the selected link; there is one exactly
/// when the link cursor is on one of the page's links; and its address is
/// the one that following the selected link loads.
pub proof fn law_selected_link(content: Seq<char>, link_scroll: int)
    ensures
        ({
            let p = styled_page(content, link_scroll);
            let lines = page_lines(content);
            &&& forall|i: int, j: int|
                0 <= i < p.len() && 0 <= j < p.len() && p[i].0 == LineKind::SelectedLink
                    && p[j].0 == LineKind::SelectedLink ==> i == j
            &&& (exists|i: int| 0 <= i < p.len() && p[i].0 == LineKind::SelectedLink) <==> 0
                <= link_scroll < link_count(lines)
            &&& forall|i: int|
                0 <= i < p.len() && p[i].0 == LineKind::SelectedLink ==> link_targets(
                    lines,
                )[link_scroll] == link_target(lines[i])
        }),
{
    let p = styled_page(content, link_scroll);
    let lines = page_lines(content);
    assert forall|i: int| 0 <= i < p.len() implies (p[i].0 == LineKind::SelectedLink <==> (
    is_link_line(lines[i]) && link_count(lines.take(i)) == link_scroll)) by {}
    assert forall|i: int, j: int|
        0 <= i < p.len() && 0 <= j < p.len() && p[i].0 == LineKind::SelectedLink && p[j].0
            == LineKind::SelectedLink implies i == j by {
        if i < j {
            lemma_links_numbered_in_order(lines, i, j);
        } else if j < i {
            lemma_links_numbered_in_order(lines, j, i);
        }
    }
    if 0 <= link_scroll < link_count(lines) {
        lemma_link_number_found(lines, link_scroll);
        let i = choose|i: int|
            0 <= i < lines.len() && is_link_line(lines[i]) && link_count(lines.take(i))
                == link_scroll;
        assert(p[i].0 == LineKind::SelectedLink);
    }
    assert forall|i: int| 0 <= i < p.len() && p[i].0 == LineKind::SelectedLink implies 0
        <= link_scroll < link_count(lines) && link_targets(lines)[link_scroll] == link_target(
        lines[i],
    ) by {
        lemma_target_at_number(lines, i);
        lemma_link_count_prefix(lines, i);
        crate::parser::lemma_link_targets_len(lines);
    }
}

// ----- responses -----

/// A page is shown only for a response that begins with a success status:
/// `2`, a digit and a space; a well-formed status line whose first digit is
/// not `2` is always an error.
pub proof fn law_only_success_shows_page(data: Seq<char>)
    ensures
        response_result(data) is Ok ==> data.len() >= 3 && data[0] == '2' && is_digit(data[1])
            && data[2] == ' ',
        data.len() >= 3 && is_digit(data[0]) && data[0] != '2' && is_digit(data[1]) && data[2]
            == ' ' ==> response_result(data) is Err,
{
    lemma_take_until_prefix(data, '\n');
    let h = take_until(data, '\n');
    if data.len() >= 3 && is_digit(data[0]) && is_digit(data[1]) && data[2] == ' ' {
        assert(h.len() >= 3) by {
            if h.len() < 3 {
                assert(data[h.len() as int] == '\n');
            }
        }
    }
    if response_result(data) is Ok {
        assert(is_status_line(h));
        assert(h[0] == data[0] && h[1] == data[1] && h[2] == data[2]);
    }
}

proof fn lemma_take_until_header(h: Seq<char>, b: Seq<char>)
    requires
        forall|i: int| 0 <= i < h.len() ==> h[i] != '\n',
    ensures
        take_until(h + seq!['\n'] + b, '\n') == h,
    decreases h.len(),
{
    let d = h + seq!['\n'] + b;
    if h.len() == 0 {
        assert(d[0] == '\n');
    } else {
        lemma_take_until_header(h.drop_first(), b);
        assert(d.drop_first() =~= h.drop_first() + seq!['\n'] + b);
        assert(h =~= seq![h[0]] + h.drop_first());
    }
}

proof fn lemma_ascii_span(s: Seq<char>, n: int)
    requires
        0 <= n <= s.len(),
        forall|i: int| 0 <= i < n ==> (s[i] as u32) < 0x80,
    ensures
        chars_spanning(s, n) == Some(n as nat),
    decreases n,
{
    if n > 0 {
        assert(utf8_width(s[0]) == 1);
        assert forall|i: int| 0 <= i < n - 1 implies (s.drop_first()[i] as u32) < 0x80 by {
            assert(s.drop_first()[i] == s[i + 1]);
        }
        lemma_ascii_span(s.drop_first(), n - 1);
    }
}

/// For a response whose status line is ASCII and reports success, the page
/// shown is exactly what follows the status line's line break.
pub proof fn law_success_shows_rest(h: Seq<char>, b: Seq<char>)
    requires
        forall|i: int| 0 <= i < h.len() ==> h[i] != '\n' && (h[i] as u32) < 0x80,
        is_status_line(h),
        h[0] == '2',
        h.len() < i32::MAX,
    ensures
        response_result(h + seq!['\n'] + b) == Ok::<Seq<char>, ResponseError>(b),
{
    let d = h + seq!['\n'] + b;
    lemma_take_until_header(h, b);
    lemma_ascii_span(d, h.len() + 1int);
    assert(d.skip(h.len() + 1int) =~= b);
}

} // verus!
