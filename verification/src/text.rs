//! Character-sequence operations that the browser's text handling is built
//! from: whitespace, trimming, prefixes and suffixes, splitting and joining.
use vstd::prelude::*;

verus! {

/// Unicode `White_Space` code points: the characters for which
/// `char::is_whitespace` holds.
pub open spec fn is_ws(c: char) -> bool {
    ||| ('\u{9}' <= c && c <= '\u{d}')
    ||| c == ' '
    ||| c == '\u{85}'
    ||| c == '\u{a0}'
    ||| c == '\u{1680}'
    ||| ('\u{2000}' <= c && c <= '\u{200a}')
    ||| c == '\u{2028}'
    ||| c == '\u{2029}'
    ||| c == '\u{202f}'
    ||| c == '\u{205f}'
    ||| c == '\u{3000}'
}

/// `s` begins with `p`.
pub open spec fn starts_with(s: Seq<char>, p: Seq<char>) -> bool {
    p.len() <= s.len() && s.take(p.len() as int) == p
}

/// `s` ends with `p`.
pub open spec fn ends_with(s: Seq<char>, p: Seq<char>) -> bool {
    p.len() <= s.len() && s.skip(s.len() - p.len()) == p
}

/// `s` with every leading repetition of `p` removed (`str::trim_start_matches`).
pub open spec fn strip_prefix_all(s: Seq<char>, p: Seq<char>) -> Seq<char>
    decreases s.len(),
{
    if p.len() > 0 && starts_with(s, p) {
        strip_prefix_all(s.skip(p.len() as int), p)
    } else {
        s
    }
}

/// `s` with every trailing repetition of `p` removed (`str::trim_end_matches`).
pub open spec fn strip_suffix_all(s: Seq<char>, p: Seq<char>) -> Seq<char>
    decreases s.len(),
{
    if p.len() > 0 && ends_with(s, p) {
        strip_suffix_all(s.take(s.len() - p.len()), p)
    } else {
        s
    }
}

/// `s` without its leading whitespace.
pub open spec fn trim_start(s: Seq<char>) -> Seq<char>
    decreases s.len(),
{
    if s.len() > 0 && is_ws(s[0]) {
        trim_start(s.drop_first())
    } else {
        s
    }
}

/// `s` without its trailing whitespace.
pub open spec fn trim_end(s: Seq<char>) -> Seq<char>
    decreases s.len(),
{
    if s.len() > 0 && is_ws(s.last()) {
        trim_end(s.drop_last())
    } else {
        s
    }
}

/// `s` without whitespace at either end (`str::trim`).
pub open spec fn trim(s: Seq<char>) -> Seq<char> {
    trim_end(trim_start(s))
}

/// The part of `s` before the first `d`, or all of `s` when it holds no `d`.
pub open spec fn take_until(s: Seq<char>, d: char) -> Seq<char>
    decreases s.len(),
{
    if s.len() == 0 || s[0] == d {
        Seq::empty()
    } else {
        seq![s[0]] + take_until(s.drop_first(), d)
    }
}

/// The pieces of `s` between the occurrences of `d` (`str::split` on a
/// character): one more piece than there are `d`s, empty pieces included.
pub open spec fn split_on(s: Seq<char>, d: char) -> Seq<Seq<char>>
    decreases s.len(),
{
    if s.len() == 0 {
        seq![Seq::empty()]
    } else {
        let p = split_on(s.drop_last(), d);
        if s.last() == d {
            p.push(Seq::empty())
        } else {
            p.update(p.len() - 1, p.last().push(s.last()))
        }
    }
}

/// The maximal runs of non-whitespace characters of `s`, in order
/// (`str::split_whitespace`).
pub open spec fn words(s: Seq<char>) -> Seq<Seq<char>>
    decreases s.len(),
{
    if s.len() == 0 {
        Seq::empty()
    } else {
        let p = words(s.drop_last());
        if is_ws(s.last()) {
            p
        } else if s.len() >= 2 && !is_ws(s[s.len() - 2]) {
            p.update(p.len() - 1, p.last().push(s.last()))
        } else {
            p.push(seq![s.last()])
        }
    }
}

/// The pieces of `ws` in order with `sep` between each two (`[&str]::join`).
pub open spec fn join(ws: Seq<Seq<char>>, sep: Seq<char>) -> Seq<char>
    decreases ws.len(),
{
    if ws.len() == 0 {
        Seq::empty()
    } else if ws.len() == 1 {
        ws[0]
    } else {
        join(ws.drop_last(), sep) + sep + ws.last()
    }
}

/// A non-empty run of non-whitespace characters.
pub open spec fn is_word(w: Seq<char>) -> bool {
    w.len() > 0 && forall|j: int| 0 <= j < w.len() ==> !is_ws(#[trigger] w[j])
}

/// Every piece that `words` gives is a word.
pub proof fn lemma_words_are_words(s: Seq<char>)
    ensures
        forall|i: int| 0 <= i < words(s).len() ==> is_word(#[trigger] words(s)[i]),
    decreases s.len(),
{
    if s.len() > 0 {
        lemma_words_are_words(s.drop_last());
        let p = words(s.drop_last());
        if !is_ws(s.last()) && s.len() >= 2 && !is_ws(s[s.len() - 2]) {
            lemma_words_nonempty(s.drop_last());
            let w = p.last().push(s.last());
            assert(is_word(p[p.len() - 1]));
            assert forall|j: int| 0 <= j < w.len() implies !is_ws(#[trigger] w[j]) by {
                if j < w.len() - 1 {
                    assert(w[j] == p[p.len() - 1][j]);
                }
            }
        }
    }
}

/// A sequence ending in a non-whitespace character has at least one word.
proof fn lemma_words_nonempty(s: Seq<char>)
    requires
        s.len() > 0,
        !is_ws(s.last()),
    ensures
        words(s).len() >= 1,
    decreases s.len(),
{
    if s.len() >= 2 && !is_ws(s[s.len() - 2]) {
        lemma_words_nonempty(s.drop_last());
    }
}

/// Leading whitespace does not change the words.
pub proof fn lemma_words_ws_prefix(c: char, t: Seq<char>)
    requires
        is_ws(c),
    ensures
        words(seq![c] + t) == words(t),
    decreases t.len(),
{
    let s = seq![c] + t;
    if t.len() == 0 {
        assert(s.drop_last() =~= Seq::<char>::empty());
        assert(t =~= Seq::<char>::empty());
        assert(s.last() == c);
        assert(words(s) == words(s.drop_last()));
        assert(words(s) == words(t));
    } else if t.len() == 1 {
        assert(s.drop_last() =~= seq![c]);
        assert(seq![c].drop_last() =~= Seq::<char>::empty());
        assert(words(seq![c]) == words(Seq::<char>::empty()));
        assert(t.drop_last() =~= Seq::<char>::empty());
        assert(s.last() == t.last());
        assert(s[0] == c);
        let e = words(Seq::<char>::empty());
        if is_ws(t.last()) {
            assert(words(s) == words(seq![c]));
            assert(words(t) == e);
        } else {
            assert(words(s) == words(seq![c]).push(seq![s.last()]));
            assert(words(t) == e.push(seq![t.last()]));
        }
        assert(words(s) == words(t));
    } else {
        assert(s.drop_last() =~= seq![c] + t.drop_last());
        lemma_words_ws_prefix(c, t.drop_last());
        let ps = words(s.drop_last());
        let pt = words(t.drop_last());
        assert(ps == pt);
        assert(s.last() == t.last());
        assert(s[s.len() - 2] == t[t.len() - 2]);
        if is_ws(t.last()) {
            assert(words(s) == ps);
            assert(words(t) == pt);
        } else if !is_ws(t[t.len() - 2]) {
            assert(words(s) == ps.update(ps.len() - 1, ps.last().push(s.last())));
            assert(words(t) == pt.update(pt.len() - 1, pt.last().push(t.last())));
        } else {
            assert(words(s) == ps.push(seq![s.last()]));
            assert(words(t) == pt.push(seq![t.last()]));
        }
        assert(words(s) == words(t));
    }
}

/// Trimming does not change the words.
pub proof fn lemma_words_trim(s: Seq<char>)
    ensures
        words(trim(s)) == words(s),
{
    lemma_words_trim_start(s);
    lemma_words_trim_end(trim_start(s));
}

proof fn lemma_words_trim_start(s: Seq<char>)
    ensures
        words(trim_start(s)) == words(s),
    decreases s.len(),
{
    if s.len() > 0 && is_ws(s[0]) {
        lemma_words_trim_start(s.drop_first());
        lemma_words_ws_prefix(s[0], s.drop_first());
        assert(s =~= seq![s[0]] + s.drop_first());
    }
}

proof fn lemma_words_trim_end(s: Seq<char>)
    ensures
        words(trim_end(s)) == words(s),
    decreases s.len(),
{
    if s.len() > 0 && is_ws(s.last()) {
        lemma_words_trim_end(s.drop_last());
    }
}

/// A word alone has itself as its only word.
pub proof fn lemma_words_of_word(w: Seq<char>)
    requires
        is_word(w),
    ensures
        words(w) == seq![w],
    decreases w.len(),
{
    assert(!is_ws(w[w.len() - 1]));
    if w.len() == 1 {
        assert(w.drop_last() =~= Seq::<char>::empty());
        assert(words(w.drop_last()) =~= Seq::<Seq<char>>::empty());
        assert(seq![w.last()] =~= w);
        assert(Seq::<Seq<char>>::empty().push(seq![w.last()]) =~= seq![w]);
    } else {
        let d = w.drop_last();
        assert(is_word(d)) by {
            assert forall|j: int| 0 <= j < d.len() implies !is_ws(#[trigger] d[j]) by {
                assert(d[j] == w[j]);
            }
        }
        lemma_words_of_word(d);
        assert(!is_ws(w[w.len() - 2]));
        assert(d.push(w.last()) =~= w);
        assert(seq![d].update(0, seq![d].last().push(w.last())) =~= seq![w]);
    }
}

/// A word after a space is one more word.
pub proof fn lemma_words_after_space(a: Seq<char>, w: Seq<char>)
    requires
        is_word(w),
    ensures
        words(a + seq![' '] + w) == words(a).push(w),
    decreases w.len(),
{
    let s = a + seq![' '] + w;
    assert(!is_ws(w[w.len() - 1]));
    assert(s.last() == w.last());
    if w.len() == 1 {
        let b = a + seq![' '];
        assert(s.drop_last() =~= b);
        assert(b.drop_last() =~= a);
        assert(words(b) == words(a));
        assert(s[s.len() - 2] == ' ');
        assert(seq![w.last()] =~= w);
    } else {
        let d = w.drop_last();
        assert(is_word(d)) by {
            assert forall|j: int| 0 <= j < d.len() implies !is_ws(#[trigger] d[j]) by {
                assert(d[j] == w[j]);
            }
        }
        assert(s.drop_last() =~= a + seq![' '] + d);
        lemma_words_after_space(a, d);
        assert(s[s.len() - 2] == w[w.len() - 2]);
        assert(d.push(w.last()) =~= w);
        assert(words(a).push(d).update(words(a).len() as int, w) =~= words(a).push(w));
    }
}

/// Words joined by single spaces split back into the same words.
pub proof fn lemma_words_join(ws: Seq<Seq<char>>)
    requires
        forall|i: int| 0 <= i < ws.len() ==> is_word(#[trigger] ws[i]),
    ensures
        words(join(ws, seq![' '])) == ws,
    decreases ws.len(),
{
    if ws.len() == 0 {
        assert(words(Seq::<char>::empty()) =~= ws);
    } else if ws.len() == 1 {
        assert(is_word(ws[0]));
        lemma_words_of_word(ws[0]);
        assert(seq![ws[0]] =~= ws);
    } else {
        let d = ws.drop_last();
        assert forall|i: int| 0 <= i < d.len() implies is_word(#[trigger] d[i]) by {
            assert(d[i] == ws[i]);
        }
        lemma_words_join(d);
        assert(is_word(ws[ws.len() - 1]));
        lemma_words_after_space(join(d, seq![' ']), ws.last());
        assert(d.push(ws.last()) =~= ws);
    }
}

/// `take_until` gives a prefix, which ends at the end or just before a `d`.
pub proof fn lemma_take_until_prefix(s: Seq<char>, d: char)
    ensures
        take_until(s, d).len() <= s.len(),
        forall|i: int| 0 <= i < take_until(s, d).len() ==> take_until(s, d)[i] == s[i],
        take_until(s, d).len() < s.len() ==> s[take_until(s, d).len() as int] == d,
    decreases s.len(),
{
    if s.len() > 0 && s[0] != d {
        lemma_take_until_prefix(s.drop_first(), d);
        let t = take_until(s.drop_first(), d);
        assert(take_until(s, d) == seq![s[0]] + t);
        assert forall|i: int| 0 <= i < take_until(s, d).len() implies take_until(s, d)[i]
            == s[i] by {
            if i > 0 {
                assert(take_until(s, d)[i] == t[i - 1]);
                assert(s.drop_first()[i - 1] == s[i]);
            }
        }
    }
}

pub fn is_whitespace(c: char) -> (r: bool)
    ensures
        r == is_ws(c),
{
    ('\u{9}' <= c && c <= '\u{d}') || c == ' ' || c == '\u{85}' || c == '\u{a0}' || c == '\u{1680}'
        || ('\u{2000}' <= c && c <= '\u{200a}') || c == '\u{2028}' || c == '\u{2029}'
        || c == '\u{202f}' || c == '\u{205f}' || c == '\u{3000}'
}

/// The characters of `s`, in order.
pub fn chars_of(s: &str) -> (v: Vec<char>)
    ensures
        v@ == s@,
{
    let mut v: Vec<char> = Vec::new();
    for c in it: s.chars()
        invariant
            v@ == it.seq().take(it.index() as int),
    {
        v.push(c);
    }
    v
}

/// Appends one character to a `String` (`String::push`).
#[verifier::external_body]
pub(crate) fn push_char(s: &mut String, c: char)
    ensures
        final(s)@ == old(s)@.push(c),
{
    s.push(c);
}

/// Removes the last character of a `String`, if it has one (`String::pop`).
#[verifier::external_body]
pub(crate) fn pop_char(s: &mut String) -> (r: Option<char>)
    ensures
        old(s)@.len() == 0 ==> r is None && final(s)@ == old(s)@,
        old(s)@.len() > 0 ==> r == Some(old(s)@.last()) && final(s)@ == old(s)@.drop_last(),
{
    s.pop()
}

/// The `String` holding the characters of `v`.
pub fn string_of(v: &[char]) -> (r: String)
    ensures
        r@ == v@,
{
    let mut r = String::new();
    let mut i: usize = 0;
    while i < v.len()
        invariant
            i <= v.len(),
            r@ == v@.take(i as int),
        decreases v.len() - i,
    {
        push_char(&mut r, v[i]);
        i = i + 1;
        assert(r@ =~= v@.take(i as int));
    }
    assert(v@.take(v.len() as int) =~= v@);
    r
}

/// The characters `s[from..to]` as a new vector.
pub fn sub_chars(s: &[char], from: usize, to: usize) -> (r: Vec<char>)
    requires
        from <= to <= s.len(),
    ensures
        r@ == s@.subrange(from as int, to as int),
{
    let mut r: Vec<char> = Vec::new();
    let mut i: usize = from;
    while i < to
        invariant
            from <= i <= to <= s.len(),
            r@ == s@.subrange(from as int, i as int),
        decreases to - i,
    {
        r.push(s[i]);
        i = i + 1;
        assert(r@ =~= s@.subrange(from as int, i as int));
    }
    r
}

/// Whether `s[at..]` begins with `p`.
pub fn starts_with_at(s: &[char], at: usize, p: &[char]) -> (r: bool)
    requires
        at <= s.len(),
    ensures
        r == starts_with(s@.skip(at as int), p@),
{
    if p.len() > s.len() - at {
        return false;
    }
    let mut i: usize = 0;
    while i < p.len()
        invariant
            at <= s.len(),
            p.len() <= s.len() - at,
            i <= p.len(),
            forall|k: int| 0 <= k < i ==> s@[at + k] == p@[k],
        decreases p.len() - i,
    {
        if s[at + i] != p[i] {
            assert(s@.skip(at as int).take(p.len() as int)[i as int] != p@[i as int]);
            return false;
        }
        i = i + 1;
    }
    assert(s@.skip(at as int).take(p.len() as int) =~= p@);
    true
}

/// Whether the first `end` characters of `s` end with `p`.
pub fn ends_with_at(s: &[char], end: usize, p: &[char]) -> (r: bool)
    requires
        end <= s.len(),
    ensures
        r == ends_with(s@.take(end as int), p@),
{
    if p.len() > end {
        return false;
    }
    let start = end - p.len();
    let mut i: usize = 0;
    while i < p.len()
        invariant
            end <= s.len(),
            p.len() <= end,
            start == end - p.len(),
            i <= p.len(),
            forall|k: int| 0 <= k < i ==> s@[start + k] == p@[k],
        decreases p.len() - i,
    {
        if s[start + i] != p[i] {
            assert(s@.take(end as int).skip(start as int)[i as int] != p@[i as int]);
            return false;
        }
        i = i + 1;
    }
    assert(s@.take(end as int).skip(start as int) =~= p@);
    true
}

/// `str::trim_start_matches` with a non-empty pattern.
pub fn strip_prefix_all_chars(s: &[char], p: &[char]) -> (r: Vec<char>)
    ensures
        r@ == strip_prefix_all(s@, p@),
{
    let mut pos: usize = 0;
    assert(s@.skip(0) =~= s@);
    if p.len() > 0 {
        while starts_with_at(s, pos, p)
            invariant
                pos <= s.len(),
                p.len() > 0,
                strip_prefix_all(s@, p@) == strip_prefix_all(s@.skip(pos as int), p@),
            decreases s.len() - pos,
        {
            assert(s@.skip(pos as int).skip(p.len() as int) =~= s@.skip(pos + p.len()));
            pos = pos + p.len();
        }
    } else {
        assert(s@.skip(0) =~= s@);
    }
    assert(s@.skip(pos as int) =~= s@.subrange(pos as int, s.len() as int));
    sub_chars(s, pos, s.len())
}

/// `str::trim_end_matches` with a non-empty pattern.
pub fn strip_suffix_all_chars(s: &[char], p: &[char]) -> (r: Vec<char>)
    ensures
        r@ == strip_suffix_all(s@, p@),
{
    let mut end: usize = s.len();
    assert(s@.take(end as int) =~= s@);
    if p.len() > 0 {
        while ends_with_at(s, end, p)
            invariant
                end <= s.len(),
                p.len() > 0,
                strip_suffix_all(s@, p@) == strip_suffix_all(s@.take(end as int), p@),
            decreases end,
        {
            assert(s@.take(end as int).take(end - p.len()) =~= s@.take(end - p.len()));
            end = end - p.len();
        }
    }
    assert(s@.take(end as int) =~= s@.subrange(0, end as int));
    sub_chars(s, 0, end)
}

/// `str::trim`.
pub fn trim_chars(s: &[char]) -> (r: Vec<char>)
    ensures
        r@ == trim(s@),
{
    let mut i: usize = 0;
    assert(s@.skip(0) =~= s@);
    while i < s.len() && is_whitespace(s[i])
        invariant
            i <= s.len(),
            trim_start(s@) == trim_start(s@.skip(i as int)),
        decreases s.len() - i,
    {
        assert(s@.skip(i as int).drop_first() =~= s@.skip(i + 1));
        i = i + 1;
    }
    let ghost t = s@.skip(i as int);
    assert(trim_start(t) == t);
    let mut j: usize = s.len();
    assert(t.take(j - i) =~= t);
    while j > i && is_whitespace(s[j - 1])
        invariant
            i <= j <= s.len(),
            t == s@.skip(i as int),
            trim_end(t) == trim_end(t.take(j - i)),
        decreases j,
    {
        assert(t.take(j - i).drop_last() =~= t.take(j - 1 - i));
        j = j - 1;
    }
    assert(trim_end(t.take(j - i)) == t.take(j - i));
    assert(t.take(j - i) =~= s@.subrange(i as int, j as int));
    sub_chars(s, i, j)
}

/// The characters of `s` before the first `d` (`splitn(2, d).nth(0)`).
pub fn take_until_chars(s: &[char], d: char) -> (r: Vec<char>)
    ensures
        r@ == take_until(s@, d),
{
    let mut i: usize = 0;
    assert(s@.skip(0) =~= s@);
    assert(s@.take(0) + take_until(s@, d) =~= take_until(s@, d));
    while i < s.len() && s[i] != d
        invariant
            i <= s.len(),
            take_until(s@, d) == s@.take(i as int) + take_until(s@.skip(i as int), d),
        decreases s.len() - i,
    {
        assert(s@.skip(i as int).drop_first() =~= s@.skip(i + 1));
        assert(s@.take(i + 1) =~= s@.take(i as int) + seq![s@[i as int]]);
        i = i + 1;
    }
    assert(take_until(s@.skip(i as int), d) =~= Seq::<char>::empty());
    assert(s@.take(i as int) =~= s@.subrange(0, i as int));
    sub_chars(s, 0, i)
}

/// The character sequences held by a vector of character vectors.
pub open spec fn views(v: Seq<Vec<char>>) -> Seq<Seq<char>> {
    v.map_values(|x: Vec<char>| x@)
}

/// `split_on` computed: the pieces of `s` between the occurrences of `d`.
pub fn split_chars(s: &[char], d: char) -> (r: Vec<Vec<char>>)
    ensures
        views(r@) == split_on(s@, d),
{
    let mut done: Vec<Vec<char>> = Vec::new();
    let mut cur: Vec<char> = Vec::new();
    let mut i: usize = 0;
    assert(views(done@).push(cur@) =~= split_on(s@.take(0), d));
    while i < s.len()
        invariant
            i <= s.len(),
            views(done@).push(cur@) == split_on(s@.take(i as int), d),
        decreases s.len() - i,
    {
        let c = s[i];
        let ghost prev = views(done@).push(cur@);
        assert(s@.take(i + 1).drop_last() =~= s@.take(i as int));
        assert(s@.take(i + 1).last() == c);
        if c == d {
            let mut old_cur: Vec<char> = Vec::new();
            std::mem::swap(&mut old_cur, &mut cur);
            done.push(old_cur);
            assert(views(done@).push(cur@) =~= prev.push(Seq::empty()));
        } else {
            cur.push(c);
            assert(views(done@).push(cur@) =~= prev.update(prev.len() - 1, prev.last().push(c)));
        }
        i = i + 1;
    }
    assert(s@.take(s.len() as int) =~= s@);
    done.push(cur);
    done
}

/// `words` computed: the whitespace-separated words of `s`.
pub fn words_chars(s: &[char]) -> (r: Vec<Vec<char>>)
    ensures
        views(r@) == words(s@),
{
    let mut done: Vec<Vec<char>> = Vec::new();
    let mut cur: Vec<char> = Vec::new();
    let mut i: usize = 0;
    assert(views(done@) =~= words(s@.take(0)));
    while i < s.len()
        invariant
            i <= s.len(),
            cur@.len() > 0 <==> (i > 0 && !is_ws(s@[i - 1])),
            cur@.len() > 0 ==> views(done@).push(cur@) == words(s@.take(i as int)),
            cur@.len() == 0 ==> views(done@) == words(s@.take(i as int)),
        decreases s.len() - i,
    {
        let c = s[i];
        let ghost t = s@.take(i + 1);
        assert(t.drop_last() =~= s@.take(i as int));
        assert(t.last() == c);
        if is_whitespace(c) {
            if cur.len() > 0 {
                let mut old_cur: Vec<char> = Vec::new();
                std::mem::swap(&mut old_cur, &mut cur);
                done.push(old_cur);
            }
            assert(views(done@) =~= words(t));
        } else {
            let ghost prev_done = views(done@);
            let ghost prev_cur = cur@;
            cur.push(c);
            if i > 0 && !is_whitespace(s[i - 1]) {
                assert(t[t.len() - 2] == s@[i - 1]);
                assert(views(done@).push(cur@) =~= prev_done.push(prev_cur).update(
                    prev_done.len() as int,
                    prev_cur.push(c),
                ));
            } else {
                assert(prev_cur.len() == 0);
                assert(cur@ =~= seq![c]);
                assert(views(done@).push(cur@) =~= prev_done.push(seq![c]));
            }
        }
        i = i + 1;
    }
    assert(s@.take(s.len() as int) =~= s@);
    if cur.len() > 0 {
        done.push(cur);
    }
    done
}

/// `join` computed over the pieces `ws[from..]`.
pub fn join_chars(ws: &Vec<Vec<char>>, from: usize, sep: &[char]) -> (r: Vec<char>)
    requires
        from <= ws.len(),
    ensures
        r@ == join(views(ws@).skip(from as int), sep@),
{
    let mut r: Vec<char> = Vec::new();
    let mut i: usize = from;
    assert(views(ws@).subrange(from as int, from as int) =~= Seq::<Seq<char>>::empty());
    while i < ws.len()
        invariant
            from <= i <= ws.len(),
            r@ == join(views(ws@).subrange(from as int, i as int), sep@),
        decreases ws.len() - i,
    {
        let ghost prev = r@;
        let ghost part = views(ws@).subrange(from as int, i + 1);
        assert(part.drop_last() =~= views(ws@).subrange(from as int, i as int));
        assert(part.last() == ws@[i as int]@);
        if i > from {
            let mut k: usize = 0;
            while k < sep.len()
                invariant
                    k <= sep.len(),
                    r@ == prev + sep@.take(k as int),
                decreases sep.len() - k,
            {
                r.push(sep[k]);
                k = k + 1;
                assert(r@ =~= prev + sep@.take(k as int));
            }
            assert(sep@.take(sep.len() as int) =~= sep@);
        } else {
            assert(part =~= seq![ws@[i as int]@]);
        }
        let ghost mid = r@;
        let w = &ws[i];
        let mut k: usize = 0;
        while k < w.len()
            invariant
                k <= w.len(),
                r@ == mid + w@.take(k as int),
            decreases w.len() - k,
        {
            r.push(w[k]);
            k = k + 1;
            assert(r@ =~= mid + w@.take(k as int));
        }
        assert(w@.take(w.len() as int) =~= w@);
        if i == from {
            assert(r@ =~= w@);
        }
        i = i + 1;
    }
    assert(views(ws@).subrange(from as int, ws.len() as int) =~= views(ws@).skip(from as int));
    r
}

} // verus!
