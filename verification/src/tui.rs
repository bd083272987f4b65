//! Layout for the terminal frontend: display widths (CJK characters take two
//! columns), truncation, centring, wrapping and the scrolling marquee; list
//! scrolling and column widths; the lyric panel's rows; the path bar, the
//! transport row and the settings list; and the periodic jobs of a tick.

use vstd::prelude::*;
use crate::text::{chars_of, string_from_chars, str_at, string_at};
use crate::library::str_views;
use crate::file_player::{mm_ss, LocalTrack};
use crate::tui_input::Rect;

verus! {

/// The display width `unicode-width` gives a character, `None` for a control
/// character. It depends on the character alone (Unicode tables).
pub uninterp spec fn char_cols(c: char) -> Option<usize>;

/// `UnicodeWidthChar::width`: printable ASCII is one column, C0 and C1
/// control characters have no width, and no character is wider than three
/// columns (the widest entry of the crate's tables).
#[verifier::external_body]
fn char_width(c: char) -> (r: Option<usize>)
    ensures
        r == char_cols(c),
        0x20 <= c as u32 && (c as u32) < 0x7F ==> r == Some(1usize),
        (c as u32) < 0x20 || (0x7F <= c as u32 && (c as u32) < 0xA0) ==> r is None,
        r matches Some(w) ==> w <= 3,
{
    unicode_width::UnicodeWidthChar::width(c)
}

/// The columns of `c`, counting a control character as `d`.
pub open spec fn cols_or(c: char, d: nat) -> nat {
    match char_cols(c) {
        Some(w) => w as nat,
        None => d,
    }
}

/// The columns of a run of characters, control characters counting `d`.
pub open spec fn cols(s: Seq<char>, d: nat) -> nat
    decreases s.len(),
{
    if s.len() == 0 {
        0
    } else {
        cols(s.drop_last(), d) + cols_or(s.last(), d)
    }
}

/// The columns of `c` (control characters as `d`).
fn width_or(c: char, d: usize) -> (w: usize)
    requires
        d <= 3,
    ensures
        w == cols_or(c, d as nat),
        w <= 3,
{
    match char_width(c) {
        Some(w) => w,
        None => d,
    }
}

/// Display width of a run of characters; control characters take none.
fn chars_width(cs: &[char]) -> (w: usize)
    requires
        cs@.len() <= usize::MAX / 3,
    ensures
        w == cols(cs@, 0),
        w <= 3 * cs@.len(),
{
    let mut w: usize = 0;
    let mut i: usize = 0;
    while i < cs.len()
        invariant
            i <= cs@.len() <= usize::MAX / 3,
            w == cols(cs@.take(i as int), 0),
            w <= 3 * i,
        decreases cs@.len() - i,
    {
        assert(cs@.take(i + 1).drop_last() =~= cs@.take(i as int));
        let cw = width_or(cs[i], 0);
        w = w + cw;
        i = i + 1;
    }
    assert(cs@.take(i as int) =~= cs@);
    w
}

/// Display width of a string (CJK characters count as two columns).
pub fn display_width(text: &str) -> (w: usize)
    requires
        text@.len() <= usize::MAX / 3,
    ensures
        w == cols(text@, 0),
{
    let cs = chars_of(text);
    chars_width(cs.as_slice())
}

/// The longest start of `s` that fits in `max` columns, characters taken in
/// order until the next one would overflow (control characters count one).
pub open spec fn truncated(s: Seq<char>, max: nat) -> Seq<char>
    decreases s.len(),
{
    if s.len() == 0 {
        s
    } else if cols_or(s[0], 1) > max {
        Seq::empty()
    } else {
        seq![s[0]] + truncated(s.drop_first(), (max - cols_or(s[0], 1)) as nat)
    }
}

/// Truncate a string to at most `max_cols` display columns.
pub fn truncate_to_cols(text: &str, max_cols: usize) -> (r: String)
    ensures
        r@ == truncated(text@, max_cols as nat),
{
    let cs = chars_of(text);
    let mut out: Vec<char> = Vec::new();
    let mut col: usize = 0;
    let mut i: usize = 0;
    let mut full = false;
    assert(cs@.skip(0) =~= cs@);
    while i < cs.len() && !full
        invariant
            i <= cs@.len(),
            cs@ == text@,
            col <= max_cols,
            out@ == cs@.take(i as int),
            !full ==> truncated(cs@, max_cols as nat) == out@ + truncated(cs@.skip(i as int), (max_cols - col) as nat),
            full ==> truncated(cs@, max_cols as nat) == out@,
        decreases cs@.len() - i + (if full { 0int } else { 1int }),
    {
        let ch = cs[i];
        let cw = width_or(ch, 1);
        assert(cs@.skip(i as int)[0] == ch);
        assert(cs@.skip(i as int).drop_first() =~= cs@.skip(i + 1));
        if cw > max_cols - col {
            assert(truncated(cs@.skip(i as int), (max_cols - col) as nat) =~= Seq::<char>::empty());
            assert(out@ + Seq::<char>::empty() =~= out@);
            full = true;
        } else {
            out.push(ch);
            col = col + cw;
            i = i + 1;
            assert(out@ =~= cs@.take(i as int));
            assert(truncated(cs@, max_cols as nat) =~= out@ + truncated(cs@.skip(i as int), (max_cols - col) as nat));
        }
    }
    proof {
        if !full {
            assert(cs@.skip(i as int) =~= Seq::<char>::empty());
            assert(out@ + Seq::<char>::empty() =~= out@);
        }
    }
    string_from_chars(out.as_slice())
}

/// `n` spaces.
pub open spec fn spaces(n: nat) -> Seq<char> {
    Seq::new(n, |i: int| ' ')
}

/// `text` centred in `width` columns (left padding only), or truncated to
/// them when it does not fit.
pub open spec fn centred(text: Seq<char>, width: nat) -> Seq<char> {
    let dw = cols(text, 0);
    if dw >= width {
        truncated(text, width)
    } else {
        spaces(((width - dw) / 2) as nat) + text
    }
}

/// Centre a string within `width` display columns.
pub fn center_text(text: &str, width: usize) -> (r: String)
    requires
        text@.len() <= usize::MAX / 3,
    ensures
        r@ == centred(text@, width as nat),
{
    let dw = display_width(text);
    if dw >= width {
        return truncate_to_cols(text, width);
    }
    let pad = (width - dw) / 2;
    let mut out: Vec<char> = Vec::new();
    let mut k: usize = 0;
    while k < pad
        invariant
            k <= pad,
            out@ == spaces(k as nat),
        decreases pad - k,
    {
        out.push(' ');
        k = k + 1;
        assert(out@ =~= spaces(k as nat));
    }
    crate::text::push_str_chars(&mut out, text);
    string_from_chars(out.as_slice())
}

// ─── Wrapping ────────────────────────────────────────────────────────────────

/// The pieces of `s` between single spaces (`str::split(' ')`): there is one
/// more piece than there are spaces, empty pieces included.
pub open spec fn split_spaces(s: Seq<char>) -> Seq<Seq<char>>
    decreases s.len(),
{
    if s.len() == 0 {
        seq![Seq::empty()]
    } else {
        let w = split_spaces(s.drop_last());
        if s.last() == ' ' {
            w.push(Seq::empty())
        } else {
            w.update(w.len() - 1, w.last().push(s.last()))
        }
    }
}

proof fn lemma_split_nonempty(s: Seq<char>)
    ensures
        split_spaces(s).len() >= 1,
    decreases s.len(),
{
    if s.len() > 0 {
        lemma_split_nonempty(s.drop_last());
    }
}

/// The pieces of `cs` between single spaces.
fn split_on_spaces(cs: &Vec<char>) -> (r: Vec<Vec<char>>)
    ensures
        crate::paths::views(r@) == split_spaces(cs@),
{
    let mut r: Vec<Vec<char>> = Vec::new();
    r.push(Vec::new());
    assert(crate::paths::views(r@) =~= split_spaces(cs@.take(0)));
    let mut i: usize = 0;
    while i < cs.len()
        invariant
            i <= cs@.len(),
            r@.len() >= 1,
            crate::paths::views(r@) == split_spaces(cs@.take(i as int)),
        decreases cs@.len() - i,
    {
        assert(cs@.take(i + 1).drop_last() =~= cs@.take(i as int));
        let ghost before = crate::paths::views(r@);
        if cs[i] == ' ' {
            r.push(Vec::new());
            assert(crate::paths::views(r@) =~= before.push(Seq::empty()));
        } else {
            let last = r.len() - 1;
            let mut w = r.pop().unwrap();
            w.push(cs[i]);
            r.push(w);
            assert(crate::paths::views(r@) =~= before.update(last as int, before.last().push(cs@[i as int])));
        }
        i = i + 1;
    }
    assert(cs@.take(i as int) =~= cs@);
    r
}

/// Wrapping state: the finished rows, the row being filled, and its columns.
pub struct WrapState {
    pub rows: Seq<Seq<char>>,
    pub cur: Seq<char>,
    pub col: nat,
}

/// Put one character of an over-long word: start a new row first when it
/// would overflow (control characters count one column).
pub open spec fn put_char(st: WrapState, c: char, width: nat) -> WrapState {
    let cw = cols_or(c, 1);
    if st.col + cw > width {
        WrapState { rows: st.rows.push(st.cur), cur: seq![c], col: cw }
    } else {
        WrapState { rows: st.rows, cur: st.cur.push(c), col: st.col + cw }
    }
}

/// Put a word that does not fit on a row by itself, character by character.
pub open spec fn put_chars(st: WrapState, w: Seq<char>, width: nat) -> WrapState
    decreases w.len(),
{
    if w.len() == 0 {
        st
    } else {
        put_char(put_chars(st, w.drop_last(), width), w.last(), width)
    }
}

/// Put one word: after a space on the current row when it fits, else on a
/// new row, hard-wrapped when even a row of its own is too narrow.
pub open spec fn put_word(st: WrapState, w: Seq<char>, width: nat) -> WrapState {
    let ww = cols(w, 0);
    if st.cur.len() == 0 {
        if ww <= width {
            WrapState { rows: st.rows, cur: w, col: ww }
        } else {
            put_chars(st, w, width)
        }
    } else if st.col + 1 + ww <= width {
        WrapState { rows: st.rows, cur: st.cur + seq![' '] + w, col: st.col + 1 + ww }
    } else {
        let flushed = WrapState { rows: st.rows.push(st.cur), cur: Seq::empty(), col: 0 };
        if ww <= width {
            WrapState { rows: flushed.rows, cur: w, col: ww }
        } else {
            put_chars(flushed, w, width)
        }
    }
}

/// Put the words in order.
pub open spec fn put_words(words: Seq<Seq<char>>, width: nat) -> WrapState
    decreases words.len(),
{
    if words.len() == 0 {
        WrapState { rows: Seq::empty(), cur: Seq::empty(), col: 0 }
    } else {
        put_word(put_words(words.drop_last(), width), words.last(), width)
    }
}

/// The rows `text` wraps into at `width` columns: splitting on spaces where
/// possible, hard-wrapping lone long words, and always at least one row.
pub open spec fn wrapped(text: Seq<char>, width: nat) -> Seq<Seq<char>> {
    if width == 0 {
        seq![Seq::empty()]
    } else if cols(text, 0) <= width {
        seq![text]
    } else {
        let st = put_words(split_spaces(text), width);
        let rows = if st.cur.len() > 0 {
            st.rows.push(st.cur)
        } else {
            st.rows
        };
        if rows.len() == 0 {
            seq![Seq::empty()]
        } else {
            rows
        }
    }
}

/// Append `text` char by char into `cur`, flushing to `rows` when `width` is
/// reached.
pub fn hard_push_chars(text: &Vec<char>, width: usize, rows: &mut Vec<Vec<char>>, cur: &mut Vec<char>, col: &mut usize)
    requires
        *old(col) <= usize::MAX - 3 * text@.len(),
    ensures
        ({
            let st = put_chars(
                WrapState { rows: crate::paths::views(old(rows)@), cur: old(cur)@, col: *old(col) as nat },
                text@,
                width as nat,
            );
            &&& crate::paths::views(final(rows)@) == st.rows
            &&& final(cur)@ == st.cur
            &&& *final(col) as nat == st.col
            &&& *final(col) <= *old(col) + 3 * text@.len()
        }),
{
    let ghost st0 = WrapState { rows: crate::paths::views(rows@), cur: cur@, col: *col as nat };
    let mut i: usize = 0;
    while i < text.len()
        invariant
            i <= text@.len(),
            *old(col) <= usize::MAX - 3 * text@.len(),
            *col <= *old(col) + 3 * i,
            ({
                let st = put_chars(st0, text@.take(i as int), width as nat);
                &&& crate::paths::views(rows@) == st.rows
                &&& cur@ == st.cur
                &&& *col as nat == st.col
            }),
        decreases text@.len() - i,
    {
        assert(text@.take(i + 1).drop_last() =~= text@.take(i as int));
        let ch = text[i];
        let cw = width_or(ch, 1);
        let ghost rv = crate::paths::views(rows@);
        if *col + cw > width {
            let mut full: Vec<char> = Vec::new();
            std::mem::swap(&mut full, cur);
            rows.push(full);
            *col = 0;
            cur.push(ch);
            *col = cw;
        } else {
            cur.push(ch);
            *col = *col + cw;
        }
        i = i + 1;
    }
    assert(text@.take(i as int) =~= text@);
}

proof fn lemma_put_chars_nonempty(st: WrapState, w: Seq<char>, width: nat)
    requires
        w.len() > 0,
    ensures
        put_chars(st, w, width).cur.len() > 0,
{
}

proof fn lemma_split_pieces_short(s: Seq<char>)
    ensures
        forall|i: int| 0 <= i < split_spaces(s).len() ==> (#[trigger] split_spaces(s)[i]).len() <= s.len(),
    decreases s.len(),
{
    lemma_split_nonempty(s);
    if s.len() > 0 {
        lemma_split_pieces_short(s.drop_last());
        lemma_split_nonempty(s.drop_last());
    }
}

fn copy_chars(v: &Vec<char>) -> (r: Vec<char>)
    ensures
        r@ == v@,
{
    let mut r: Vec<char> = Vec::new();
    let mut i: usize = 0;
    while i < v.len()
        invariant
            i <= v@.len(),
            r@ == v@.take(i as int),
        decreases v@.len() - i,
    {
        r.push(v[i]);
        i = i + 1;
        assert(r@ =~= v@.take(i as int));
    }
    assert(v@.take(i as int) =~= v@);
    r
}

/// Wrap `text` into rows of at most `width` display columns, splitting on
/// spaces where possible and hard-wrapping lone long words.
pub fn wrap_to_width(text: &str, width: usize) -> (rows: Vec<String>)
    requires
        text@.len() <= usize::MAX / 3,
    ensures
        str_views(rows@) == wrapped(text@, width as nat),
{
    if width == 0 {
        let rows = vec![String::new()];
        assert(str_views(rows@) =~= wrapped(text@, width as nat));
        return rows;
    }
    let cs = chars_of(text);
    if chars_width(cs.as_slice()) <= width {
        let rows = vec![text.to_string()];
        assert(str_views(rows@) =~= wrapped(text@, width as nat));
        return rows;
    }
    let words = split_on_spaces(&cs);
    let ghost ws = split_spaces(cs@);
    proof {
        lemma_split_pieces_short(cs@);
    }
    let mut rows: Vec<Vec<char>> = Vec::new();
    let mut cur: Vec<char> = Vec::new();
    let mut col: usize = 0;
    let mut k: usize = 0;
    assert(ws.take(0) =~= Seq::<Seq<char>>::empty());
    while k < words.len()
        invariant
            k <= words@.len(),
            crate::paths::views(words@) == ws,
            ws == split_spaces(cs@),
            cs@.len() <= usize::MAX / 3,
            forall|i: int| 0 <= i < ws.len() ==> (#[trigger] ws[i]).len() <= cs@.len(),
            cur@.len() == 0 ==> col == 0,
            ({
                let st = put_words(ws.take(k as int), width as nat);
                &&& crate::paths::views(rows@) == st.rows
                &&& cur@ == st.cur
                &&& col as nat == st.col
            }),
        decreases words@.len() - k,
    {
        assert(ws.take(k + 1).drop_last() =~= ws.take(k as int));
        let word = &words[k];
        assert(word@ == ws[k as int]);
        let ww = chars_width(word.as_slice());
        let ghost st = put_words(ws.take(k as int), width as nat);
        let ghost nx = put_word(st, word@, width as nat);
        assert(put_words(ws.take(k + 1), width as nat) == nx);
        if cur.len() == 0 {
            if ww <= width {
                cur = copy_chars(word);
                col = ww;
            } else {
                proof {
                    if word@.len() > 0 {
                        lemma_put_chars_nonempty(
                            WrapState { rows: crate::paths::views(rows@), cur: cur@, col: col as nat },
                            word@,
                            width as nat,
                        );
                    }
                }
                hard_push_chars(word, width, &mut rows, &mut cur, &mut col);
            }
        } else if ww < width && col < width - ww {
            cur.push(' ');
            let mut j: usize = 0;
            let ghost base = cur@;
            while j < word.len()
                invariant
                    j <= word@.len(),
                    cur@ == base + word@.take(j as int),
                decreases word@.len() - j,
            {
                cur.push(word[j]);
                j = j + 1;
                assert(cur@ =~= base + word@.take(j as int));
            }
            assert(word@.take(j as int) =~= word@);
            col = col + 1 + ww;
        } else {
            let mut full: Vec<char> = Vec::new();
            std::mem::swap(&mut full, &mut cur);
            let ghost rv = crate::paths::views(rows@);
            rows.push(full);
            assert(crate::paths::views(rows@) =~= rv.push(st.cur));
            col = 0;
            if ww <= width {
                cur = copy_chars(word);
                col = ww;
            } else {
                proof {
                    if word@.len() > 0 {
                        lemma_put_chars_nonempty(
                            WrapState { rows: crate::paths::views(rows@), cur: cur@, col: col as nat },
                            word@,
                            width as nat,
                        );
                    }
                }
                hard_push_chars(word, width, &mut rows, &mut cur, &mut col);
            }
        }
        k = k + 1;
    }
    assert(ws.take(k as int) =~= ws);
    if cur.len() > 0 {
        rows.push(cur);
    }
    if rows.len() == 0 {
        rows.push(Vec::new());
    }
    let mut out: Vec<String> = Vec::new();
    let mut i: usize = 0;
    while i < rows.len()
        invariant
            i <= rows@.len(),
            str_views(out@) == crate::paths::views(rows@).take(i as int),
        decreases rows@.len() - i,
    {
        let ghost o0 = out@;
        out.push(string_from_chars(rows[i].as_slice()));
        assert(str_views(out@) =~= str_views(o0).push(rows@[i as int]@));
        i = i + 1;
        assert(crate::paths::views(rows@).take(i as int) =~= crate::paths::views(rows@).take(i - 1).push(rows@[i - 1]@));
    }
    assert(crate::paths::views(rows@).take(i as int) =~= crate::paths::views(rows@));
    proof {
        let st = put_words(ws, width as nat);
        assert(crate::paths::views(rows@) =~= wrapped(text@, width as nat));
    }
    out
}

// ─── Every row fits ──────────────────────────────────────────────────────────

/// A row fits `width` columns, or is a single character too wide for any row.
pub open spec fn row_fits(r: Seq<char>, width: nat) -> bool {
    cols(r, 0) <= width || r.len() <= 1
}

pub open spec fn wrap_ok(st: WrapState, width: nat) -> bool {
    &&& forall|i: int| 0 <= i < st.rows.len() ==> row_fits(#[trigger] st.rows[i], width)
    &&& cols(st.cur, 0) <= st.col
    &&& (st.col <= width || st.cur.len() <= 1)
}

proof fn lemma_cols_concat(a: Seq<char>, b: Seq<char>, d: nat)
    ensures
        cols(a + b, d) == cols(a, d) + cols(b, d),
    decreases b.len(),
{
    if b.len() == 0 {
        assert(a + b =~= a);
    } else {
        lemma_cols_concat(a, b.drop_last(), d);
        assert((a + b).drop_last() =~= a + b.drop_last());
    }
}

proof fn lemma_cols_single(c: char, d: nat)
    ensures
        cols(seq![c], d) == cols_or(c, d),
{
    assert(seq![c].drop_last() =~= Seq::<char>::empty());
    assert(seq![c].last() == c);
    assert(cols(Seq::<char>::empty(), d) == 0);
    reveal_with_fuel(cols, 2);
}

proof fn lemma_put_char_ok(st: WrapState, c: char, width: nat)
    requires
        wrap_ok(st, width),
    ensures
        wrap_ok(put_char(st, c, width), width),
{
    let cw = cols_or(c, 1);
    assert(cols_or(c, 0) <= cw);
    lemma_cols_single(c, 0);
    if st.col + cw > width {
        let n = put_char(st, c, width);
        assert forall|i: int| 0 <= i < n.rows.len() implies row_fits(#[trigger] n.rows[i], width) by {
            if i < st.rows.len() {
                assert(n.rows[i] == st.rows[i]);
            }
        }
    } else {
        lemma_cols_concat(st.cur, seq![c], 0);
        assert(st.cur.push(c) =~= st.cur + seq![c]);
    }
}

proof fn lemma_put_chars_ok(st: WrapState, w: Seq<char>, width: nat)
    requires
        wrap_ok(st, width),
    ensures
        wrap_ok(put_chars(st, w, width), width),
    decreases w.len(),
{
    if w.len() > 0 {
        lemma_put_chars_ok(st, w.drop_last(), width);
        lemma_put_char_ok(put_chars(st, w.drop_last(), width), w.last(), width);
    }
}

proof fn lemma_put_word_ok(st: WrapState, w: Seq<char>, width: nat)
    requires
        wrap_ok(st, width),
        char_cols(' ') == Some(1usize),
    ensures
        wrap_ok(put_word(st, w, width), width),
{
    let ww = cols(w, 0);
    if st.cur.len() == 0 {
        if ww > width {
            lemma_put_chars_ok(st, w, width);
        }
    } else if st.col + 1 + ww <= width {
        lemma_cols_concat(st.cur + seq![' '], w, 0);
        lemma_cols_concat(st.cur, seq![' '], 0);
        lemma_cols_single(' ', 0);
    } else {
        let flushed = WrapState { rows: st.rows.push(st.cur), cur: Seq::empty(), col: 0 };
        assert forall|i: int| 0 <= i < flushed.rows.len() implies row_fits(#[trigger] flushed.rows[i], width) by {
            if i < st.rows.len() {
                assert(flushed.rows[i] == st.rows[i]);
            }
        }
        assert(cols(Seq::<char>::empty(), 0) == 0);
        if ww > width {
            lemma_put_chars_ok(flushed, w, width);
        }
    }
}

proof fn lemma_put_words_ok(words: Seq<Seq<char>>, width: nat)
    requires
        char_cols(' ') == Some(1usize),
    ensures
        wrap_ok(put_words(words, width), width),
    decreases words.len(),
{
    if words.len() == 0 {
        assert(cols(Seq::<char>::empty(), 0) == 0);
    } else {
        lemma_put_words_ok(words.drop_last(), width);
        lemma_put_word_ok(put_words(words.drop_last(), width), words.last(), width);
    }
}

/// Wrapping keeps within the width: every row is at most `width` columns wide,
/// except a row holding a single character wider than the whole width. (The
/// wrapper counts a space as one column, which is what `unicode-width` says.)
pub proof fn lemma_wrapped_rows_fit(text: Seq<char>, width: nat)
    requires
        char_cols(' ') == Some(1usize),
    ensures
        wrapped(text, width).len() >= 1,
        forall|i: int| 0 <= i < wrapped(text, width).len() ==> row_fits(#[trigger] wrapped(text, width)[i], width),
{
    if width > 0 && cols(text, 0) > width {
        let st = put_words(split_spaces(text), width);
        lemma_put_words_ok(split_spaces(text), width);
        let rows = if st.cur.len() > 0 {
            st.rows.push(st.cur)
        } else {
            st.rows
        };
        assert forall|i: int| 0 <= i < rows.len() implies row_fits(#[trigger] rows[i], width) by {
            if i < st.rows.len() {
                assert(rows[i] == st.rows[i]);
            }
        }
        if rows.len() == 0 {
            assert(cols(Seq::<char>::empty(), 0) == 0);
        }
    } else if width == 0 {
        assert(cols(Seq::<char>::empty(), 0) == 0);
    }
}



// ─── Marquee ─────────────────────────────────────────────────────────────────

/// What a scrolling marquee cycles through: the text, then a three-space gap.
pub open spec fn marquee_cycle(text: Seq<char>) -> Seq<char> {
    text + seq![' ', ' ', ' ']
}

/// `cs` turned to start at index `start`.
pub open spec fn rotated(cs: Seq<char>, start: int) -> Seq<char> {
    cs.skip(start) + cs.take(start)
}

/// The first `k` characters of `cs` repeated without end.
pub open spec fn cycled(cs: Seq<char>, k: nat) -> Seq<char> {
    Seq::new(k, |i: int| cs[i % (cs.len() as int)])
}

/// After `k` characters of the cycle the marquee row ends: it is full, or
/// the next character would overflow it (control characters count one).
pub open spec fn marquee_stops(cs: Seq<char>, width: nat, k: nat) -> bool {
    let c = cols(cycled(cs, k), 1);
    c >= width || c + cols_or(cs[(k as int) % (cs.len() as int)], 1) > width
}

/// The row ends after `k` characters and not before.
pub open spec fn marquee_ends_at(cs: Seq<char>, width: nat, k: nat) -> bool {
    &&& marquee_stops(cs, width, k)
    &&& forall|j: nat| j < k ==> !#[trigger] marquee_stops(cs, width, j)
}

/// How many characters of the cycle a marquee row shows.
pub open spec fn marquee_count(cs: Seq<char>, width: nat) -> nat {
    choose|k: nat| marquee_ends_at(cs, width, k)
}

/// A marquee row of `width` columns at animation step `phase`: text that
/// fits is padded with spaces; longer text, followed by a three-space gap,
/// is shown from character `phase` (modulo the cycle) onwards, as many
/// characters as fit, padded to the width.
pub open spec fn marqueed(text: Seq<char>, width: nat, phase: nat) -> Seq<char> {
    if width == 0 {
        Seq::empty()
    } else if cols(text, 0) <= width {
        text + spaces((width - cols(text, 0)) as nat)
    } else {
        let cs = marquee_cycle(text);
        let rot = rotated(cs, (phase % cs.len()) as int);
        let shown = cycled(rot, marquee_count(rot, width));
        shown + spaces((width - cols(shown, 1)) as nat)
    }
}

proof fn lemma_marquee_count_unique(cs: Seq<char>, width: nat, k: nat)
    requires
        marquee_ends_at(cs, width, k),
    ensures
        marquee_count(cs, width) == k,
{
    let m = marquee_count(cs, width);
    assert(marquee_ends_at(cs, width, m));
    if m < k {
        assert(!marquee_stops(cs, width, m));
    } else if k < m {
        assert(!marquee_stops(cs, width, k));
    }
}

proof fn lemma_cycle_step(i: nat, i0: nat, j: nat, n: nat)
    requires
        n > 0,
        i == i0 + j,
        i0 % n == 0,
        j < n,
    ensures
        i % n == j,
        (i0 + n) % n == 0,
{
    vstd::arithmetic::div_mod::lemma_add_mod_noop(i0 as int, j as int, n as int);
    vstd::arithmetic::div_mod::lemma_small_mod(j, n);
    vstd::arithmetic::div_mod::lemma_add_mod_noop(i0 as int, n as int, n as int);
    vstd::arithmetic::div_mod::lemma_mod_self_0(n as int);
    assert(0nat % n == 0) by {
        vstd::arithmetic::div_mod::lemma_small_mod(0, n);
    }
}

proof fn lemma_spaces_cols(k: nat)
    requires
        char_cols(' ') == Some(1usize),
    ensures
        cols(spaces(k), 1) == k,
    decreases k,
{
    if k > 0 {
        assert(spaces(k).drop_last() =~= spaces((k - 1) as nat));
        lemma_spaces_cols((k - 1) as nat);
    }
}

fn push_spaces(out: &mut Vec<char>, k: usize)
    ensures
        final(out)@ == old(out)@ + spaces(k as nat),
{
    let mut m: usize = 0;
    while m < k
        invariant
            m <= k,
            out@ == old(out)@ + spaces(m as nat),
        decreases k - m,
    {
        out.push(' ');
        m = m + 1;
        assert(out@ =~= old(out)@ + spaces(m as nat));
    }
}

/// A marquee row: `text` padded to `width` columns when it fits, otherwise
/// scrolled to animation step `phase`.
pub fn marquee(text: &str, width: usize, phase: usize) -> (r: String)
    requires
        text@.len() <= usize::MAX / 3,
    ensures
        r@ == marqueed(text@, width as nat, phase as nat),
{
    if width == 0 {
        return String::new();
    }
    let dw = display_width(text);
    if dw <= width {
        let mut out = chars_of(text);
        push_spaces(&mut out, width - dw);
        return string_from_chars(out.as_slice());
    }
    let _ = char_width(' ');
    let mut cs = chars_of(text);
    cs.push(' ');
    cs.push(' ');
    cs.push(' ');
    assert(cs@ =~= marquee_cycle(text@));
    let n = cs.len();
    let start = phase % n;
    let mut rot: Vec<char> = Vec::new();
    let mut q: usize = start;
    while q < n
        invariant
            start <= q <= n,
            n == cs@.len(),
            rot@ == cs@.subrange(start as int, q as int),
        decreases n - q,
    {
        rot.push(cs[q]);
        q = q + 1;
        assert(rot@ =~= cs@.subrange(start as int, q as int));
    }
    q = 0;
    while q < start
        invariant
            q <= start < n,
            n == cs@.len(),
            rot@ == cs@.skip(start as int) + cs@.take(q as int),
        decreases start - q,
    {
        rot.push(cs[q]);
        q = q + 1;
        assert(rot@ =~= cs@.skip(start as int) + cs@.take(q as int));
    }
    assert(rot@ =~= rotated(cs@, start as int));
    proof {
        let gap = seq![' ', ' ', ' '];
        lemma_cols_concat(text@, gap, 1);
        lemma_spaces_cols(3);
        assert(gap =~= spaces(3));
        assert(cs@ =~= cs@.take(start as int) + cs@.skip(start as int));
        lemma_cols_concat(cs@.take(start as int), cs@.skip(start as int), 1);
        lemma_cols_concat(cs@.skip(start as int), cs@.take(start as int), 1);
    }
    assert(cols(rot@, 1) >= 3);
    let mut out: Vec<char> = Vec::new();
    let mut col: usize = 0;
    let mut done = false;
    let ghost mut i: nat = 0;
    assert(out@ =~= cycled(rot@, 0));
    while !done
        invariant
            rot@.len() == n,
            n >= 3,
            width > 0,
            cols(rot@, 1) >= 3,
            out@ == cycled(rot@, i),
            col == cols(out@, 1),
            col <= width,
            i % (n as nat) == 0 || done,
            !done ==> col < width,
            forall|m: nat| m < i ==> !#[trigger] marquee_stops(rot@, width as nat, m),
            done ==> marquee_stops(rot@, width as nat, i),
        decreases 2 * (width - col) + (if done { 0int } else { 1int }),
    {
        let ghost col0 = col;
        let ghost i0 = i;
        let mut j: usize = 0;
        assert(rot@.take(0) =~= Seq::<char>::empty());
        while j < n && !done
            invariant
                rot@.len() == n,
                n >= 3,
                width > 0,
                j <= n,
                i == i0 + j,
                i0 % (n as nat) == 0,
                out@ == cycled(rot@, i),
                col == cols(out@, 1),
                col <= width,
                col == col0 + cols(rot@.take(j as int), 1),
                !done ==> col < width,
                forall|m: nat| m < i ==> !#[trigger] marquee_stops(rot@, width as nat, m),
                done ==> marquee_stops(rot@, width as nat, i),
            decreases n - j + (if done { 0int } else { 1int }),
        {
            proof {
                lemma_cycle_step(i, i0, j as nat, n as nat);
            }
            let c = rot[j];
            let w = width_or(c, 1);
            if w > width - col {
                done = true;
            } else {
                proof {
                    assert(!marquee_stops(rot@, width as nat, i));
                }
                out.push(c);
                col = col + w;
                proof {
                    assert(out@ =~= cycled(rot@, i) + seq![c]);
                    lemma_cols_concat(cycled(rot@, i), seq![c], 1);
                    lemma_cols_single(c, 1);
                    assert(rot@.take(j + 1) =~= rot@.take(j as int) + seq![c]);
                    lemma_cols_concat(rot@.take(j as int), seq![c], 1);
                    i = i + 1;
                    assert(out@ =~= cycled(rot@, i));
                }
                j = j + 1;
                if col >= width {
                    done = true;
                }
            }
        }
        proof {
            if !done {
                assert(rot@.take(n as int) =~= rot@);
                lemma_cycle_step(i0, i0, 0, n as nat);
            }
        }
    }
    proof {
        lemma_marquee_count_unique(rot@, width as nat, i);
    }
    push_spaces(&mut out, width - col);
    string_from_chars(out.as_slice())
}


// ─── List layout ─────────────────────────────────────────────────────────────

/// The selection kept inside a list of `len` rows, and the scroll offset
/// moved just enough to show it in a window of `visible` rows.
pub open spec fn followed(sel: nat, len: nat, scroll: nat, visible: nat) -> (nat, nat) {
    let s: nat = if len == 0 { 0 } else if sel > len - 1 { (len - 1) as nat } else { sel };
    let sc: nat = if s < scroll { s } else { scroll };
    (s, if s >= sc + visible { (s + 1 - visible) as nat } else { sc })
}

/// Clamp the selection to the list and scroll so that it is on screen.
pub fn follow_selection(sel: usize, len: usize, scroll: usize, visible: usize) -> (r: (usize, usize))
    requires
        scroll + visible <= usize::MAX,
    ensures
        (r.0 as nat, r.1 as nat) == followed(sel as nat, len as nat, scroll as nat, visible as nat),
        visible > 0 ==> r.1 <= r.0 < r.1 + visible,
        len > 0 ==> r.0 < len,
{
    let last = if len > 0 { len - 1 } else { 0 };
    let s = if sel > last { last } else { sel };
    let mut sc = scroll;
    if s < sc {
        sc = s;
    }
    if s >= sc + visible {
        sc = s + 1 - visible;
    }
    (s, sc)
}

/// Widths of the title and artist columns of a track row `width` columns
/// wide: two for the play mark, three for the number, two before the
/// duration (and two before the artist when there is one); the title takes
/// six tenths of what is left when there is an artist.
pub open spec fn track_columns_of(width: nat, artist_empty: bool, dur_cols: nat) -> (nat, nat) {
    let fixed = 2 + 3 + (if artist_empty { 0nat } else { 2nat }) + 2 + dur_cols;
    let avail: nat = if width > fixed { (width - fixed) as nat } else { 0 };
    let title: nat = if artist_empty { avail } else { avail * 6 / 10 };
    (title, (avail - title) as nat)
}

/// The title and artist column widths of a track row.
pub fn track_columns(width: u16, artist_empty: bool, dur_cols: usize) -> (r: (usize, usize))
    requires
        dur_cols <= usize::MAX - 9,
    ensures
        (r.0 as nat, r.1 as nat) == track_columns_of(width as nat, artist_empty, dur_cols as nat),
{
    let w = width as usize;
    let fixed = 2 + 3 + (if artist_empty { 0 } else { 2 }) + 2 + dur_cols;
    let avail = if w > fixed { w - fixed } else { 0 };
    let title = if artist_empty { avail } else { avail * 6 / 10 };
    (title, avail - title)
}

/// Widths of the name and subtitle columns of a library row `width`
/// columns wide: two for the icon and six for the year (and two before the
/// subtitle when there is one); the name takes half of what is left when
/// there is a subtitle.
pub open spec fn library_columns_of(width: nat, sub_empty: bool) -> (nat, nat) {
    let fixed = 2 + 6 + (if sub_empty { 0nat } else { 2nat });
    let avail: nat = if width > fixed { (width - fixed) as nat } else { 0 };
    let name: nat = if sub_empty { avail } else { avail / 2 };
    (name, (avail - name) as nat)
}

/// The name and subtitle column widths of a library row.
pub fn library_columns(width: u16, sub_empty: bool) -> (r: (usize, usize))
    ensures
        (r.0 as nat, r.1 as nat) == library_columns_of(width as nat, sub_empty),
{
    let w = width as usize;
    let fixed: usize = if sub_empty { 8 } else { 10 };
    let avail = if w > fixed { w - fixed } else { 0 };
    let name = if sub_empty { avail } else { avail / 2 };
    (name, avail - name)
}

/// The rows of lyric lines `ls` wrapped to `width` columns, each tagged with
/// the line it belongs to.
pub open spec fn lyric_rows_of(ls: Seq<Seq<char>>, width: nat) -> Seq<(int, Seq<char>)>
    decreases ls.len(),
{
    if ls.len() == 0 {
        Seq::empty()
    } else {
        let k = ls.len() - 1;
        lyric_rows_of(ls.drop_last(), width) + wrapped(ls[k], width).map_values(|r: Seq<char>| (k, r))
    }
}

/// A tagged row as characters.
pub open spec fn tagged_view(r: (usize, String)) -> (int, Seq<char>) {
    (r.0 as int, r.1@)
}

/// Wrap every lyric line to `width` columns, tagging each row with its line.
pub fn lyric_rows(lines: &Vec<String>, width: usize) -> (r: Vec<(usize, String)>)
    requires
        forall|i: int| 0 <= i < lines@.len() ==> (#[trigger] lines@[i])@.len() <= usize::MAX / 3,
    ensures
        r@.map_values(|t: (usize, String)| tagged_view(t)) == lyric_rows_of(str_views(lines@), width as nat),
{
    let mut r: Vec<(usize, String)> = Vec::new();
    let mut li: usize = 0;
    while li < lines.len()
        invariant
            li <= lines@.len(),
            forall|i: int| 0 <= i < lines@.len() ==> (#[trigger] lines@[i])@.len() <= usize::MAX / 3,
            r@.map_values(|t: (usize, String)| tagged_view(t)) == lyric_rows_of(str_views(lines@.take(li as int)), width as nat),
        decreases lines@.len() - li,
    {
        let chunks = wrap_to_width(lines[li].as_str(), width);
        let ghost before = r@;
        let mut j: usize = 0;
        while j < chunks.len()
            invariant
                j <= chunks@.len(),
                li < lines@.len(),
                r@ == before + Seq::new(j as nat, |k: int| (li, chunks@[k])),
            decreases chunks@.len() - j,
        {
            r.push((li, chunks[j].clone()));
            j = j + 1;
            assert(r@ =~= before + Seq::new(j as nat, |k: int| (li, chunks@[k])));
        }
        proof {
            let tl = str_views(lines@.take(li + 1));
            assert(tl.drop_last() =~= str_views(lines@.take(li as int)));
            assert(tl[tl.len() - 1] == lines@[li as int]@);
            assert(r@.map_values(|t: (usize, String)| tagged_view(t)) =~= lyric_rows_of(tl, width as nat));
        }
        li = li + 1;
    }
    assert(lines@.take(li as int) =~= lines@);
    r
}

/// Where the lyric panel scrolls to: the first row of the active line,
/// held `height / 2` rows from the top, or where it was when no line is
/// active (or the active line has no row).
pub open spec fn lyric_scroll_of(row_lines: Seq<usize>, active: int, height: nat, prev: nat) -> nat {
    if active >= 0 && exists|i: int| 0 <= i < row_lines.len() && row_lines[i] == active {
        let first = choose|i: int| 0 <= i < row_lines.len() && row_lines[i] == active
            && forall|j: int| 0 <= j < i ==> row_lines[j] != active;
        if first > height / 2 { (first - height / 2) as nat } else { 0 }
    } else {
        prev
    }
}

/// The lyric panel's scroll offset for the active line (`-1`: none).
pub fn lyric_scroll(row_lines: &Vec<usize>, active: i32, height: u16, prev: usize) -> (r: usize)
    ensures
        r as nat == lyric_scroll_of(row_lines@, active as int, height as nat, prev as nat),
{
    if active < 0 {
        return prev;
    }
    let mut i: usize = 0;
    while i < row_lines.len()
        invariant
            i <= row_lines@.len(),
            active >= 0,
            forall|j: int| 0 <= j < i ==> row_lines@[j] != active,
        decreases row_lines@.len() - i,
    {
        if row_lines[i] == active as usize {
            let half = (height / 2) as usize;
            proof {
                let first = choose|k: int| 0 <= k < row_lines@.len() && row_lines@[k] == active
                    && forall|j: int| 0 <= j < k ==> row_lines@[j] != active;
                assert(0 <= i < row_lines@.len() && row_lines@[i as int] == active
                    && forall|j: int| 0 <= j < i ==> row_lines@[j] != active);
                if first < i {
                    assert(row_lines@[first] != active);
                } else if first > i {
                    assert(row_lines@[i as int] != active);
                }
            }
            return if i > half { i - half } else { 0 };
        }
        i = i + 1;
    }
    prev
}

/// How far character `i` of an `n`-character line is from the shimmer's
/// peak at `peak`, counting round the end of the line.
pub open spec fn shimmer_distance_of(i: nat, peak: nat, n: nat) -> nat {
    let d: nat = if i >= peak { (i - peak) as nat } else { (peak - i) as nat };
    let back: nat = if n > d { (n - d) as nat } else { 0 };
    if d < back { d } else { back }
}

/// The distance from character `i` to the shimmer peak.
pub fn shimmer_distance(i: usize, peak: usize, n: usize) -> (r: usize)
    ensures
        r as nat == shimmer_distance_of(i as nat, peak as nat, n as nat),
{
    let d = if i >= peak { i - peak } else { peak - i };
    let back = if n > d { n - d } else { 0 };
    if d < back { d } else { back }
}


// ─── Controls and settings ───────────────────────────────────────────────────

/// The seek bar's cells in a controls row: after a space, the elapsed time
/// (five cells) and a space, up to the total time and its margins.
pub open spec fn seek_bar_of(area: Rect) -> Rect {
    let inner: nat = if area.width >= 2 { (area.width - 2) as nat } else { 0 };
    let bar: nat = if inner >= 12 { (inner - 12) as nat } else { 0 };
    Rect { x: (area.x + 7) as u16, y: area.y, width: bar as u16, height: 1 }
}

/// Where the seek bar is drawn in `area`.
pub fn seek_bar_rect(area: Rect) -> (r: Rect)
    requires
        area.x + 7 <= u16::MAX,
    ensures
        r == seek_bar_of(area),
{
    let inner = if area.width >= 2 { area.width - 2 } else { 0 };
    let bar = if inner >= 12 { inner - 12 } else { 0 };
    Rect { x: area.x + 7, y: area.y, width: bar, height: 1 }
}

/// The clickable parts of the transport row: previous, play/pause and next
/// at its left, the ten-cell volume bar before the percentage at its right,
/// and the width left between them for the now-playing label.
pub struct ControlsLayout {
    pub btn_prev: Rect,
    pub btn_play: Rect,
    pub btn_next: Rect,
    pub vol_bar: Rect,
    pub label_width: usize,
}

/// The transport row's layout in `area` (volume bar ten cells, then a
/// four-cell percentage).
pub fn controls_layout(area: Rect) -> (r: ControlsLayout)
    requires
        area.x + area.width <= u16::MAX,
        area.x + 5 <= u16::MAX,
    ensures
        r.btn_prev == (Rect { x: area.x, y: area.y, width: 2, height: 1 }),
        r.btn_play == (Rect { x: (area.x + 3) as u16, y: area.y, width: 1, height: 1 }),
        r.btn_next == (Rect { x: (area.x + 5) as u16, y: area.y, width: 2, height: 1 }),
        r.vol_bar == (Rect {
            x: (area.x + if area.width >= 14 { area.width - 14 } else { 0 }) as u16,
            y: area.y,
            width: 10,
            height: 1,
        }),
        r.label_width == (if area.width >= 22 { area.width - 22 } else { 0 }),
{
    let vol_off: u16 = if area.width >= 14 { area.width - 14 } else { 0 };
    let label: usize = if area.width >= 22 { (area.width - 22) as usize } else { 0 };
    ControlsLayout {
        btn_prev: Rect { x: area.x, y: area.y, width: 2, height: 1 },
        btn_play: Rect { x: area.x + 3, y: area.y, width: 1, height: 1 },
        btn_next: Rect { x: area.x + 5, y: area.y, width: 2, height: 1 },
        vol_bar: Rect { x: area.x + vol_off, y: area.y, width: 10, height: 1 },
        label_width: label,
    }
}

/// The now-playing label: "title — artist" (the album artist when the
/// track has none), the title alone when there is no artist, empty when no
/// track is loaded and selected.
pub open spec fn now_playing_of(total_tracks: int, current: int, titles: Seq<String>, artists: Seq<String>, album_artist: Seq<char>) -> Seq<char> {
    if total_tracks > 0 && current >= 0 {
        let title = str_at(titles, current);
        let artist = if str_at(artists, current).len() > 0 { str_at(artists, current) } else { album_artist };
        if artist.len() == 0 {
            title
        } else {
            title + " \u{2014} "@ + artist
        }
    } else {
        Seq::empty()
    }
}

/// The now-playing label of the transport row.
pub fn now_playing_label(total_tracks: i32, current: i32, titles: &Vec<String>, artists: &Vec<String>, album_artist: &str) -> (r: String)
    ensures
        r@ == now_playing_of(total_tracks as int, current as int, titles@, artists@, album_artist@),
{
    if !(total_tracks > 0 && current >= 0) {
        return String::new();
    }
    let i = current as usize;
    let title = string_at(titles, i);
    let raw = string_at(artists, i);
    let mut out: Vec<char> = Vec::new();
    crate::text::push_str_chars(&mut out, title.as_str());
    if !raw.as_str().is_empty() {
        crate::text::push_str_chars(&mut out, " \u{2014} ");
        crate::text::push_str_chars(&mut out, raw.as_str());
    } else if !album_artist.is_empty() {
        crate::text::push_str_chars(&mut out, " \u{2014} ");
        crate::text::push_str_chars(&mut out, album_artist);
    }
    string_from_chars(out.as_slice())
}

/// The settings list: one row per search path, then "add folder" (or the
/// path being typed), "merge all folders" with its box, and "rescan"; the
/// selected row is marked.
pub open spec fn settings_rows_of(paths: Seq<Seq<char>>, merge_all: bool, typing: bool, text: Seq<char>, sel: nat) -> Seq<Seq<char>> {
    let n = paths.len();
    let mark = |i: nat| if sel == i { "\u{25b8}"@ } else { " "@ };
    Seq::new(n, |i: int| mark(i as nat) + " "@ + paths[i])
        + seq![
        if typing && sel == n {
            "\u{25b8} Path: "@ + text + "_"@
        } else {
            mark(n) + " [+] Add folder..."@
        },
        mark(n + 1) + " "@ + (if merge_all { "\u{25a0}"@ } else { "\u{25a1}"@ }) + " Merge all folders"@,
        mark(n + 2) + " [\u{21ba}] Rescan library"@,
    ]
}

/// The settings selection kept on one of the rows.
pub open spec fn settings_selection(n_paths: nat, sel: nat) -> nat {
    if sel >= n_paths + 3 { (n_paths + 2) as nat } else { sel }
}

fn push_mark(out: &mut Vec<char>, on: bool)
    ensures
        final(out)@ == old(out)@ + (if on { "\u{25b8}"@ } else { " "@ }),
{
    if on {
        crate::text::push_str_chars(out, "\u{25b8}");
    } else {
        crate::text::push_str_chars(out, " ");
    }
}

/// The settings rows, with the selection clamped to them.
pub fn settings_rows(paths: &Vec<String>, merge_all: bool, typing: bool, text: &str, sel: usize) -> (r: (Vec<String>, usize))
    requires
        paths@.len() + 3 <= usize::MAX,
    ensures
        r.1 as nat == settings_selection(paths@.len(), sel as nat),
        str_views(r.0@) == settings_rows_of(str_views(paths@), merge_all, typing, text@, r.1 as nat),
{
    let n = paths.len();
    let sel = if sel >= n + 3 { n + 2 } else { sel };
    let ghost pv = str_views(paths@);
    let mut rows: Vec<String> = Vec::new();
    let mut i: usize = 0;
    while i < n
        invariant
            i <= n,
            n == paths@.len(),
            pv == str_views(paths@),
            rows@.len() == i,
            forall|k: int| 0 <= k < i ==> (#[trigger] rows@[k])@ == (if sel == k { "\u{25b8}"@ } else { " "@ }) + " "@ + pv[k],
        decreases n - i,
    {
        let mut out: Vec<char> = Vec::new();
        push_mark(&mut out, sel == i);
        crate::text::push_str_chars(&mut out, " ");
        crate::text::push_str_chars(&mut out, paths[i].as_str());
        rows.push(string_from_chars(out.as_slice()));
        i = i + 1;
    }
    let mut add: Vec<char> = Vec::new();
    if typing && sel == n {
        crate::text::push_str_chars(&mut add, "\u{25b8} Path: ");
        crate::text::push_str_chars(&mut add, text);
        crate::text::push_str_chars(&mut add, "_");
    } else {
        push_mark(&mut add, sel == n);
        crate::text::push_str_chars(&mut add, " [+] Add folder...");
    }
    rows.push(string_from_chars(add.as_slice()));
    let mut merge: Vec<char> = Vec::new();
    push_mark(&mut merge, sel == n + 1);
    crate::text::push_str_chars(&mut merge, " ");
    if merge_all {
        crate::text::push_str_chars(&mut merge, "\u{25a0}");
    } else {
        crate::text::push_str_chars(&mut merge, "\u{25a1}");
    }
    crate::text::push_str_chars(&mut merge, " Merge all folders");
    rows.push(string_from_chars(merge.as_slice()));
    let mut rescan: Vec<char> = Vec::new();
    push_mark(&mut rescan, sel == n + 2);
    crate::text::push_str_chars(&mut rescan, " [\u{21ba}] Rescan library");
    rows.push(string_from_chars(rescan.as_slice()));
    assert(str_views(rows@) =~= settings_rows_of(pv, merge_all, typing, text@, sel as nat));
    (rows, sel)
}


/// The title bar while a track plays: its number (two digits), its artist
/// (the album artist when it has none) and its title; empty otherwise.
pub open spec fn title_bar_of(is_playing: bool, current: int, titles: Seq<String>, artists: Seq<String>, album_artist: Seq<char>) -> Seq<char> {
    if is_playing && current >= 0 {
        let num = crate::file_player::two_digits((current + 1) as nat);
        let title = str_at(titles, current);
        let artist = if str_at(artists, current).len() > 0 { str_at(artists, current) } else { album_artist };
        if artist.len() == 0 {
            "\u{25b6}  "@ + num + "  \u{b7}  "@ + title
        } else {
            "\u{25b6}  "@ + num + "  \u{b7}  "@ + artist + "  \u{2014}  "@ + title
        }
    } else {
        Seq::empty()
    }
}

/// The title bar text.
pub fn title_bar_text(is_playing: bool, current: i32, titles: &Vec<String>, artists: &Vec<String>, album_artist: &str) -> (r: String)
    ensures
        r@ == title_bar_of(is_playing, current as int, titles@, artists@, album_artist@),
{
    if !(is_playing && current >= 0) {
        return String::new();
    }
    let i = current as usize;
    let title = string_at(titles, i);
    let raw = string_at(artists, i);
    let mut out: Vec<char> = Vec::new();
    crate::text::push_str_chars(&mut out, "\u{25b6}  ");
    crate::file_player::push_two_digits(&mut out, i as u64 + 1);
    crate::text::push_str_chars(&mut out, "  \u{b7}  ");
    if !raw.as_str().is_empty() {
        crate::text::push_str_chars(&mut out, raw.as_str());
        crate::text::push_str_chars(&mut out, "  \u{2014}  ");
    } else if !album_artist.is_empty() {
        crate::text::push_str_chars(&mut out, album_artist);
        crate::text::push_str_chars(&mut out, "  \u{2014}  ");
    }
    crate::text::push_str_chars(&mut out, title.as_str());
    string_from_chars(out.as_slice())
}

/// The sidebar's width: what the user dragged it to, at least twelve
/// cells, leaving twenty for the rest.
pub open spec fn sidebar_width_of(dragged: u16, width: u16) -> u16 {
    let a: u16 = if dragged >= 12 { dragged } else { 12 };
    let room: u16 = if width >= 20 { (width - 20) as u16 } else { 0 };
    if a <= room { a } else { room }
}

/// The sidebar's width in a body `width` cells wide.
pub fn sidebar_width(dragged: u16, width: u16) -> (r: u16)
    ensures
        r == sidebar_width_of(dragged, width),
{
    let a: u16 = if dragged >= 12 { dragged } else { 12 };
    let room: u16 = if width >= 20 { width - 20 } else { 0 };
    if a <= room { a } else { room }
}


// ─── Path bar ────────────────────────────────────────────────────────────────

/// The display width of a short run of text.
fn small_width(text: &str) -> (w: usize)
    requires
        cols(text@, 0) <= u16::MAX,
    ensures
        w == cols(text@, 0),
{
    let cs = chars_of(text);
    let mut w: usize = 0;
    let mut i: usize = 0;
    while i < cs.len()
        invariant
            i <= cs@.len(),
            cs@ == text@,
            cols(cs@, 0) <= u16::MAX,
            w == cols(cs@.take(i as int), 0),
        decreases cs@.len() - i,
    {
        proof {
            assert(cs@.take(i + 1).drop_last() =~= cs@.take(i as int));
            lemma_cols_concat(cs@.take(i + 1), cs@.skip(i + 1), 0);
            assert(cs@.take(i + 1) + cs@.skip(i + 1) =~= cs@);
        }
        let cw = width_or(cs[i], 0);
        w = w + cw;
        i = i + 1;
    }
    assert(cs@.take(i as int) =~= cs@);
    w
}


/// The separator between breadcrumbs.
pub open spec fn crumb_sep() -> Seq<char> {
    " \u{27cb} "@
}

/// A history entry's breadcrumb: its folder name, or "?".
pub open spec fn crumb_name(p: Seq<char>) -> Seq<char> {
    match crate::paths::file_name(p) {
        Some(n) => n,
        None => "?"@,
    }
}

/// Columns taken by the first `n` history breadcrumbs, separators included.
pub open spec fn crumbs_width(h: Seq<Seq<char>>, n: int) -> int
    decreases n,
{
    if n <= 0 {
        0
    } else {
        crumbs_width(h, n - 1) + cols(crumb_sep(), 0) + cols(crumb_name(h[n - 1]), 0)
    }
}

/// How many history entries the path bar shows: those up to the current one.
pub open spec fn crumb_count(len: nat, idx: nat) -> nat {
    if idx + 1 <= len { idx + 1 } else { len }
}

/// The breadcrumbs of a path bar starting at cell `x`: "Library" after the
/// back and forward buttons (five cells), then, in the library view, each
/// history entry up to the current one after a separator. Each comes with
/// where it leads: the root (`None`) or a history entry.
pub open spec fn crumbs_of(x: u16, y: u16, h: Seq<Seq<char>>, idx: nat, library_view: bool) -> (Seq<Rect>, Seq<Option<usize>>) {
    let lib = Rect { x: (x + 5) as u16, y, width: cols("Library"@, 0) as u16, height: 1 };
    let n: nat = if library_view { crumb_count(h.len(), idx) } else { 0 };
    let start = x + 5 + cols("Library"@, 0);
    (
        seq![lib] + Seq::new(n, |i: int| Rect {
            x: (start + crumbs_width(h, i) + cols(crumb_sep(), 0)) as u16,
            y,
            width: cols(crumb_name(h[i]), 0) as u16,
            height: 1,
        }),
        seq![None] + Seq::new(n, |i: int| Some(i as usize)),
    )
}

proof fn lemma_crumbs_width_mono(h: Seq<Seq<char>>, a: int, b: int)
    requires
        0 <= a <= b,
    ensures
        crumbs_width(h, a) <= crumbs_width(h, b),
    decreases b - a,
{
    if a < b {
        lemma_crumbs_width_mono(h, a, b - 1);
    }
}

/// The path bar's breadcrumbs (see `crumbs_of`).
pub fn breadcrumbs(x: u16, y: u16, history: &Vec<String>, idx: usize, library_view: bool) -> (r: (Vec<Rect>, Vec<Option<usize>>))
    requires
        x + 5 + cols("Library"@, 0) + crumbs_width(str_views(history@), crumb_count(history@.len(), idx as nat) as int)
            <= u16::MAX,
    ensures
        (r.0@, r.1@) == crumbs_of(x, y, str_views(history@), idx as nat, library_view),
{
    let ghost h = str_views(history@);
    proof {
        reveal_strlit("Library");
        reveal_strlit(" \u{27cb} ");
    }
    let lib_w = display_width("Library");
    let sep_w = display_width(" \u{27cb} ");
    proof {
        assert(crumbs_width(h, 0) == 0);
        lemma_crumbs_width_mono(h, 0, crumb_count(history@.len(), idx as nat) as int);
    }
    let mut rects: Vec<Rect> = Vec::new();
    let mut targets: Vec<Option<usize>> = Vec::new();
    rects.push(Rect { x: x + 5, y, width: lib_w as u16, height: 1 });
    targets.push(None);
    let ghost n: nat = if library_view { crumb_count(history@.len(), idx as nat) } else { 0 };
    let ghost start: int = x + 5 + cols("Library"@, 0);
    let mut cur: u16 = x + 5 + lib_w as u16;
    if library_view {
        let mut i: usize = 0;
        while i <= idx && i < history.len()
            invariant
                h == str_views(history@),
                n == crumb_count(history@.len(), idx as nat),
                i <= n,
                sep_w == cols(crumb_sep(), 0),
                start == x + 5 + cols("Library"@, 0),
                start + crumbs_width(h, n as int) <= u16::MAX,
                cur == start + crumbs_width(h, i as int),
                rects@ == seq![Rect { x: (x + 5) as u16, y, width: cols("Library"@, 0) as u16, height: 1 }]
                    + Seq::new(i as nat, |k: int| Rect {
                    x: (start + crumbs_width(h, k) + cols(crumb_sep(), 0)) as u16,
                    y,
                    width: cols(crumb_name(h[k]), 0) as u16,
                    height: 1,
                }),
                targets@ == seq![None] + Seq::new(i as nat, |k: int| Some(k as usize)),
            decreases history@.len() - i,
        {
            proof {
                lemma_crumbs_width_mono(h, i + 1, n as int);
            }
            let name: String = match crate::paths::file_name_of(history[i].as_str()) {
                Some(v) => string_from_chars(v.as_slice()),
                None => {
                    let mut q: Vec<char> = Vec::new();
                    q.push('?');
                    proof {
                        reveal_strlit("?");
                    }
                    assert(q@ =~= "?"@);
                    string_from_chars(q.as_slice())
                },
            };
            assert(name@ == crumb_name(h[i as int]));
            let name_w = small_width(name.as_str());
            let ghost old_rects = rects@;
            rects.push(Rect { x: cur + sep_w as u16, y, width: name_w as u16, height: 1 });
            targets.push(Some(i));
            cur = cur + sep_w as u16 + name_w as u16;
            assert(rects@ =~= seq![Rect { x: (x + 5) as u16, y, width: cols("Library"@, 0) as u16, height: 1 }]
                + Seq::new((i + 1) as nat, |k: int| Rect {
                x: (start + crumbs_width(h, k) + cols(crumb_sep(), 0)) as u16,
                y,
                width: cols(crumb_name(h[k]), 0) as u16,
                height: 1,
            }));
            assert(targets@ =~= seq![None] + Seq::new((i + 1) as nat, |k: int| Some(k as usize)));
            i = i + 1;
        }
    }
    proof {
        if !library_view {
            assert(rects@ =~= seq![Rect { x: (x + 5) as u16, y, width: cols("Library"@, 0) as u16, height: 1 }]
                + Seq::new(0, |k: int| Rect {
                x: (start + crumbs_width(h, k) + cols(crumb_sep(), 0)) as u16,
                y,
                width: cols(crumb_name(h[k]), 0) as u16,
                height: 1,
            }));
            assert(targets@ =~= seq![None] + Seq::new(0, |k: int| Some(k as usize)));
        }
    }
    (rects, targets)
}


// ─── Timers ──────────────────────────────────────────────────────────────────

/// What the frontend's periodic tick reads: the milliseconds since each
/// periodic job last ran, and the player's state.
#[derive(Clone, Copy, Debug)]
pub struct TickFacts {
    pub since_position_ms: u64,
    pub since_lyrics_poll_ms: u64,
    pub since_drive_scan_ms: u64,
    pub since_disc_check_ms: u64,
    pub since_marquee_ms: u64,
    pub since_shimmer_ms: u64,
    pub since_session_ms: u64,
    pub is_file_mode: bool,
    pub is_playing: bool,
    pub is_loading: bool,
    pub total_tracks: i32,
    pub has_drive: bool,
    /// No lyric line is shown, no fetch finished, none is waiting or running.
    pub lyrics_idle: bool,
    /// The track or the cover changed since the media session was told.
    pub track_or_cover_changed: bool,
    /// The play state changed since the media session was told.
    pub play_state_changed: bool,
}

/// The jobs a tick runs.
#[derive(Clone, Copy, Debug, PartialEq, Eq, Structural)]
pub struct TickPlan {
    /// Poll the playback position (every 100 ms).
    pub update_position: bool,
    /// Poll for fetched lyrics (every 300 ms).
    pub poll_lyrics: bool,
    /// Rescan the drives (disc mode; every second with a disc, else every three).
    pub scan_drives: bool,
    /// Read the selected drive again (disc mode, stopped, not loading, every two seconds).
    pub check_disc: bool,
    /// Restart the disc-check timer (even with no drive to read).
    pub reset_disc_timer: bool,
    /// Step the marquee (every 350 ms) and the lyric shimmer (every 80 ms).
    pub step_marquee: bool,
    pub step_shimmer: bool,
    /// Fetch the current track's lyrics: it plays and none were asked for.
    pub fetch_lyrics: bool,
    /// Tell the media session the track (and position), or only the position.
    pub session_metadata: bool,
    pub session_position: bool,
}

/// The jobs due at a tick.
pub fn tick_plan(f: TickFacts) -> (p: TickPlan)
    ensures
        p.update_position == (f.since_position_ms > 100),
        p.poll_lyrics == (f.since_lyrics_poll_ms > 300),
        p.scan_drives == (!f.is_file_mode && f.since_drive_scan_ms > (if f.total_tracks > 0 { 1000u64 } else { 3000u64 })),
        p.reset_disc_timer == (!f.is_playing && !f.is_loading && !f.is_file_mode && f.since_disc_check_ms > 2000),
        p.check_disc == (p.reset_disc_timer && f.has_drive),
        p.step_marquee == (f.since_marquee_ms > 350),
        p.step_shimmer == (f.since_shimmer_ms > 80),
        p.fetch_lyrics == (f.is_playing && f.lyrics_idle),
        p.session_metadata == f.track_or_cover_changed,
        p.session_position == (f.track_or_cover_changed || f.play_state_changed || (f.is_playing
            && f.since_session_ms > 3000)),
{
    let drive_every: u64 = if f.total_tracks > 0 { 1000 } else { 3000 };
    let reset_disc = !f.is_playing && !f.is_loading && !f.is_file_mode && f.since_disc_check_ms > 2000;
    TickPlan {
        update_position: f.since_position_ms > 100,
        poll_lyrics: f.since_lyrics_poll_ms > 300,
        scan_drives: !f.is_file_mode && f.since_drive_scan_ms > drive_every,
        check_disc: reset_disc && f.has_drive,
        reset_disc_timer: reset_disc,
        step_marquee: f.since_marquee_ms > 350,
        step_shimmer: f.since_shimmer_ms > 80,
        fetch_lyrics: f.is_playing && f.lyrics_idle,
        session_metadata: f.track_or_cover_changed,
        session_position: f.track_or_cover_changed || f.play_state_changed || (f.is_playing && f.since_session_ms > 3000),
    }
}

// ─── Album browsing ──────────────────────────────────────────────────────────

/// A track of the album being browsed, as the track list shows it.
#[derive(Clone, Debug)]
pub struct BrowseTrack {
    pub title: String,
    pub artist: String,
    /// `mm:ss`.
    pub duration: String,
    pub path: String,
}

/// `b` shows the track `t`.
pub open spec fn shows_track(b: BrowseTrack, t: LocalTrack) -> bool {
    &&& b.title@ == t.title@
    &&& b.artist@ == t.artist@
    &&& b.duration@ == mm_ss(t.duration_secs as nat)
    &&& b.path@ == t.path@
}

/// The browse list of an album, from its tracks as read from their files.
pub fn browse_tracks(tracks: &Vec<LocalTrack>) -> (r: Vec<BrowseTrack>)
    ensures
        r@.len() == tracks@.len(),
        forall|i: int| 0 <= i < r@.len() ==> shows_track(#[trigger] r@[i], tracks@[i]),
{
    let mut r: Vec<BrowseTrack> = Vec::new();
    let mut i: usize = 0;
    while i < tracks.len()
        invariant
            i <= tracks@.len(),
            r@.len() == i,
            forall|k: int| 0 <= k < i ==> shows_track(#[trigger] r@[k], tracks@[k]),
        decreases tracks@.len() - i,
    {
        let t = &tracks[i];
        r.push(BrowseTrack {
            title: t.title.clone(),
            artist: t.artist.clone(),
            duration: t.display_duration(),
            path: t.path.clone(),
        });
        i = i + 1;
    }
    r
}


/// What playing row `idx` of the track list does.
#[derive(Clone, Debug)]
pub enum BrowsedPlay {
    /// Load the browsed album's files and play row `index` of them.
    LoadAlbum { paths: Vec<String>, index: i32 },
    /// Play row `index` of what is loaded.
    PlayLoaded { index: i32 },
}

/// Play row `idx`: from the browsed album when one is browsed (its files
/// are loaded first), else from the loaded list.
pub fn play_browsed(browsing: bool, browse: &Vec<BrowseTrack>, idx: usize) -> (r: BrowsedPlay)
    ensures
        browsing ==> (r matches BrowsedPlay::LoadAlbum { paths, index } && index == idx as i32 && paths@.len()
            == browse@.len() && forall|i: int| 0 <= i < paths@.len() ==> (#[trigger] paths@[i])@ == browse@[i].path@),
        !browsing ==> (r matches BrowsedPlay::PlayLoaded { index } && index == idx as i32),
{
    if !browsing {
        return BrowsedPlay::PlayLoaded { index: idx as i32 };
    }
    let mut paths: Vec<String> = Vec::new();
    let mut i: usize = 0;
    while i < browse.len()
        invariant
            i <= browse@.len(),
            paths@.len() == i,
            forall|k: int| 0 <= k < i ==> (#[trigger] paths@[k])@ == browse@[k].path@,
        decreases browse@.len() - i,
    {
        paths.push(browse[i].path.clone());
        i = i + 1;
    }
    BrowsedPlay::LoadAlbum { paths, index: idx as i32 }
}

/// One row of the track list: title, artist, duration.
pub open spec fn row_view(r: (String, String, String)) -> (Seq<char>, Seq<char>, Seq<char>) {
    (r.0@, r.1@, r.2@)
}

/// The track list to show: the browsed album's tracks while one is browsed,
/// else the loaded tracks (titles, artists and durations, empty where a list
/// is short), else nothing.
pub fn effective_tracklist(
    browsing: bool,
    browse: &Vec<BrowseTrack>,
    total_tracks: i32,
    titles: &Vec<String>,
    artists: &Vec<String>,
    durations: &Vec<String>,
) -> (r: Vec<(String, String, String)>)
    ensures
        browsing ==> r@.len() == browse@.len() && forall|i: int| 0 <= i < r@.len() ==> row_view(#[trigger] r@[i])
            == (browse@[i].title@, browse@[i].artist@, browse@[i].duration@),
        !browsing && total_tracks > 0 ==> r@.len() == total_tracks && forall|i: int| 0 <= i < r@.len()
            ==> row_view(#[trigger] r@[i]) == (str_at(titles@, i), str_at(artists@, i), str_at(durations@, i)),
        !browsing && total_tracks <= 0 ==> r@.len() == 0,
{
    let mut r: Vec<(String, String, String)> = Vec::new();
    if browsing {
        let mut i: usize = 0;
        while i < browse.len()
            invariant
                i <= browse@.len(),
                r@.len() == i,
                forall|k: int| 0 <= k < i ==> row_view(#[trigger] r@[k]) == (browse@[k].title@, browse@[k].artist@, browse@[k].duration@),
            decreases browse@.len() - i,
        {
            r.push((browse[i].title.clone(), browse[i].artist.clone(), browse[i].duration.clone()));
            i = i + 1;
        }
    } else if total_tracks > 0 {
        let n = total_tracks as usize;
        let mut i: usize = 0;
        while i < n
            invariant
                n == total_tracks,
                i <= n,
                r@.len() == i,
                forall|k: int| 0 <= k < i ==> row_view(#[trigger] r@[k]) == (str_at(titles@, k), str_at(artists@, k), str_at(durations@, k)),
            decreases n - i,
        {
            r.push((string_at(titles, i), string_at(artists, i), string_at(durations, i)));
            i = i + 1;
        }
    }
    r
}

} // verus!
