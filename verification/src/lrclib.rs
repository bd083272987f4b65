//! The text side of the lyrics search: request URLs and query-string
//! encoding, the edit distance that ranks candidate matches, and the line and
//! tag structure of LRC text.

use vstd::prelude::*;
use vstd::utf8::{encode_scalar, has_width_1_encoding, has_width_2_encoding, has_width_3_encoding, has_width_4_encoding, leading_byte_width_1, leading_byte_width_2, leading_byte_width_3, leading_byte_width_4, last_continuation_byte, second_last_continuation_byte, third_last_continuation_byte};
use crate::text::{chars_of, string_from_chars, hex_fixed, push_hex_fixed, trim, trimmed};

verus! {

// ─── Edit distance ───────────────────────────────────────────────────────────

/// The Levenshtein distance between two character sequences: the fewest
/// single-character insertions, deletions and substitutions that turn one
/// into the other.
pub open spec fn edit_distance(a: Seq<char>, b: Seq<char>) -> nat
    decreases a.len() + b.len(),
{
    if a.len() == 0 {
        b.len()
    } else if b.len() == 0 {
        a.len()
    } else if a.last() == b.last() {
        edit_distance(a.drop_last(), b.drop_last())
    } else {
        let x = edit_distance(a.drop_last(), b.drop_last());
        let y = edit_distance(a.drop_last(), b);
        let z = edit_distance(a, b.drop_last());
        let m = if x <= y { x } else { y };
        1 + if m <= z { m } else { z }
    }
}

/// The distance never exceeds the longer length.
pub proof fn lemma_edit_distance_bound(a: Seq<char>, b: Seq<char>)
    ensures
        edit_distance(a, b) <= if a.len() >= b.len() { a.len() } else { b.len() },
    decreases a.len() + b.len(),
{
    if a.len() > 0 && b.len() > 0 {
        lemma_edit_distance_bound(a.drop_last(), b.drop_last());
    }
}

/// The distance from a string to itself is zero.
pub proof fn lemma_edit_distance_self(a: Seq<char>)
    ensures
        edit_distance(a, a) == 0,
    decreases a.len(),
{
    if a.len() > 0 {
        lemma_edit_distance_self(a.drop_last());
    }
}

/// The Levenshtein distance between `a` and `b`, by the two-row dynamic
/// programme.
pub fn levenshtein(a: &str, b: &str) -> (r: usize)
    ensures
        r == edit_distance(a@, b@),
{
    let a = chars_of(a);
    let b = chars_of(b);
    let m = a.len();
    let n = b.len();
    let mut prev: Vec<usize> = Vec::new();
    let mut curr: Vec<usize> = Vec::new();
    prev.push(0);
    curr.push(0);
    let mut j: usize = 0;
    while j < n
        invariant
            j <= n,
            n == b@.len(),
            prev@.len() == j + 1,
            curr@.len() == j + 1,
            forall|k: int| 0 <= k <= j ==> prev@[k] == edit_distance(a@.take(0), b@.take(k)),
        decreases n - j,
    {
        prev.push(j + 1);
        curr.push(0);
        j = j + 1;
    }
    let mut i0: usize = 0;
    while i0 < m
        invariant
            i0 <= m,
            m == a@.len(),
            n == b@.len(),
            prev@.len() == n + 1,
            curr@.len() == n + 1,
            forall|k: int| 0 <= k <= n ==> prev@[k] == edit_distance(a@.take(i0 as int), b@.take(k)),
        decreases m - i0,
    {
        let i = i0 + 1;
        curr.set(0, i);
        assert(edit_distance(a@.take(i as int), b@.take(0)) == i) by {
            assert(b@.take(0).len() == 0);
        }
        let mut j0: usize = 0;
        while j0 < n
            invariant
                i == i0 + 1,
                1 <= i <= m,
                j0 <= n,
                m == a@.len(),
                n == b@.len(),
                prev@.len() == n + 1,
                curr@.len() == n + 1,
                forall|k: int| 0 <= k <= n ==> prev@[k] == edit_distance(a@.take(i - 1), b@.take(k)),
                forall|k: int| 0 <= k <= j0 ==> curr@[k] == edit_distance(a@.take(i as int), b@.take(k)),
            decreases n - j0,
        {
            let j = j0 + 1;
            let ghost ai = a@.take(i as int);
            let ghost bj = b@.take(j as int);
            assert(ai.drop_last() =~= a@.take(i - 1));
            assert(bj.drop_last() =~= b@.take(j - 1));
            proof {
                lemma_edit_distance_bound(a@.take(i - 1), b@.take(j - 1));
            }
            let v = if a[i - 1] == b[j - 1] {
                prev[j - 1]
            } else {
                let x = prev[j - 1];
                let y = prev[j];
                let z = curr[j - 1];
                let mn = if x <= y { x } else { y };
                1 + if mn <= z { mn } else { z }
            };
            curr.set(j, v);
            j0 = j;
        }
        std::mem::swap(&mut prev, &mut curr);
        i0 = i;
    }
    assert(a@.take(m as int) =~= a@);
    assert(b@.take(n as int) =~= b@);
    prev[n]
}

// ─── Query encoding ──────────────────────────────────────────────────────────

/// Characters that go into a query string as they are.
pub open spec fn is_unreserved(c: char) -> bool {
    ('A' <= c && c <= 'Z') || ('a' <= c && c <= 'z') || ('0' <= c && c <= '9') || c == '-' || c
        == '_' || c == '.' || c == '~'
}

/// `%XX` for each byte, upper-case hex.
pub open spec fn percent_bytes(bs: Seq<u8>) -> Seq<char>
    decreases bs.len(),
{
    if bs.len() == 0 {
        seq![]
    } else {
        percent_bytes(bs.drop_last()) + seq!['%'] + hex_fixed(bs.last() as nat, 2)
    }
}

/// How one character goes into a query string: unreserved characters as
/// they are, a space as `+`, anything else as its UTF-8 bytes, each `%XX`.
pub open spec fn url_char(c: char) -> Seq<char> {
    if is_unreserved(c) {
        seq![c]
    } else if c == ' ' {
        seq!['+']
    } else {
        percent_bytes(encode_scalar(c as u32))
    }
}

/// A whole string encoded for a query string.
pub open spec fn url_encoded(s: Seq<char>) -> Seq<char>
    decreases s.len(),
{
    if s.len() == 0 {
        seq![]
    } else {
        url_encoded(s.drop_last()) + url_char(s.last())
    }
}

/// The UTF-8 bytes of one character.
pub fn utf8_bytes(c: char) -> (r: Vec<u8>)
    ensures
        r@ == encode_scalar(c as u32),
{
    let u = c as u32;
    let mut r: Vec<u8> = Vec::new();
    if u <= 0x7F {
        r.push((u & 0x7F) as u8);
        assert(r@ =~= encode_scalar(u));
    } else if u <= 0x7FF {
        r.push(0xC0 | ((u >> 6) & 0x1F) as u8);
        r.push(0x80 | (u & 0x3F) as u8);
        assert(r@ =~= encode_scalar(u));
    } else if u <= 0xFFFF {
        proof {
            vstd::utf8::char_is_scalar(c);
        }
        r.push(0xE0 | ((u >> 12) & 0x0F) as u8);
        r.push(0x80 | ((u >> 6) & 0x3F) as u8);
        r.push(0x80 | (u & 0x3F) as u8);
        assert(r@ =~= encode_scalar(u));
    } else {
        r.push(0xF0 | ((u >> 18) & 0x7) as u8);
        r.push(0x80 | ((u >> 12) & 0x3F) as u8);
        r.push(0x80 | ((u >> 6) & 0x3F) as u8);
        r.push(0x80 | (u & 0x3F) as u8);
        assert(r@ =~= encode_scalar(u));
    }
    r
}

/// Encode a search term for an lrclib query string.
pub fn url_encode(s: &str) -> (r: String)
    ensures
        r@ == url_encoded(s@),
{
    let cs = chars_of(s);
    let mut out: Vec<char> = Vec::new();
    let mut i: usize = 0;
    while i < cs.len()
        invariant
            i <= cs@.len(),
            cs@ == s@,
            out@ == url_encoded(s@.take(i as int)),
        decreases cs@.len() - i,
    {
        let c = cs[i];
        let ghost before = out@;
        if ('A' <= c && c <= 'Z') || ('a' <= c && c <= 'z') || ('0' <= c && c <= '9') || c == '-'
            || c == '_' || c == '.' || c == '~' {
            out.push(c);
        } else if c == ' ' {
            out.push('+');
        } else {
            let bytes = utf8_bytes(c);
            let mut k: usize = 0;
            while k < bytes.len()
                invariant
                    k <= bytes@.len(),
                    out@ == before + percent_bytes(bytes@.take(k as int)),
                decreases bytes@.len() - k,
            {
                assert(bytes@.take(k + 1).drop_last() =~= bytes@.take(k as int));
                out.push('%');
                push_hex_fixed(&mut out, bytes[k] as u64, 2);
                k = k + 1;
                assert(out@ =~= before + percent_bytes(bytes@.take(k as int)));
            }
            assert(bytes@.take(k as int) =~= bytes@);
        }
        assert(s@.take(i + 1).drop_last() =~= s@.take(i as int));
        i = i + 1;
        assert(out@ =~= url_encoded(s@.take(i as int)));
    }
    assert(s@.take(i as int) =~= s@);
    string_from_chars(out.as_slice())
}

// ─── Requests ────────────────────────────────────────────────────────────────

/// The search for a track by title and artist.
pub open spec fn search_url_of(track: Seq<char>, artist: Seq<char>) -> Seq<char> {
    "https://lrclib.net/api/search?track_name="@ + url_encoded(track) + "&artist_name="@ + url_encoded(artist)
}

/// The search for a track by title and album.
pub open spec fn album_search_url_of(track: Seq<char>, album: Seq<char>) -> Seq<char> {
    "https://lrclib.net/api/search?track_name="@ + url_encoded(track) + "&album_name="@ + url_encoded(album)
}

/// The free-text search for a title and artist.
pub open spec fn text_search_url_of(track: Seq<char>, artist: Seq<char>) -> Seq<char> {
    "https://lrclib.net/api/search?q="@ + url_encoded(track + seq![' '] + artist)
}

/// The lyrics of a known entry.
pub open spec fn get_url_of(id: u64) -> Seq<char> {
    "https://lrclib.net/api/get/"@ + crate::text::decimal(id as nat)
}

/// The search URL for a track by title and artist.
pub fn search_url(track: &str, artist: &str) -> (r: String)
    ensures
        r@ == search_url_of(track@, artist@),
{
    let mut out: Vec<char> = Vec::new();
    crate::text::push_str_chars(&mut out, "https://lrclib.net/api/search?track_name=");
    crate::text::push_str_chars(&mut out, url_encode(track).as_str());
    crate::text::push_str_chars(&mut out, "&artist_name=");
    crate::text::push_str_chars(&mut out, url_encode(artist).as_str());
    string_from_chars(out.as_slice())
}

/// The second search to try when the first found nothing: by album when the
/// album is known, else free text with the artist, else none.
pub fn fallback_search_url(track: &str, artist: &str, album: &str) -> (r: Option<String>)
    ensures
        album@.len() > 0 ==> (r matches Some(u) && u@ == album_search_url_of(track@, album@)),
        album@.len() == 0 && artist@.len() > 0 ==> (r matches Some(u) && u@ == text_search_url_of(track@, artist@)),
        album@.len() == 0 && artist@.len() == 0 ==> r is None,
{
    let mut out: Vec<char> = Vec::new();
    if chars_of(album).len() > 0 {
        crate::text::push_str_chars(&mut out, "https://lrclib.net/api/search?track_name=");
        crate::text::push_str_chars(&mut out, url_encode(track).as_str());
        crate::text::push_str_chars(&mut out, "&album_name=");
        crate::text::push_str_chars(&mut out, url_encode(album).as_str());
        return Some(string_from_chars(out.as_slice()));
    }
    if chars_of(artist).len() > 0 {
        let mut q: Vec<char> = Vec::new();
        crate::text::push_str_chars(&mut q, track);
        q.push(' ');
        crate::text::push_str_chars(&mut q, artist);
        let qs = string_from_chars(q.as_slice());
        assert(qs@ =~= track@ + seq![' '] + artist@);
        crate::text::push_str_chars(&mut out, "https://lrclib.net/api/search?q=");
        crate::text::push_str_chars(&mut out, url_encode(qs.as_str()).as_str());
        return Some(string_from_chars(out.as_slice()));
    }
    None
}

/// The URL of a known entry's lyrics.
pub fn get_url(id: u64) -> (r: String)
    ensures
        r@ == get_url_of(id),
{
    let mut out: Vec<char> = Vec::new();
    crate::text::push_str_chars(&mut out, "https://lrclib.net/api/get/");
    crate::text::push_decimal(&mut out, id);
    string_from_chars(out.as_slice())
}

/// Whether a search result carries usable synced lyrics: not marked
/// instrumental, with synced text that is not blank.
pub fn has_synced_lyrics(instrumental: Option<bool>, synced: &Option<String>) -> (r: bool)
    ensures
        r == (!(instrumental == Some(true)) && (synced matches Some(s) && crate::text::trimmed(s@).len() > 0)),
{
    if instrumental == Some(true) {
        return false;
    }
    match synced {
        Some(s) => crate::text::chars_of(crate::text::trim_str(s.as_str()).as_str()).len() > 0,
        None => false,
    }
}


// ─── LRC text ────────────────────────────────────────────────────────────────

/// The lines of `s` read so far, and the line being read: characters up to
/// each `\n` make a line.
pub open spec fn split_state(s: Seq<char>) -> (Seq<Seq<char>>, Seq<char>)
    decreases s.len(),
{
    if s.len() == 0 {
        (Seq::empty(), Seq::empty())
    } else {
        let p = split_state(s.drop_last());
        if s.last() == '\n' {
            (p.0.push(p.1), Seq::empty())
        } else {
            (p.0, p.1.push(s.last()))
        }
    }
}

/// The pieces of `s` between line breaks.
pub open spec fn line_pieces(s: Seq<char>) -> Seq<Seq<char>> {
    split_state(s).0.push(split_state(s).1)
}

/// Index of the first `]` of `s`, or -1.
pub open spec fn close_index(s: Seq<char>) -> int
    decreases s.len(),
{
    if s.len() == 0 {
        -1
    } else if s[0] == ']' {
        0
    } else {
        let r = close_index(s.drop_first());
        if r < 0 {
            -1
        } else {
            r + 1
        }
    }
}

/// The bracketed tags that start a line, each with the text after it
/// (trimmed): `[a][b] x` gives `(a, "[b] x")` and `(b, "x")`. A tag needs its
/// closing bracket.
pub open spec fn bracket_tags(s: Seq<char>) -> Seq<(Seq<char>, Seq<char>)>
    decreases s.len(),
{
    if s.len() > 0 && s[0] == '[' && close_index(s) > 0 {
        let e = close_index(s);
        proof {
            lemma_close_index_bound(s);
        }
        seq![(s.subrange(1, e), trimmed(s.skip(e + 1)))] + bracket_tags(s.skip(e + 1))
    } else {
        Seq::empty()
    }
}

/// For each line of an LRC text that is not blank, its leading tags (each
/// with the text after it), in order.
pub open spec fn lrc_tags_of(lines: Seq<Seq<char>>) -> Seq<Seq<(Seq<char>, Seq<char>)>>
    decreases lines.len(),
{
    if lines.len() == 0 {
        Seq::empty()
    } else {
        let rest = lrc_tags_of(lines.drop_last());
        let t = trimmed(lines.last());
        if t.len() > 0 {
            rest.push(bracket_tags(t))
        } else {
            rest
        }
    }
}

pub proof fn lemma_close_index_bound(s: Seq<char>)
    ensures
        -1 <= close_index(s) < s.len(),
    decreases s.len(),
{
    if s.len() > 0 && s[0] != ']' {
        lemma_close_index_bound(s.drop_first());
    }
}

proof fn lemma_close_index(s: Seq<char>, k: int)
    requires
        0 <= k <= s.len(),
        forall|j: int| 0 <= j < k ==> s[j] != ']',
    ensures
        k < s.len() && s[k] == ']' ==> close_index(s) == k,
        k == s.len() ==> close_index(s) == -1,
    decreases k,
{
    if k > 0 {
        assert(forall|j: int| 0 <= j < k - 1 ==> s.drop_first()[j] == s[j + 1]);
        lemma_close_index(s.drop_first(), k - 1);
    }
}

pub open spec fn tag_views(v: Seq<(String, String)>) -> Seq<(Seq<char>, Seq<char>)> {
    Seq::new(v.len(), |i: int| (v[i].0@, v[i].1@))
}

/// The leading tags of one (trimmed) line.
fn line_tags(t: &Vec<char>) -> (r: Vec<(String, String)>)
    ensures
        tag_views(r@) == bracket_tags(t@),
{
    let n = t.len();
    let mut r: Vec<(String, String)> = Vec::new();
    let mut pos: usize = 0;
    let mut done = false;
    assert(t@.skip(0) =~= t@);
    while pos < n && !done
        invariant
            n == t@.len(),
            pos <= n,
            !done ==> bracket_tags(t@) == tag_views(r@) + bracket_tags(t@.skip(pos as int)),
            done ==> bracket_tags(t@) == tag_views(r@),
        decreases n - pos + (if done { 0int } else { 1int }),
    {
        let ghost rest = t@.skip(pos as int);
        if t[pos] != '[' {
            assert(bracket_tags(rest) =~= Seq::<(Seq<char>, Seq<char>)>::empty());
            assert(tag_views(r@) + Seq::<(Seq<char>, Seq<char>)>::empty() =~= tag_views(r@));
            done = true;
        } else {
            let mut e: usize = pos + 1;
            while e < n && t[e] != ']'
                invariant
                    pos < e <= n,
                    n == t@.len(),
                    rest == t@.skip(pos as int),
                    t@[pos as int] == '[',
                    forall|j: int| pos <= j < e ==> t@[j] != ']',
                decreases n - e,
            {
                e = e + 1;
            }
            proof {
                assert(forall|j: int| 0 <= j < e - pos ==> rest[j] == t@[pos + j]);
                lemma_close_index(rest, e - pos);
            }
            if e == n {
                assert(bracket_tags(rest) =~= Seq::<(Seq<char>, Seq<char>)>::empty());
                assert(tag_views(r@) + Seq::<(Seq<char>, Seq<char>)>::empty() =~= tag_views(r@));
                done = true;
            } else {
                let mut tag: Vec<char> = Vec::new();
                let mut k: usize = pos + 1;
                while k < e
                    invariant
                        pos < k <= e < n,
                        n == t@.len(),
                        tag@ == t@.subrange(pos + 1, k as int),
                    decreases e - k,
                {
                    tag.push(t[k]);
                    k = k + 1;
                    assert(tag@ =~= t@.subrange(pos + 1, k as int));
                }
                let mut after: Vec<char> = Vec::new();
                let mut k2: usize = e + 1;
                while k2 < n
                    invariant
                        e < k2 <= n,
                        n == t@.len(),
                        after@ == t@.subrange(e + 1, k2 as int),
                    decreases n - k2,
                {
                    after.push(t[k2]);
                    k2 = k2 + 1;
                    assert(after@ =~= t@.subrange(e + 1, k2 as int));
                }
                let text = trim(after.as_slice());
                let ghost rv = tag_views(r@);
                r.push((string_from_chars(tag.as_slice()), string_from_chars(text.as_slice())));
                proof {
                    let ce = e - pos;
                    assert(rest.subrange(1, ce) =~= t@.subrange(pos + 1, e as int));
                    assert(rest.skip(ce + 1) =~= t@.skip(e + 1));
                    assert(after@ =~= t@.skip(e + 1));
                    assert(tag_views(r@) =~= rv.push((t@.subrange(pos + 1, e as int), trimmed(t@.skip(e + 1)))));
                    assert(bracket_tags(rest) == seq![(rest.subrange(1, ce), trimmed(rest.skip(ce + 1)))]
                        + bracket_tags(rest.skip(ce + 1)));
                    assert(tag_views(r@) + bracket_tags(t@.skip(e + 1)) =~= rv + bracket_tags(rest));
                }
                pos = e + 1;
            }
        }
    }
    proof {
        if !done {
            assert(bracket_tags(t@.skip(pos as int)) =~= Seq::<(Seq<char>, Seq<char>)>::empty());
            assert(tag_views(r@) + Seq::<(Seq<char>, Seq<char>)>::empty() =~= tag_views(r@));
        }
    }
    r
}

pub open spec fn tag_lists_view(v: Seq<Vec<(String, String)>>) -> Seq<Seq<(Seq<char>, Seq<char>)>> {
    Seq::new(v.len(), |i: int| tag_views(v[i]@))
}

/// The structure of an LRC text: for each non-blank line, its leading
/// bracketed tags (`[mm:ss.xx]` timestamps among them), each with the text
/// that follows it.
pub fn lrc_line_tags(lrc: &str) -> (r: Vec<Vec<(String, String)>>)
    ensures
        tag_lists_view(r@) == lrc_tags_of(line_pieces(lrc@)),
{
    let cs = chars_of(lrc);
    let mut r: Vec<Vec<(String, String)>> = Vec::new();
    let mut cur: Vec<char> = Vec::new();
    let mut i: usize = 0;
    assert(cs@.take(0) =~= Seq::<char>::empty());
    while i < cs.len()
        invariant
            i <= cs@.len(),
            cs@ == lrc@,
            cur@ == split_state(cs@.take(i as int)).1,
            tag_lists_view(r@) == lrc_tags_of(split_state(cs@.take(i as int)).0),
        decreases cs@.len() - i,
    {
        assert(cs@.take(i + 1).drop_last() =~= cs@.take(i as int));
        let c = cs[i];
        if c == '\n' {
            let t = trim(cur.as_slice());
            let ghost before = split_state(cs@.take(i as int)).0;
            if t.len() > 0 {
                let tags = line_tags(&t);
                let ghost rv = tag_lists_view(r@);
                r.push(tags);
                assert(tag_lists_view(r@) =~= rv.push(bracket_tags(t@)));
            }
            assert(before.push(cur@).drop_last() =~= before);
            cur = Vec::new();
        } else {
            cur.push(c);
        }
        i = i + 1;
    }
    assert(cs@.take(i as int) =~= cs@);
    let t = trim(cur.as_slice());
    let ghost before = split_state(cs@).0;
    assert(before.push(cur@).drop_last() =~= before);
    if t.len() > 0 {
        let tags = line_tags(&t);
        let ghost rv = tag_lists_view(r@);
        r.push(tags);
        assert(tag_lists_view(r@) =~= rv.push(bracket_tags(t@)));
    }
    r
}

} // verus!
