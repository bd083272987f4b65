//! What the OS media session (media keys, now-playing widget) is told, and
//! the `file://` URIs of local cover art it is given.

use vstd::prelude::*;
use crate::text::{chars_of, hex_fixed, push_hex_fixed, push_str_chars, string_from_chars};

verus! {

/// An update for the media session. Times are in milliseconds.
#[derive(Clone, Debug)]
pub enum SmtcUpdate {
    Metadata {
        title: String,
        artist: String,
        album: String,
        cover_url: Option<String>,
        duration_ms: Option<u64>,
    },
    Playing { progress_ms: u64 },
    Paused { progress_ms: u64 },
    Stopped,
}

/// Bytes kept as they are in a `file://` path: the RFC 3986 unreserved set,
/// plus `/` and `:`.
pub open spec fn uri_path_keeps(b: u8) -> bool {
    (0x41 <= b <= 0x5A) || (0x61 <= b <= 0x7A) || (0x30 <= b <= 0x39) || b == 0x2D || b == 0x2E
        || b == 0x5F || b == 0x7E || b == 0x2F || b == 0x3A
}

/// A path's bytes percent-encoded for a `file://` URI (`%` itself included,
/// as paths are never pre-encoded).
pub open spec fn uri_path_encoded(bs: Seq<u8>) -> Seq<char>
    decreases bs.len(),
{
    if bs.len() == 0 {
        seq![]
    } else {
        let last = bs.last();
        uri_path_encoded(bs.drop_last()) + if uri_path_keeps(last) {
            seq![last as char]
        } else {
            seq!['%'] + hex_fixed(last as nat, 2)
        }
    }
}

/// Percent-encode a filesystem path for use inside a `file://` URI.
pub fn encode_uri_path(path: &str) -> (r: String)
    ensures
        r@ == uri_path_encoded(vstd::utf8::encode_utf8(path@)),
{
    let bs = path.as_bytes();
    let mut out: Vec<char> = Vec::new();
    let mut i: usize = 0;
    while i < bs.len()
        invariant
            i <= bs@.len(),
            out@ == uri_path_encoded(bs@.take(i as int)),
        decreases bs@.len() - i,
    {
        let b = bs[i];
        assert(bs@.take(i + 1).drop_last() =~= bs@.take(i as int));
        if (0x41 <= b && b <= 0x5A) || (0x61 <= b && b <= 0x7A) || (0x30 <= b && b <= 0x39) || b == 0x2D
            || b == 0x2E || b == 0x5F || b == 0x7E || b == 0x2F || b == 0x3A {
            out.push(b as char);
        } else {
            out.push('%');
            push_hex_fixed(&mut out, b as u64, 2);
        }
        i = i + 1;
        assert(out@ =~= uri_path_encoded(bs@.take(i as int)));
    }
    assert(bs@.take(i as int) =~= bs@);
    string_from_chars(out.as_slice())
}

/// The `file://` URI of an absolute path (once the caller has checked that a
/// file is there).
pub fn file_uri(abs_path: &str) -> (r: String)
    ensures
        r@ == "file://"@ + uri_path_encoded(vstd::utf8::encode_utf8(abs_path@)),
{
    let mut out: Vec<char> = Vec::new();
    push_str_chars(&mut out, "file://");
    let e = encode_uri_path(abs_path);
    push_str_chars(&mut out, e.as_str());
    string_from_chars(out.as_slice())
}


/// The update that shows a status line ("Loading disc...", "No disc") in
/// place of a track: the status as title, "Kanae" as artist, nothing else.
pub fn status_update(status: &str) -> (r: SmtcUpdate)
    ensures
        r matches SmtcUpdate::Metadata { title, artist, album, cover_url, duration_ms } && title@ == status@
            && artist@ == "Kanae"@ && album@.len() == 0 && cover_url is None && duration_ms is None,
{
    let mut t: Vec<char> = Vec::new();
    push_str_chars(&mut t, status);
    let mut a: Vec<char> = Vec::new();
    push_str_chars(&mut a, "Kanae");
    SmtcUpdate::Metadata {
        title: string_from_chars(t.as_slice()),
        artist: string_from_chars(a.as_slice()),
        album: String::new(),
        cover_url: None,
        duration_ms: None,
    }
}

/// What the media session is told of the play state: playing, paused on a
/// selected track, or stopped.
pub fn playback_update(is_playing: bool, current_track: i32, progress_ms: u64) -> (r: SmtcUpdate)
    ensures
        is_playing ==> r == (SmtcUpdate::Playing { progress_ms }),
        !is_playing && current_track >= 0 ==> r == (SmtcUpdate::Paused { progress_ms }),
        !is_playing && current_track < 0 ==> r == SmtcUpdate::Stopped,
{
    if is_playing {
        SmtcUpdate::Playing { progress_ms }
    } else if current_track >= 0 {
        SmtcUpdate::Paused { progress_ms }
    } else {
        SmtcUpdate::Stopped
    }
}

/// Number of leading `/` of `s`.
pub open spec fn leading_slashes(s: Seq<char>) -> nat
    decreases s.len(),
{
    if s.len() > 0 && s[0] == '/' {
        1 + leading_slashes(s.drop_first())
    } else {
        0
    }
}

/// The cover the terminal frontend hands the media session: none for an
/// empty URL; a `file://` URL becomes its path with exactly one leading
/// slash; any other URL is kept.
pub open spec fn session_cover_of(url: Seq<char>) -> Option<Seq<char>> {
    let scheme = "file://"@;
    if url.len() == 0 {
        None
    } else if url.len() >= scheme.len() && url.take(scheme.len() as int) == scheme {
        let p = url.skip(scheme.len() as int);
        Some(seq!['/'] + p.skip(leading_slashes(p) as int))
    } else {
        Some(url)
    }
}

proof fn lemma_leading_slashes(s: Seq<char>, k: int)
    requires
        0 <= k <= s.len(),
        forall|j: int| 0 <= j < k ==> s[j] == '/',
    ensures
        leading_slashes(s) == k + leading_slashes(s.skip(k)),
    decreases k,
{
    if k > 0 {
        assert(s.drop_first().skip(k - 1) =~= s.skip(k));
        lemma_leading_slashes(s.drop_first(), k - 1);
    } else {
        assert(s.skip(0) =~= s);
    }
}

/// The cover to hand the media session for a cover URL.
pub fn session_cover(url: &str) -> (r: Option<String>)
    ensures
        match session_cover_of(url@) {
            None => r is None,
            Some(c) => r matches Some(s) && s@ == c,
        },
{
    let cs = chars_of(url);
    let n = cs.len();
    if n == 0 {
        return None;
    }
    proof {
        reveal_strlit("file://");
    }
    let is_file = n >= 7 && cs[0] == 'f' && cs[1] == 'i' && cs[2] == 'l' && cs[3] == 'e' && cs[4] == ':'
        && cs[5] == '/' && cs[6] == '/';
    assert(is_file == (url@.len() >= 7 && url@.take(7) == "file://"@)) by {
        reveal_strlit("file://");
        let lit = seq!['f', 'i', 'l', 'e', ':', '/', '/'];
        assert("file://"@ =~= lit);
        if url@.len() >= 7 {
            if is_file {
                assert(url@.take(7) =~= lit);
            }
            if url@.take(7) == lit {
                assert(url@.take(7)[0] == 'f' && url@.take(7)[1] == 'i' && url@.take(7)[2] == 'l');
                assert(url@.take(7)[3] == 'e' && url@.take(7)[4] == ':' && url@.take(7)[5] == '/');
                assert(url@.take(7)[6] == '/');
            }
        }
    }
    if !is_file {
        return Some(string_from_chars(cs.as_slice()));
    }
    let ghost p = url@.skip(7);
    let mut k: usize = 7;
    while k < n && cs[k] == '/'
        invariant
            7 <= k <= n,
            n == cs@.len(),
            cs@ == url@,
            p == url@.skip(7),
            forall|j: int| 0 <= j < k - 7 ==> p[j] == '/',
        decreases n - k,
    {
        k = k + 1;
    }
    proof {
        lemma_leading_slashes(p, k - 7);
        if k < n {
            assert(p.skip(k - 7)[0] == cs@[k as int]);
        }
        assert(leading_slashes(p.skip(k - 7)) == 0);
    }
    let mut out: Vec<char> = Vec::new();
    out.push('/');
    let mut q = k;
    while q < n
        invariant
            k <= q <= n,
            n == cs@.len(),
            out@ == seq!['/'] + cs@.subrange(k as int, q as int),
        decreases n - q,
    {
        out.push(cs[q]);
        q = q + 1;
        assert(out@ =~= seq!['/'] + cs@.subrange(k as int, q as int));
    }
    assert(cs@.subrange(k as int, n as int) =~= p.skip(k - 7));
    Some(string_from_chars(out.as_slice()))
}


/// Where a cover handed to the media session comes from.
#[derive(Clone, Debug)]
pub enum CoverSource {
    /// A web address, passed on as it is.
    Remote(String),
    /// A file on disk at this absolute path; it is passed as a `file://`
    /// URI when the file exists.
    Local(String),
    /// Neither: no cover is passed.
    Unusable,
}

/// The kind of a cover URL: `http…` is remote; `file:///p` is the local file
/// `/p`; a bare absolute path is local; anything else is unusable.
pub open spec fn cover_source_of(url: Seq<char>) -> (bool, Option<Seq<char>>) {
    if url.len() >= 4 && url.take(4) == "http"@ {
        (true, Some(url))
    } else if url.len() >= 8 && url.take(8) == "file:///"@ {
        (false, Some(seq!['/'] + url.skip(8)))
    } else if url.len() >= 1 && url[0] == '/' {
        (false, Some(url))
    } else {
        (false, None)
    }
}

fn has_prefix(cs: &Vec<char>, p: &str) -> (r: bool)
    ensures
        r == (cs@.len() >= p@.len() && cs@.take(p@.len() as int) == p@),
{
    let pc = chars_of(p);
    if pc.len() > cs.len() {
        return false;
    }
    let mut i: usize = 0;
    while i < pc.len()
        invariant
            i <= pc@.len() <= cs@.len(),
            pc@ == p@,
            forall|j: int| 0 <= j < i ==> cs@[j] == pc@[j],
        decreases pc@.len() - i,
    {
        if cs[i] != pc[i] {
            assert(cs@.take(p@.len() as int)[i as int] != p@[i as int]);
            return false;
        }
        i = i + 1;
    }
    assert(cs@.take(p@.len() as int) =~= p@);
    true
}

/// Classify a cover URL for the media session.
pub fn cover_source(url: &str) -> (r: CoverSource)
    ensures
        match cover_source_of(url@) {
            (true, Some(u)) => r matches CoverSource::Remote(s) && s@ == u,
            (false, Some(p)) => r matches CoverSource::Local(s) && s@ == p,
            _ => r is Unusable,
        },
{
    let cs = chars_of(url);
    proof {
        reveal_strlit("http");
        reveal_strlit("file:///");
    }
    if has_prefix(&cs, "http") {
        return CoverSource::Remote(string_from_chars(cs.as_slice()));
    }
    if has_prefix(&cs, "file:///") {
        let mut out: Vec<char> = Vec::new();
        out.push('/');
        let mut i: usize = 8;
        while i < cs.len()
            invariant
                8 <= i <= cs@.len(),
                out@ == seq!['/'] + cs@.subrange(8, i as int),
            decreases cs@.len() - i,
        {
            out.push(cs[i]);
            i = i + 1;
            assert(out@ =~= seq!['/'] + cs@.subrange(8, i as int));
        }
        assert(cs@.subrange(8, i as int) =~= url@.skip(8));
        return CoverSource::Local(string_from_chars(out.as_slice()));
    }
    if cs.len() >= 1 && cs[0] == '/' {
        return CoverSource::Local(string_from_chars(cs.as_slice()));
    }
    CoverSource::Unusable
}

} // verus!
