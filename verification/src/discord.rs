//! Text and request bodies for the Discord Rich Presence: what the presence
//! says, where its cover comes from, and the upload that hosts the cover.

use vstd::prelude::*;
use crate::player::{dropped_path, dropped_path_of};
use crate::text::{push_str_chars, string_from_chars};

verus! {

/// The cover location as a filesystem path, or the http(s) URL as it is:
/// `file:///x` becomes `/x`, `file://x` becomes `x`.
pub fn normalize_cover_path(url: &str) -> (r: String)
    ensures
        r@ == dropped_path(url@),
{
    let cs = crate::text::chars_of(url);
    if cs.len() == 0 {
        return String::new();
    }
    dropped_path_of(url)
}

/// The first line of the presence: the track title, or `Unknown Track`.
pub open spec fn presence_details(title: Seq<char>) -> Seq<char> {
    if title.len() == 0 {
        "Unknown Track"@
    } else {
        title
    }
}

/// The second line: the artist, else the album, else the player's name,
/// tagged when paused (the presence has no paused state of its own).
pub open spec fn presence_state(artist: Seq<char>, album: Seq<char>, is_playing: bool) -> Seq<char> {
    let base = if artist.len() > 0 {
        artist
    } else if album.len() > 0 {
        album
    } else {
        "Kanae"@
    };
    if is_playing {
        base
    } else {
        base + " \u{2022} Paused"@
    }
}

/// The presence's first line for a track.
pub fn details_line(title: &str) -> (r: String)
    ensures
        r@ == presence_details(title@),
{
    let cs = crate::text::chars_of(title);
    if cs.len() == 0 {
        "Unknown Track".to_string()
    } else {
        title.to_string()
    }
}

/// The presence's second line for a track.
pub fn state_line(artist: &str, album: &str, is_playing: bool) -> (r: String)
    ensures
        r@ == presence_state(artist@, album@, is_playing),
{
    let mut out: Vec<char> = Vec::new();
    if crate::text::chars_of(artist).len() > 0 {
        push_str_chars(&mut out, artist);
    } else if crate::text::chars_of(album).len() > 0 {
        push_str_chars(&mut out, album);
    } else {
        push_str_chars(&mut out, "Kanae");
    }
    if !is_playing {
        push_str_chars(&mut out, " \u{2022} Paused");
    }
    string_from_chars(out.as_slice())
}

/// What the presence last showed, to push only when something changed.
pub struct PresenceShown {
    pub title: String,
    pub artist: String,
    pub album: String,
    pub is_playing: bool,
    pub cover: String,
}

/// Whether the presence must be pushed again: a seek, a cover that just
/// arrived, or any shown field that differs.
pub fn presence_changed(last: &PresenceShown, title: &String, artist: &String, album: &String, is_playing: bool, cover: &String, seek_detected: bool, cover_arrived: bool) -> (r: bool)
    ensures
        r == (seek_detected || cover_arrived || title@ != last.title@ || artist@ != last.artist@
            || album@ != last.album@ || is_playing != last.is_playing || cover@ != last.cover@),
{
    seek_detected || cover_arrived || *title != last.title || *artist != last.artist
        || *album != last.album || is_playing != last.is_playing || *cover != last.cover
}

impl PresenceShown {
    /// Nothing shown yet.
    pub fn new() -> (p: Self)
        ensures
            p.title@.len() == 0,
            p.artist@.len() == 0,
            p.album@.len() == 0,
            !p.is_playing,
            p.cover@.len() == 0,
    {
        PresenceShown {
            title: String::new(),
            artist: String::new(),
            album: String::new(),
            is_playing: false,
            cover: String::new(),
        }
    }

    /// The player has no track: forget what was shown, and tell whether the
    /// presence must be cleared (something was shown, or a track was playing).
    pub fn clear(&mut self) -> (send: bool)
        ensures
            send == (old(self).title@.len() > 0 || old(self).is_playing),
            send ==> final(self).title@.len() == 0 && final(self).artist@.len() == 0
                && final(self).album@.len() == 0 && !final(self).is_playing
                && final(self).cover@.len() == 0,
            !send ==> *final(self) == *old(self),
    {
        if self.title.as_str().is_empty() && !self.is_playing {
            return false;
        }
        self.title = String::new();
        self.artist = String::new();
        self.album = String::new();
        self.is_playing = false;
        self.cover = String::new();
        true
    }

    /// Remember what was just pushed.
    pub fn record(&mut self, title: &String, artist: &String, album: &String, is_playing: bool, cover: &String)
        ensures
            final(self).title@ == title@,
            final(self).artist@ == artist@,
            final(self).album@ == album@,
            final(self).is_playing == is_playing,
            final(self).cover@ == cover@,
    {
        self.title = title.clone();
        self.artist = artist.clone();
        self.album = album.clone();
        self.is_playing = is_playing;
        self.cover = cover.clone();
    }
}

/// The progress-bar timestamps (Unix seconds) of a playing track with a
/// known length: when it began and when it will end. A paused track, or one
/// of unknown length, carries none.
pub fn presence_timestamps(now_secs: i64, position_ms: u64, duration_ms: u64, is_playing: bool) -> (r: Option<(i64, i64)>)
    requires
        now_secs - position_ms / 1000 >= i64::MIN,
        now_secs - position_ms / 1000 + duration_ms / 1000 <= i64::MAX,
    ensures
        r is Some <==> (is_playing && duration_ms > 0),
        r matches Some((start, end)) ==> start == now_secs - position_ms / 1000
            && end == start + duration_ms / 1000,
{
    if !is_playing || duration_ms == 0 {
        return None;
    }
    let pos: u64 = position_ms / 1000;
    let dur: u64 = duration_ms / 1000;
    let start: i64 = (now_secs as i128 - pos as i128) as i64;
    let end: i64 = (start as i128 + dur as i128) as i64;
    Some((start, end))
}

// ─── Cover upload body ───────────────────────────────────────────────────────

/// Header of a form field in a `multipart/form-data` body.
pub open spec fn field_head(boundary: Seq<char>, name: Seq<char>) -> Seq<char> {
    "--"@ + boundary + "\r\nContent-Disposition: form-data; name=\""@ + name + "\"\r\n\r\n"@
}

/// Header of a file part in a `multipart/form-data` body.
pub open spec fn file_head(boundary: Seq<char>, name: Seq<char>, filename: Seq<char>, mime: Seq<char>) -> Seq<char> {
    "--"@ + boundary + "\r\nContent-Disposition: form-data; name=\""@ + name + "\"; filename=\""@
        + filename + "\"\r\nContent-Type: "@ + mime + "\r\n\r\n"@
}

/// Append the UTF-8 bytes of `chars`.
fn push_utf8(body: &mut Vec<u8>, chars: &Vec<char>)
    ensures
        final(body)@ == old(body)@ + vstd::utf8::encode_utf8(chars@),
{
    let s = string_from_chars(chars.as_slice());
    let b = s.as_str().as_bytes();
    let mut i: usize = 0;
    let ghost start = body@;
    while i < b.len()
        invariant
            i <= b@.len(),
            b@ == vstd::utf8::encode_utf8(chars@),
            body@ == start + b@.take(i as int),
        decreases b@.len() - i,
    {
        body.push(b[i]);
        i = i + 1;
        assert(body@ =~= start + b@.take(i as int));
    }
    assert(b@.take(i as int) =~= b@);
}

fn push_bytes(body: &mut Vec<u8>, data: &[u8])
    ensures
        final(body)@ == old(body)@ + data@,
{
    let mut i: usize = 0;
    let ghost start = body@;
    while i < data.len()
        invariant
            i <= data@.len(),
            body@ == start + data@.take(i as int),
        decreases data@.len() - i,
    {
        body.push(data[i]);
        i = i + 1;
        assert(body@ =~= start + data@.take(i as int));
    }
    assert(data@.take(i as int) =~= data@);
}

/// Append a form field `name` holding `value`.
pub fn multipart_field(body: &mut Vec<u8>, boundary: &str, name: &str, value: &[u8])
    ensures
        final(body)@ == old(body)@ + vstd::utf8::encode_utf8(field_head(boundary@, name@)) + value@
            + vstd::utf8::encode_utf8("\r\n"@),
{
    let mut head: Vec<char> = Vec::new();
    push_str_chars(&mut head, "--");
    push_str_chars(&mut head, boundary);
    push_str_chars(&mut head, "\r\nContent-Disposition: form-data; name=\"");
    push_str_chars(&mut head, name);
    push_str_chars(&mut head, "\"\r\n\r\n");
    assert(head@ =~= field_head(boundary@, name@));
    push_utf8(body, &head);
    push_bytes(body, value);
    let mut tail: Vec<char> = Vec::new();
    push_str_chars(&mut tail, "\r\n");
    assert(tail@ =~= "\r\n"@);
    push_utf8(body, &tail);
}

/// Append a file part `name` named `filename` of type `mime` holding `data`.
pub fn multipart_file(body: &mut Vec<u8>, boundary: &str, name: &str, filename: &str, mime: &str, data: &[u8])
    ensures
        final(body)@ == old(body)@ + vstd::utf8::encode_utf8(file_head(boundary@, name@, filename@, mime@))
            + data@ + vstd::utf8::encode_utf8("\r\n"@),
{
    let mut head: Vec<char> = Vec::new();
    push_str_chars(&mut head, "--");
    push_str_chars(&mut head, boundary);
    push_str_chars(&mut head, "\r\nContent-Disposition: form-data; name=\"");
    push_str_chars(&mut head, name);
    push_str_chars(&mut head, "\"; filename=\"");
    push_str_chars(&mut head, filename);
    push_str_chars(&mut head, "\"\r\nContent-Type: ");
    push_str_chars(&mut head, mime);
    push_str_chars(&mut head, "\r\n\r\n");
    assert(head@ =~= file_head(boundary@, name@, filename@, mime@));
    push_utf8(body, &head);
    push_bytes(body, data);
    let mut tail: Vec<char> = Vec::new();
    push_str_chars(&mut tail, "\r\n");
    assert(tail@ =~= "\r\n"@);
    push_utf8(body, &tail);
}

/// The boundary of the cover upload body.
pub open spec fn upload_boundary() -> Seq<char> {
    "KanaeDiscordBoundary42xYz"@
}

/// The body that uploads a PNG cover for an hour: the request type and
/// lifetime fields, the file, and the closing boundary.
pub open spec fn cover_upload(png: Seq<u8>) -> Seq<u8> {
    let b = upload_boundary();
    let crlf = vstd::utf8::encode_utf8("\r\n"@);
    vstd::utf8::encode_utf8(field_head(b, "reqtype"@)) + vstd::utf8::encode_utf8("fileupload"@) + crlf
        + vstd::utf8::encode_utf8(field_head(b, "time"@)) + vstd::utf8::encode_utf8("1h"@) + crlf
        + vstd::utf8::encode_utf8(file_head(b, "fileToUpload"@, "cover.png"@, "image/png"@)) + png + crlf
        + vstd::utf8::encode_utf8("--"@ + b + "--\r\n"@)
}

/// The upload body for a cover already encoded as PNG.
pub fn cover_upload_body(png: &[u8]) -> (body: Vec<u8>)
    ensures
        body@ == cover_upload(png@),
{
    let boundary = "KanaeDiscordBoundary42xYz";
    let mut body: Vec<u8> = Vec::new();
    multipart_field(&mut body, boundary, "reqtype", "fileupload".as_bytes());
    multipart_field(&mut body, boundary, "time", "1h".as_bytes());
    multipart_file(&mut body, boundary, "fileToUpload", "cover.png", "image/png", png);
    let mut end: Vec<char> = Vec::new();
    push_str_chars(&mut end, "--");
    push_str_chars(&mut end, boundary);
    push_str_chars(&mut end, "--\r\n");
    assert(end@ =~= "--"@ + upload_boundary() + "--\r\n"@);
    push_utf8(&mut body, &end);
    assert(body@ =~= cover_upload(png@));
    body
}

/// The content type announcing the upload body's boundary.
pub fn cover_upload_content_type() -> (r: String)
    ensures
        r@ == "multipart/form-data; boundary="@ + upload_boundary(),
{
    let mut out: Vec<char> = Vec::new();
    push_str_chars(&mut out, "multipart/form-data; boundary=");
    push_str_chars(&mut out, "KanaeDiscordBoundary42xYz");
    string_from_chars(out.as_slice())
}


// ─── Cover cache ─────────────────────────────────────────────────────────────

/// How long an uploaded cover's address is reused: 58 minutes, in
/// milliseconds (the host keeps uploads for an hour).
pub const COVER_CACHE_TTL_MS: u64 = 3480000;

/// An uploaded cover: the local source, its web address, and when it was
/// uploaded (milliseconds).
#[derive(Clone, Debug)]
pub struct CoverEntry {
    pub src: String,
    pub url: String,
    pub uploaded_ms: u64,
}

/// The presence's cover: the source now shown, its web address (empty
/// until known), and the addresses of earlier uploads.
pub struct CoverCache {
    pub current_src: String,
    pub current_url: String,
    pub entries: Vec<CoverEntry>,
}

/// What choosing a cover asks for.
#[derive(Clone, Debug)]
pub enum CoverPlan {
    /// The same source as before: nothing changes.
    Unchanged,
    /// No cover now.
    Cleared,
    /// A recent upload of this source is reused.
    FromCache,
    /// Upload this source.
    Upload(String),
}

/// Milliseconds from `then` to `now` (0 if the clock went back).
pub open spec fn age_ms(now: u64, then: u64) -> int {
    if now >= then { now - then } else { 0 }
}

/// An entry of `es` for `src` that is still fresh at `now`.
pub open spec fn fresh_entry(es: Seq<CoverEntry>, src: Seq<char>, now: u64, i: int) -> bool {
    0 <= i < es.len() && es[i].src@ == src && age_ms(now, es[i].uploaded_ms) < COVER_CACHE_TTL_MS
}

impl CoverCache {
    /// No source appears twice among the uploads.
    pub open spec fn wf(&self) -> bool {
        forall|i: int, j: int| 0 <= i < j < self.entries@.len() ==> (#[trigger] self.entries@[i]).src@ != (
        #[trigger] self.entries@[j]).src@
    }

    /// No cover yet, nothing uploaded.
    pub fn new() -> (c: Self)
        ensures
            c.wf(),
            c.current_src@.len() == 0,
            c.current_url@.len() == 0,
            c.entries@.len() == 0,
    {
        CoverCache { current_src: String::new(), current_url: String::new(), entries: Vec::new() }
    }

    /// Show the cover from `src` (empty: none) at time `now`: a new source
    /// drops the shown address, then reuses an upload of it made less than
    /// the cache lifetime ago, or asks for an upload.
    pub fn select(&mut self, src: &str, now: u64) -> (plan: CoverPlan)
        requires
            old(self).wf(),
        ensures
            final(self).wf(),
            final(self).entries@ == old(self).entries@,
            src@ == old(self).current_src@ ==> plan is Unchanged
                && final(self).current_src@ == old(self).current_src@
                && final(self).current_url@ == old(self).current_url@,
            src@ != old(self).current_src@ ==> final(self).current_src@ == src@ && ({
                let es = old(self).entries@;
                if src@.len() == 0 {
                    plan is Cleared && final(self).current_url@.len() == 0
                } else if exists|i: int| fresh_entry(es, src@, now, i) {
                    plan is FromCache && forall|i: int| fresh_entry(es, src@, now, i)
                        ==> final(self).current_url@ == es[i].url@
                } else {
                    plan matches CoverPlan::Upload(u) && u@ == src@ && final(self).current_url@.len() == 0
                }
            }),
    {
        if chars_eq_str(src, self.current_src.as_str()) {
            return CoverPlan::Unchanged;
        }
        self.current_src = string_from_chars(crate::text::chars_of(src).as_slice());
        self.current_url = String::new();
        if src.is_empty() {
            return CoverPlan::Cleared;
        }
        let mut i: usize = 0;
        while i < self.entries.len()
            invariant
                i <= self.entries@.len(),
                self.entries@ == old(self).entries@,
                self.wf(),
                forall|k: int| 0 <= k < i ==> !fresh_entry(self.entries@, src@, now, k),
                self.current_src@ == src@,
                self.current_url@.len() == 0,
                src@ != old(self).current_src@,
                src@.len() > 0,
            decreases self.entries@.len() - i,
        {
            let e = &self.entries[i];
            let age: u64 = if now >= e.uploaded_ms { now - e.uploaded_ms } else { 0 };
            if chars_eq_str(e.src.as_str(), src) && age < COVER_CACHE_TTL_MS {
                let url = e.url.clone();
                self.current_url = url;
                proof {
                    assert(fresh_entry(old(self).entries@, src@, now, i as int));
                    assert forall|k: int| fresh_entry(old(self).entries@, src@, now, k) implies k == i by {
                        if k != i {
                            if k < i {
                                assert(old(self).entries@[k].src@ != old(self).entries@[i as int].src@);
                            } else {
                                assert(old(self).entries@[i as int].src@ != old(self).entries@[k].src@);
                            }
                        }
                    }
                }
                return CoverPlan::FromCache;
            }
            i = i + 1;
        }
        CoverPlan::Upload(string_from_chars(crate::text::chars_of(src).as_slice()))
    }

    /// Take the address an upload of the current source gave (empty: the
    /// upload failed) at time `now`; a good one is kept for later reuse,
    /// replacing an older upload of the same source.
    pub fn uploaded(&mut self, url: String, now: u64)
        requires
            old(self).wf(),
        ensures
            final(self).wf(),
            final(self).current_src@ == old(self).current_src@,
            final(self).current_url@ == url@,
            url@.len() == 0 ==> final(self).entries@ == old(self).entries@,
            url@.len() > 0 ==> ({
                let es = old(self).entries@;
                let fs = final(self).entries@;
                let src = old(self).current_src@;
                if exists|i: int| 0 <= i < es.len() && es[i].src@ == src {
                    fs.len() == es.len() && forall|i: int| 0 <= i < es.len() ==> if es[i].src@ == src {
                        fs[i].src@ == src && fs[i].url@ == url@ && fs[i].uploaded_ms == now
                    } else {
                        fs[i] == es[i]
                    }
                } else {
                    fs.len() == es.len() + 1 && fs.take(es.len() as int) == es && fs[es.len() as int].src@ == src
                        && fs[es.len() as int].url@ == url@ && fs[es.len() as int].uploaded_ms == now
                }
            }),
    {
        if !url.as_str().is_empty() {
            let mut i: usize = 0;
            let mut found = false;
            while i < self.entries.len() && !found
                invariant
                    i <= self.entries@.len(),
                    self.wf(),
                    self.current_src == old(self).current_src,
                    !found ==> self.entries@ == old(self).entries@,
                    !found ==> forall|k: int| 0 <= k < i ==> self.entries@[k].src@ != self.current_src@,
                    found ==> ({
                        let es = old(self).entries@;
                        let fs = self.entries@;
                        let src = old(self).current_src@;
                        &&& exists|k: int| 0 <= k < es.len() && es[k].src@ == src
                        &&& fs.len() == es.len()
                        &&& forall|k: int| 0 <= k < es.len() ==> if es[k].src@ == src {
                            fs[k].src@ == src && fs[k].url@ == url@ && fs[k].uploaded_ms == now
                        } else {
                            fs[k] == es[k]
                        }
                    }),
                decreases self.entries@.len() - i + (if found { 0int } else { 1int }),
            {
                if chars_eq_str(self.entries[i].src.as_str(), self.current_src.as_str()) {
                    let ghost es = self.entries@;
                    let entry = CoverEntry { src: self.current_src.clone(), url: url.clone(), uploaded_ms: now };
                    self.entries.set(i, entry);
                    proof {
                        assert forall|k: int| 0 <= k < es.len() implies (if es[k].src@ == self.current_src@ {
                            self.entries@[k].src@ == self.current_src@ && self.entries@[k].url@ == url@
                                && self.entries@[k].uploaded_ms == now
                        } else {
                            self.entries@[k] == es[k]
                        }) by {
                            if k != i && es[k].src@ == self.current_src@ {
                                if k < i {
                                    assert(es[k].src@ != es[i as int].src@);
                                } else {
                                    assert(es[i as int].src@ != es[k].src@);
                                }
                            }
                        }
                        assert forall|a: int, b: int| 0 <= a < b < self.entries@.len() implies (#[trigger] self.entries@[a]).src@ != (#[trigger] self.entries@[b]).src@ by {
                            if a != i && b != i {
                                assert(es[a].src@ != es[b].src@);
                            } else if a == i {
                                assert(es[a].src@ != es[b].src@);
                            } else {
                                assert(es[a].src@ != es[b].src@);
                            }
                        }
                    }
                    found = true;
                } else {
                    i = i + 1;
                }
            }
            if !found {
                let ghost es = self.entries@;
                let entry = CoverEntry { src: self.current_src.clone(), url: url.clone(), uploaded_ms: now };
                self.entries.push(entry);
                assert(self.entries@.take(es.len() as int) =~= es);
                assert(!(exists|k: int| 0 <= k < es.len() && es[k].src@ == old(self).current_src@));
            }
        }
        self.current_url = url;
    }
}

/// Whether two strings hold the same characters.
fn chars_eq_str(a: &str, b: &str) -> (r: bool)
    ensures
        r == (a@ == b@),
{
    let ca = crate::text::chars_of(a);
    let cb = crate::text::chars_of(b);
    crate::paths::chars_eq(ca.as_slice(), cb.as_slice())
}

} // verus!
