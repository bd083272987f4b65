//! Local audio files: which paths count as audio, and the tag record the
//! library and player work with.

use vstd::prelude::*;
use crate::paths::{extension, extension_of};
use crate::text::{str_lowercase, to_lowercase, string_from_chars, decimal, push_decimal, push_str_chars};

verus! {

/// The extensions (lower case) that mark an audio file.
pub open spec fn audio_extensions() -> Seq<Seq<char>> {
    seq![
        seq!['m', 'p', '3'], seq!['m', 'p', '2'], seq!['m', 'p', '1'], seq!['f', 'l', 'a', 'c'],
        seq!['o', 'g', 'g'], seq!['o', 'p', 'u', 's'], seq!['m', '4', 'a'], seq!['m', 'p', '4'],
        seq!['a', 'a', 'c'], seq!['a', 'l', 'a', 'c'], seq!['w', 'a', 'v'], seq!['a', 'i', 'f', 'f'],
        seq!['a', 'i', 'f'], seq!['c', 'a', 'f'], seq!['m', 'k', 'a'], seq!['w', 'm', 'a'],
        seq!['a', 'p', 'e'],
    ]
}

/// Whether a path names an audio file: its extension, lower-cased, is one
/// of the audio extensions.
pub open spec fn spec_is_audio_file(path: Seq<char>) -> bool {
    match extension(path) {
        None => false,
        Some(e) => audio_extensions().contains(str_lowercase(e)),
    }
}

/// Whether an already lower-cased extension is one of the audio extensions.
pub fn is_audio_extension(lower: &str) -> (r: bool)
    ensures
        r == audio_extensions().contains(lower@),
{
    let e = crate::text::chars_of(lower);
    let list: [&[char]; 17] = [
        &['m', 'p', '3'], &['m', 'p', '2'], &['m', 'p', '1'], &['f', 'l', 'a', 'c'],
        &['o', 'g', 'g'], &['o', 'p', 'u', 's'], &['m', '4', 'a'], &['m', 'p', '4'],
        &['a', 'a', 'c'], &['a', 'l', 'a', 'c'], &['w', 'a', 'v'], &['a', 'i', 'f', 'f'],
        &['a', 'i', 'f'], &['c', 'a', 'f'], &['m', 'k', 'a'], &['w', 'm', 'a'],
        &['a', 'p', 'e'],
    ];
    assert(list@.len() == 17);
    assert(forall|k: int| 0 <= k < 17 ==> #[trigger] list@[k]@ == audio_extensions()[k]) by {
        assert(list@[0]@ =~= audio_extensions()[0]);
        assert(list@[1]@ =~= audio_extensions()[1]);
        assert(list@[2]@ =~= audio_extensions()[2]);
        assert(list@[3]@ =~= audio_extensions()[3]);
        assert(list@[4]@ =~= audio_extensions()[4]);
        assert(list@[5]@ =~= audio_extensions()[5]);
        assert(list@[6]@ =~= audio_extensions()[6]);
        assert(list@[7]@ =~= audio_extensions()[7]);
        assert(list@[8]@ =~= audio_extensions()[8]);
        assert(list@[9]@ =~= audio_extensions()[9]);
        assert(list@[10]@ =~= audio_extensions()[10]);
        assert(list@[11]@ =~= audio_extensions()[11]);
        assert(list@[12]@ =~= audio_extensions()[12]);
        assert(list@[13]@ =~= audio_extensions()[13]);
        assert(list@[14]@ =~= audio_extensions()[14]);
        assert(list@[15]@ =~= audio_extensions()[15]);
        assert(list@[16]@ =~= audio_extensions()[16]);
    }
    let mut k: usize = 0;
    while k < 17
        invariant
            k <= 17,
            list@.len() == 17,
            e@ == lower@,
            forall|j: int| 0 <= j < 17 ==> #[trigger] list@[j]@ == audio_extensions()[j],
            forall|j: int| 0 <= j < k ==> audio_extensions()[j] != lower@,
        decreases 17 - k,
    {
        if crate::paths::chars_eq(e.as_slice(), list[k]) {
            assert(audio_extensions()[k as int] == lower@);
            return true;
        }
        k = k + 1;
    }
    false
}

/// Whether `path` names an audio file, judged by its extension.
pub fn is_audio_file(path: &str) -> (r: bool)
    ensures
        r == spec_is_audio_file(path@),
{
    match extension_of(path) {
        None => false,
        Some(e) => {
            let ext = string_from_chars(e.as_slice());
            let lower = to_lowercase(ext.as_str());
            is_audio_extension(lower.as_str())
        },
    }
}

/// The tags of one local audio file, as read by the metadata reader.
#[derive(Clone, Debug)]
pub struct LocalTrack {
    pub path: String,
    pub title: String,
    pub artist: String,
    pub album: String,
    pub album_artist: String,
    pub year: String,
    /// Whole seconds of playing time (the fraction is dropped).
    pub duration_secs: u64,
    pub cover_art_path: Option<String>,
}

/// `n` printed with at least two digits (`{:02}`).
pub open spec fn two_digits(n: nat) -> Seq<char> {
    if n < 10 {
        seq!['0'] + decimal(n)
    } else {
        decimal(n)
    }
}

/// `mm:ss` for a duration in whole seconds.
pub open spec fn mm_ss(total: nat) -> Seq<char> {
    two_digits(total / 60) + seq![':'] + two_digits(total % 60)
}

/// Append `n` with at least two digits.
pub fn push_two_digits(out: &mut Vec<char>, n: u64)
    ensures
        final(out)@ == old(out)@ + two_digits(n as nat),
{
    if n < 10 {
        out.push('0');
    }
    push_decimal(out, n);
    assert(final(out)@ =~= old(out)@ + two_digits(n as nat));
}

/// `mm:ss` for a duration in whole seconds.
pub fn format_mm_ss(total: u64) -> (r: String)
    ensures
        r@ == mm_ss(total as nat),
{
    let mut out: Vec<char> = Vec::new();
    push_two_digits(&mut out, total / 60);
    out.push(':');
    push_two_digits(&mut out, total % 60);
    assert(out@ =~= mm_ss(total as nat));
    string_from_chars(out.as_slice())
}

impl LocalTrack {
    /// The duration as `mm:ss`, the way both frontends show it.
    pub fn display_duration(&self) -> (r: String)
        ensures
            r@ == mm_ss(self.duration_secs as nat),
    {
        format_mm_ss(self.duration_secs)
    }

    /// A field-by-field copy of the track.
    pub fn copied(&self) -> (r: LocalTrack)
        ensures
            r == *self,
    {
        LocalTrack {
            path: self.path.clone(),
            title: self.title.clone(),
            artist: self.artist.clone(),
            album: self.album.clone(),
            album_artist: self.album_artist.clone(),
            year: self.year.clone(),
            duration_secs: self.duration_secs,
            cover_art_path: copy_opt_string(&self.cover_art_path),
        }
    }
}

/// A copy of an optional string.
pub fn copy_opt_string(o: &Option<String>) -> (r: Option<String>)
    ensures
        r == *o,
{
    match o {
        Some(s) => Some(s.clone()),
        None => None,
    }
}

// ─── Tags read from a file ───────────────────────────────────────────────────

/// A text tag the decoder found, by meaning.
#[derive(Clone, Debug)]
pub enum TextTag {
    Title(String),
    Artist(String),
    Album(String),
    AlbumArtist(String),
    ReleaseDate(String),
    RecordingDate(String),
}

/// Fields of the file's primary tag as the tag reader (not the decoder)
/// sees them, used when the decoder found no title.
#[derive(Clone, Debug)]
pub struct FallbackTags {
    pub title: Option<String>,
    pub artist: Option<String>,
    pub album: Option<String>,
    pub year: Option<u32>,
    pub album_artist: Option<String>,
}

/// Text fields of a track while its tags are applied.
pub struct TagFields {
    pub title: Seq<char>,
    pub artist: Seq<char>,
    pub album: Seq<char>,
    pub album_artist: Seq<char>,
    pub year: Seq<char>,
}

/// Apply the decoder's tags in order: a release date gives the year (its
/// first four characters), a recording date only when no year is set yet.
pub open spec fn apply_tags(f: TagFields, tags: Seq<TextTag>) -> TagFields
    decreases tags.len(),
{
    if tags.len() == 0 {
        f
    } else {
        let g = apply_tags(f, tags.drop_last());
        match tags.last() {
            TextTag::Title(v) => TagFields { title: v@, ..g },
            TextTag::Artist(v) => TagFields { artist: v@, ..g },
            TextTag::Album(v) => TagFields { album: v@, ..g },
            TextTag::AlbumArtist(v) => TagFields { album_artist: v@, ..g },
            TextTag::ReleaseDate(v) => TagFields { year: v@.take(if v@.len() < 4 { v@.len() as int } else { 4 }), ..g },
            TextTag::RecordingDate(v) => if g.year.len() == 0 {
                TagFields { year: v@.take(if v@.len() < 4 { v@.len() as int } else { 4 }), ..g }
            } else {
                g
            },
        }
    }
}

pub open spec fn some_or(o: Option<String>, d: Seq<char>) -> Seq<char> {
    match o {
        Some(v) => v@,
        None => d,
    }
}

/// The track's fields: its file stem (else `Unknown`) as the title, the
/// decoder's tags, the artist standing in for a missing album artist, and,
/// when the decoder gave no title, the tag reader's fields; an album artist
/// still missing after that is the artist once more.
pub open spec fn tagged_fields(stem: Seq<char>, tags: Seq<TextTag>, fallback: Option<FallbackTags>) -> TagFields {
    let c = filled_fields(stem, tags, fallback);
    if c.album_artist.len() == 0 {
        TagFields { album_artist: c.artist, ..c }
    } else {
        c
    }
}

/// The fields after the decoder's tags and the tag reader's fallback, before
/// the last album-artist fill.
pub open spec fn filled_fields(stem: Seq<char>, tags: Seq<TextTag>, fallback: Option<FallbackTags>) -> TagFields {
    let start = TagFields { title: stem, artist: Seq::empty(), album: Seq::empty(), album_artist: Seq::empty(), year: Seq::empty() };
    let a = apply_tags(start, tags);
    let b = if a.album_artist.len() == 0 {
        TagFields { album_artist: a.artist, ..a }
    } else {
        a
    };
    match fallback {
        Some(fb) => if b.title == stem {
            TagFields {
                title: some_or(fb.title, b.title),
                artist: some_or(fb.artist, b.artist),
                album: some_or(fb.album, b.album),
                year: match fb.year {
                    Some(y) => crate::text::decimal(y as nat),
                    None => b.year,
                },
                album_artist: if b.album_artist.len() == 0 {
                    some_or(fb.album_artist, b.album_artist)
                } else {
                    b.album_artist
                },
            }
        } else {
            b
        },
        None => b,
    }
}

fn take4(v: &String) -> (r: String)
    ensures
        r@ == v@.take(if v@.len() < 4 { v@.len() as int } else { 4 }),
{
    let cs = crate::text::chars_of(v.as_str());
    let n: usize = if cs.len() < 4 { cs.len() } else { 4 };
    let mut out: Vec<char> = Vec::new();
    let mut i: usize = 0;
    while i < n
        invariant
            i <= n <= cs@.len(),
            cs@ == v@,
            out@ == cs@.take(i as int),
        decreases n - i,
    {
        out.push(cs[i]);
        i = i + 1;
        assert(out@ =~= cs@.take(i as int));
    }
    string_from_chars(out.as_slice())
}

fn opt_or(o: &Option<String>, d: &String) -> (r: String)
    ensures
        r@ == some_or(*o, d@),
{
    match o {
        Some(v) => v.clone(),
        None => d.clone(),
    }
}

/// A local track from what was read of the file: its path, its file stem,
/// the decoder's tags and duration, the tag reader's fields, and the cover
/// found for it.
pub fn track_from_tags(path: String, stem: Option<String>, tags: &Vec<TextTag>, fallback: &Option<FallbackTags>, duration_secs: u64, cover: Option<String>) -> (t: LocalTrack)
    ensures
        ({
            let st = match stem {
                Some(s) => s@,
                None => "Unknown"@,
            };
            let f = tagged_fields(st, tags@, *fallback);
            &&& t.path == path
            &&& t.title@ == f.title
            &&& t.artist@ == f.artist
            &&& t.album@ == f.album
            &&& t.album_artist@ == f.album_artist
            &&& t.year@ == f.year
            &&& t.duration_secs == duration_secs
            &&& t.cover_art_path == cover
        }),
{
    let stem = match stem {
        Some(s) => s,
        None => "Unknown".to_string(),
    };
    let ghost st = stem@;
    let mut title = stem.clone();
    let mut artist = String::new();
    let mut album = String::new();
    let mut album_artist = String::new();
    let mut year = String::new();
    let ghost start = TagFields { title: st, artist: Seq::empty(), album: Seq::empty(), album_artist: Seq::empty(), year: Seq::empty() };
    let mut i: usize = 0;
    while i < tags.len()
        invariant
            i <= tags@.len(),
            ({
                let g = apply_tags(start, tags@.take(i as int));
                &&& title@ == g.title
                &&& artist@ == g.artist
                &&& album@ == g.album
                &&& album_artist@ == g.album_artist
                &&& year@ == g.year
            }),
        decreases tags@.len() - i,
    {
        assert(tags@.take(i + 1).drop_last() =~= tags@.take(i as int));
        match &tags[i] {
            TextTag::Title(v) => { title = v.clone(); },
            TextTag::Artist(v) => { artist = v.clone(); },
            TextTag::Album(v) => { album = v.clone(); },
            TextTag::AlbumArtist(v) => { album_artist = v.clone(); },
            TextTag::ReleaseDate(v) => { year = take4(v); },
            TextTag::RecordingDate(v) => {
                if year.as_str().is_empty() {
                    year = take4(v);
                }
            },
        }
        i = i + 1;
    }
    assert(tags@.take(i as int) =~= tags@);
    if album_artist.as_str().is_empty() {
        album_artist = artist.clone();
    }
    match fallback {
        Some(fb) => {
            if title == stem {
                title = opt_or(&fb.title, &title);
                artist = opt_or(&fb.artist, &artist);
                album = opt_or(&fb.album, &album);
                match fb.year {
                    Some(y) => {
                        let mut ys: Vec<char> = Vec::new();
                        crate::text::push_decimal(&mut ys, y as u64);
                        assert(ys@ =~= crate::text::decimal(y as nat));
                        year = string_from_chars(ys.as_slice());
                    },
                    None => {},
                }
                if album_artist.as_str().is_empty() {
                    album_artist = opt_or(&fb.album_artist, &album_artist);
                }
            }
        },
        None => {},
    }
    if album_artist.as_str().is_empty() {
        album_artist = artist.clone();
    }
    LocalTrack { path, title, artist, album, album_artist, year, duration_secs, cover_art_path: cover }
}

/// The names of a cover image looked for next to an audio file, in order.
pub open spec fn cover_file_names() -> Seq<Seq<char>> {
    seq!["cover.jpg"@, "cover.png"@, "folder.jpg"@, "folder.png"@, "front.jpg"@, "front.png"@]
}

/// The `file:///` URL of a cover image on disk: backslashes become slashes
/// and leading slashes are dropped before the scheme's three.
pub open spec fn cover_url_of(path: Seq<char>) -> Seq<char> {
    let slashed = Seq::new(path.len(), |i: int| if path[i] == '\\' { '/' } else { path[i] });
    "file:///"@ + slashed.skip(lead_slashes(slashed))
}

/// Number of leading `/` of `s`.
pub open spec fn lead_slashes(s: Seq<char>) -> int
    decreases s.len(),
{
    if s.len() > 0 && s[0] == '/' {
        1 + lead_slashes(s.drop_first())
    } else {
        0
    }
}

proof fn lemma_lead_slashes(s: Seq<char>, k: int)
    requires
        0 <= k <= s.len(),
        forall|j: int| 0 <= j < k ==> s[j] == '/',
    ensures
        lead_slashes(s) == k + lead_slashes(s.skip(k)),
    decreases k,
{
    if k > 0 {
        assert(s.drop_first().skip(k - 1) =~= s.skip(k));
        lemma_lead_slashes(s.drop_first(), k - 1);
    } else {
        assert(s.skip(0) =~= s);
    }
}

/// The `file:///` URL of a cover image at `path`.
pub fn cover_file_url(path: &str) -> (r: String)
    ensures
        r@ == cover_url_of(path@),
{
    let cs = crate::text::chars_of(path);
    let ghost slashed = Seq::new(cs@.len(), |i: int| if cs@[i] == '\\' { '/' } else { cs@[i] });
    let mut k: usize = 0;
    while k < cs.len() && (cs[k] == '/' || cs[k] == '\\')
        invariant
            k <= cs@.len(),
            cs@ == path@,
            slashed.len() == cs@.len(),
            forall|q: int| 0 <= q < cs@.len() ==> #[trigger] slashed[q] == (if cs@[q] == '\\' { '/' } else { cs@[q] }),
            forall|j: int| 0 <= j < k ==> slashed[j] == '/',
        decreases cs@.len() - k,
    {
        k = k + 1;
    }
    proof {
        lemma_lead_slashes(slashed, k as int);
        if k < cs@.len() {
            assert(slashed.skip(k as int)[0] != '/');
        } else {
            assert(slashed.skip(k as int) =~= Seq::<char>::empty());
        }
    }
    let mut out: Vec<char> = Vec::new();
    push_str_chars(&mut out, "file:///");
    let ghost base = out@;
    let mut i = k;
    while i < cs.len()
        invariant
            k <= i <= cs@.len(),
            cs@ == path@,
            slashed.len() == cs@.len(),
            forall|q: int| 0 <= q < cs@.len() ==> #[trigger] slashed[q] == (if cs@[q] == '\\' { '/' } else { cs@[q] }),
            out@ == base + slashed.subrange(k as int, i as int),
        decreases cs@.len() - i,
    {
        let c = if cs[i] == '\\' { '/' } else { cs[i] };
        out.push(c);
        i = i + 1;
        assert(out@ =~= base + slashed.subrange(k as int, i as int));
    }
    assert(slashed.subrange(k as int, cs@.len() as int) =~= slashed.skip(k as int));
    string_from_chars(out.as_slice())
}

} // verus!
