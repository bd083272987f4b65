//! Optional romanization of Japanese lyric lines (kana and kanji to Hepburn
//! romaji), backed by the `kakasi` crate so it works offline.

use vstd::prelude::*;
use crate::library::str_views;

verus! {

/// How Japanese a piece of text looks.
#[derive(Clone, Copy, Debug, PartialEq, Eq, Structural)]
pub enum Japanese {
    /// No Japanese characters.
    No,
    /// Only CJK ideographs: maybe Japanese kanji, maybe Chinese.
    Maybe,
    /// Kana found.
    Yes,
}

/// Hiragana or katakana, as `kakasi` delimits them.
pub open spec fn is_kana(c: char) -> bool {
    (0x3041 <= c as u32 && c as u32 <= 0x3096) || (0x30A1 <= c as u32 && c as u32 <= 0x30FA)
}

/// A CJK unified ideograph, as `kakasi` delimits them.
pub open spec fn is_kanji(c: char) -> bool {
    0x4E00 <= c as u32 && c as u32 <= 0x9FAF
}

/// Any kana makes text Japanese; ideographs alone make it maybe Japanese.
pub open spec fn script_of(s: Seq<char>) -> Japanese {
    if exists|i: int| 0 <= i < s.len() && is_kana(#[trigger] s[i]) {
        Japanese::Yes
    } else if exists|i: int| 0 <= i < s.len() && is_kanji(#[trigger] s[i]) {
        Japanese::Maybe
    } else {
        Japanese::No
    }
}

/// `kakasi::is_japanese`: `True` as soon as a kana shows up, else `Maybe` if
/// an ideograph did, else `False`, by the crate's character ranges.
#[verifier::external_body]
fn kakasi_is_japanese(text: &str) -> (r: Japanese)
    ensures
        r == script_of(text@),
{
    match kakasi::is_japanese(text) {
        kakasi::IsJapanese::False => Japanese::No,
        kakasi::IsJapanese::Maybe => Japanese::Maybe,
        kakasi::IsJapanese::True => Japanese::Yes,
    }
}

/// The romaji `kakasi::convert` gives for a text. It depends on the text
/// alone (a fixed dictionary); the conversion rules take pages.
pub uninterp spec fn kakasi_romaji(text: Seq<char>) -> Seq<char>;

/// `kakasi::convert(text).romaji`.
#[verifier::external_body]
fn kakasi_convert_romaji(text: &str) -> (r: String)
    ensures
        r@ == kakasi_romaji(text@),
{
    kakasi::convert(text).romaji
}

/// True if the line contains any kana, or kanji that are plausibly Japanese.
/// Pure-Latin lines (an English chorus) are left untouched.
pub fn is_japanese(text: &str) -> (r: bool)
    ensures
        r == (script_of(text@) != Japanese::No),
{
    let j = kakasi_is_japanese(text);
    match j {
        Japanese::No => false,
        _ => true,
    }
}

/// A line as shown with romanization on.
pub open spec fn romanized(s: Seq<char>) -> Seq<char> {
    if script_of(s) != Japanese::No {
        kakasi_romaji(s)
    } else {
        s
    }
}

/// Romanize a single line if it looks Japanese; otherwise return it verbatim.
pub fn romanize_line(text: &str) -> (r: String)
    ensures
        r@ == romanized(text@),
{
    if is_japanese(text) {
        kakasi_convert_romaji(text)
    } else {
        text.to_string()
    }
}

/// Romanize each lyric line's text in place when `enabled` is set. The caller
/// keeps the lines' timings, so synced highlighting keeps lining up.
pub fn romanize_lines(lines: &mut Vec<String>, enabled: bool)
    ensures
        !enabled ==> final(lines)@ == old(lines)@,
        enabled ==> str_views(final(lines)@) == Seq::new(old(lines)@.len(), |i: int| romanized(old(lines)@[i]@)),
{
    if !enabled {
        return;
    }
    let ghost orig = lines@;
    let mut i: usize = 0;
    while i < lines.len()
        invariant
            i <= lines@.len(),
            lines@.len() == orig.len(),
            forall|k: int| 0 <= k < i ==> (#[trigger] lines@[k])@ == romanized(orig[k]@),
            forall|k: int| i <= k < lines@.len() ==> #[trigger] lines@[k] == orig[k],
        decreases lines@.len() - i,
    {
        if is_japanese(lines[i].as_str()) {
            let r = kakasi_convert_romaji(lines[i].as_str());
            lines.set(i, r);
        }
        i = i + 1;
    }
    assert(str_views(lines@) =~= Seq::new(orig.len(), |i: int| romanized(orig[i]@)));
}

} // verus!
