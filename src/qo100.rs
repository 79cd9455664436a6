//! QO-100 DX-cluster spots: frequency display and the newest-first list.
use vstd::prelude::*;

use crate::text::{chars_of, collapse_white, collapse_white_chars, decimal, decimal_chars, string_of};

verus! {

/// Lowest frequency of the narrow-band transponder's display range, in Hz.
pub const BAND_LOW_HZ: i64 = 10489500;

/// First frequency above the display range, in Hz.
pub const BAND_HIGH_HZ: i64 = 10490000;

/// The base that displayed frequencies are relative to, in Hz.
pub const BAND_BASE_HZ: i64 = 10489000;

/// The display of a frequency in whole Hz: `.` and the offset from
/// 10 489 000 Hz inside [10 489 500, 10 490 000), else `--`.
pub open spec fn frequency_text(f: int) -> Seq<char> {
    if 10489500 <= f < 10490000 {
        seq!['.'] + decimal((f - 10489000) as nat)
    } else {
        seq!['-', '-']
    }
}

/// Display a spot frequency, given in whole Hz (`10489740` gives `.740`).
pub fn format_frequency(freq_hz: i64) -> (r: String)
    ensures
        r@ == frequency_text(freq_hz as int),
{
    if freq_hz >= BAND_LOW_HZ && freq_hz < BAND_HIGH_HZ {
        let digits = decimal_chars((freq_hz - BAND_BASE_HZ) as u64);
        let mut v: Vec<char> = vec!['.'];
        let mut i: usize = 0;
        while i < digits.len()
            invariant
                i <= digits@.len(),
                v@ == seq!['.'] + digits@.subrange(0, i as int),
            decreases digits.len() - i,
        {
            v.push(digits[i]);
            i = i + 1;
            assert(v@ =~= seq!['.'] + digits@.subrange(0, i as int));
        }
        assert(digits@.subrange(0, digits@.len() as int) =~= digits@);
        string_of(&v)
    } else {
        string_of(&['-', '-'])
    }
}

/// A spot as the cluster feed gives it, its frequency rounded to whole Hz.
#[derive(Debug, Clone)]
pub struct Qo100RawSpot {
    pub datetime: String,
    pub frequency_hz: i64,
    pub de: String,
    pub dx: String,
    pub comment: String,
    pub spot_source: String,
}

/// A spot as it is shown.
#[derive(Debug, Clone)]
pub struct Qo100Spot {
    pub datetime: String,
    pub dx: String,
    /// The displayed frequency, e.g. `.740`.
    pub freq: String,
    /// The comment with its white space collapsed.
    pub comments: String,
    pub spotter: String,
    pub source: String,
}

/// `s` is the shown form of `raw`.
pub open spec fn spot_of(s: Qo100Spot, raw: Qo100RawSpot) -> bool {
    &&& s.datetime@ == raw.datetime@
    &&& s.dx@ == raw.dx@
    &&& s.freq@ == frequency_text(raw.frequency_hz as int)
    &&& s.comments@ == collapse_white(raw.comment@)
    &&& s.spotter@ == raw.de@
    &&& s.source@ == raw.spot_source@
}

/// The shown form of one spot.
pub fn spot_from_raw(raw: &Qo100RawSpot) -> (r: Qo100Spot)
    ensures
        spot_of(r, *raw),
{
    let comment = chars_of(raw.comment.as_str());
    let collapsed = collapse_white_chars(&comment);
    Qo100Spot {
        datetime: raw.datetime.clone(),
        dx: raw.dx.clone(),
        freq: format_frequency(raw.frequency_hz),
        comments: string_of(&collapsed),
        spotter: raw.de.clone(),
        source: raw.spot_source.clone(),
    }
}

/// The shown spots, newest first, from the feed's oldest-first list.
pub fn spots_newest_first(raw: &Vec<Qo100RawSpot>) -> (r: Vec<Qo100Spot>)
    ensures
        r@.len() == raw@.len(),
        forall|i: int| 0 <= i < r@.len() ==> spot_of(#[trigger] r@[i], raw@[raw@.len() - 1 - i]),
{
    let mut out: Vec<Qo100Spot> = Vec::new();
    let mut j: usize = raw.len();
    while j > 0
        invariant
            j <= raw@.len(),
            out@.len() == raw@.len() - j,
            forall|i: int| 0 <= i < out@.len() ==> spot_of(#[trigger] out@[i], raw@[raw@.len() - 1 - i]),
        decreases j,
    {
        let s = spot_from_raw(&raw[j - 1]);
        out.push(s);
        j = j - 1;
    }
    out
}

/// Most spots shown in one image.
pub const MAX_SPOTS: usize = 50;

/// Longest comment shown in full, in characters.
pub const MAX_COMMENT_CHARS: usize = 40;

/// A comment as shown: where it is longer than 40 characters, its first 37
/// followed by `...`.
pub open spec fn shown_comment(c: Seq<char>) -> Seq<char> {
    if c.len() > 40 {
        c.subrange(0, 37) + seq!['.', '.', '.']
    } else {
        c
    }
}

/// Shorten a comment for display.
pub fn truncate_comment(c: &str) -> (r: String)
    ensures
        r@ == shown_comment(c@),
{
    let v = chars_of(c);
    if v.len() > MAX_COMMENT_CHARS {
        let mut out: Vec<char> = Vec::new();
        let mut i: usize = 0;
        while i < MAX_COMMENT_CHARS - 3
            invariant
                i <= 37 < v@.len(),
                out@ == v@.subrange(0, i as int),
            decreases 37 - i,
        {
            out.push(v[i]);
            i = i + 1;
            assert(out@ =~= v@.subrange(0, i as int));
        }
        out.push('.');
        out.push('.');
        out.push('.');
        assert(out@ =~= shown_comment(c@));
        string_of(&out)
    } else {
        string_of(&v)
    }
}

} // verus!
