//! Rows of the frequency-metadata CSV, and what the store reads from them.
use vstd::prelude::*;

use crate::command::first_white;
use crate::lotw::{parse_u64, parse_u64_chars};
use crate::text::{chars_of, has_piece, same_chars, slice_chars, string_of, trim, trim_chars, upper_of, upper_text};

verus! {

/// One row of the CSV, with the header
/// `name,norad_id,uplink,downlink,beacon,mode,callsign,satnogs_id`.
#[derive(Debug, Clone)]
pub struct FrequencyCsvRow {
    pub name: String,
    pub norad_id: String,
    pub uplink: String,
    pub downlink: String,
    pub beacon: String,
    pub mode: String,
    pub callsign: String,
    pub satnogs_id: String,
}

/// What `str::parse::<u32>` gives.
pub open spec fn parse_u32(s: Seq<char>) -> Option<u32> {
    match parse_u64(s) {
        Some(v) => if v <= u32::MAX {
            Some(v as u32)
        } else {
            None
        },
        None => None,
    }
}

pub open spec fn starts_with(s: Seq<char>, p: Seq<char>) -> bool {
    p.len() <= s.len() && s.subrange(0, p.len() as int) == p
}

/// The first white-space separated word of a trimmed text, or `Default`.
pub open spec fn first_word(m: Seq<char>) -> Seq<char> {
    if m.len() == 0 {
        "Default"@
    } else if first_white(m) >= 0 {
        m.subrange(0, first_white(m))
    } else {
        m
    }
}

/// The short transponder label of a mode text (compared in upper
/// case): `SSTV`, `FM`, `SSB`, `CW`, `Digipeater`, `DATV`, `Mode X` for a
/// single letter, else its first word.
pub open spec fn mode_label(mode: Seq<char>) -> Seq<char> {
    let m = upper_of(trim(mode));
    if has_piece(m, "SSTV"@) {
        "SSTV"@
    } else if starts_with(m, "FM"@) {
        "FM"@
    } else if has_piece(m, "SSB"@) {
        "SSB"@
    } else if starts_with(m, "CW"@) {
        "CW"@
    } else if has_piece(m, "DIGIPEATER"@) || has_piece(m, "APRS"@) || has_piece(m, "PACKET"@)
        || has_piece(m, "DIGI"@) {
        "Digipeater"@
    } else if has_piece(m, "DVB-S2"@) || has_piece(m, "DATV"@) {
        "DATV"@
    } else if m.len() == 1 && (('A' <= m[0] && m[0] <= 'Z') || ('a' <= m[0] && m[0] <= 'z')) {
        "Mode "@ + m
    } else {
        first_word(m)
    }
}

fn has_text(v: &[char], t: &str) -> (r: bool)
    ensures
        r == has_piece(v@, t@),
{
    let w = chars_of(t);
    crate::text::contains_chars(v, &w)
}

fn begins_with(v: &[char], t: &str) -> (r: bool)
    ensures
        r == starts_with(v@, t@),
{
    let w = chars_of(t);
    if w.len() > v.len() {
        return false;
    }
    let head = slice_chars(v, 0, w.len());
    same_chars(&head, &w)
}

fn first_word_chars(m: &[char]) -> (r: Vec<char>)
    ensures
        r@ == first_word(m@),
{
    if m.len() == 0 {
        return chars_of("Default");
    }
    let mut i: usize = 0;
    while i < m.len()
        invariant
            i <= m@.len(),
            forall|k: int| 0 <= k < i ==> !crate::text::is_white(m@[k]),
        decreases m.len() - i,
    {
        if crate::text::is_white_char(m[i]) {
            proof {
                lemma_first_white_at(m@, i as int);
            }
            return slice_chars(m, 0, i);
        }
        i = i + 1;
    }
    proof {
        lemma_no_white(m@);
    }
    slice_chars(m, 0, m.len())
}

proof fn lemma_first_white_at(s: Seq<char>, i: int)
    requires
        0 <= i < s.len(),
        crate::text::is_white(s[i]),
        forall|k: int| 0 <= k < i ==> !crate::text::is_white(s[k]),
    ensures
        first_white(s) == i,
    decreases i,
{
    if i > 0 {
        lemma_first_white_at(s.drop_first(), i - 1);
    }
}

proof fn lemma_no_white(s: Seq<char>)
    requires
        forall|k: int| 0 <= k < s.len() ==> !crate::text::is_white(s[k]),
    ensures
        first_white(s) == -1,
        s.subrange(0, s.len() as int) == s,
    decreases s.len(),
{
    assert(s.subrange(0, s.len() as int) =~= s);
    if s.len() > 0 {
        lemma_no_white(s.drop_first());
    }
}

impl FrequencyCsvRow {
    /// The NORAD id: the trimmed cell parsed as a `u32`.
    pub fn parse_norad_id(&self) -> (r: Option<u32>)
        ensures
            r == parse_u32(trim(self.norad_id@)),
    {
        let v = chars_of(self.norad_id.as_str());
        let t = trim_chars(&v);
        match parse_u64_chars(&t) {
            Some(x) => if x <= u32::MAX as u64 {
                Some(x as u32)
            } else {
                None
            },
            None => None,
        }
    }

    /// The short label of the row's mode.
    pub fn extract_mode_label(&self) -> (r: String)
        ensures
            r@ == mode_label(self.mode@),
    {
        let v = chars_of(self.mode.as_str());
        let t = trim_chars(&v);
        let m = upper_text(&t);
        if has_text(&m, "SSTV") {
            String::from_str("SSTV")
        } else if begins_with(&m, "FM") {
            String::from_str("FM")
        } else if has_text(&m, "SSB") {
            String::from_str("SSB")
        } else if begins_with(&m, "CW") {
            String::from_str("CW")
        } else if has_text(&m, "DIGIPEATER") || has_text(&m, "APRS") || has_text(&m, "PACKET")
            || has_text(&m, "DIGI") {
            String::from_str("Digipeater")
        } else if has_text(&m, "DVB-S2") || has_text(&m, "DATV") {
            String::from_str("DATV")
        } else if m.len() == 1 && (('A' <= m[0] && m[0] <= 'Z') || ('a' <= m[0] && m[0] <= 'z')) {
            let mut out = chars_of("Mode ");
            out.push(m[0]);
            assert(out@ =~= "Mode "@ + m@);
            string_of(&out)
        } else {
            let w = first_word_chars(&m);
            string_of(&w)
        }
    }

    /// The transponder label of the row: its mode's label, or `Default`
    /// where the mode cell is empty.
    pub fn transponder_label(&self) -> (r: String)
        ensures
            self.mode@.len() == 0 ==> r@ == "Default"@,
            self.mode@.len() > 0 ==> r@ == mode_label(self.mode@),
    {
        if self.mode.as_str().is_empty() {
            String::from_str("Default")
        } else {
            self.extract_mode_label()
        }
    }
}

} // verus!
