//! The DX-World timeline page: month, last update, and the DXpeditions read
//! from the page's chart script.
//!
//! The page's pieces are found with regular expressions (the `regex`
//! crate); what is done with the matches is verified here.
use vstd::prelude::*;

use crate::lotw::{first_index_of, parse_u64, parse_u64_chars};
use vstd::string::StrSliceExecFns;
use crate::text::{chars_of, first_index, slice_chars, trim, trim_chars};

verus! {

/// The chart's month label.
pub const MONTH_PATTERN: &'static str = r#"context\.fillText\(['"]([A-Z]+)['"],\s*\d+,\s*340\)"#;

/// The month in the page's description, where the chart has none.
pub const META_MONTH_PATTERN: &'static str = r#"content="DX-World\.net - ([A-Z]+) Featured"#;

pub const LAST_UPDATE_PATTERN: &'static str = r#"Last update:\s*([^'"]+)['"]"#;

/// The list of callsign labels.
pub const LABELS_PATTERN: &'static str = r#"var labels = \[(.*?)\];"#;

/// One quoted label.
pub const LABEL_ITEM_PATTERN: &'static str = r#"['"]([^'"]*)['"]\s*"#;

/// A tooltip: location and link.
pub const TOOLTIP_PATTERN: &'static str = r#"<b>([^<]*)</b><br /><a href=\\"([^\\"]*)\\""#;

/// The chart's data matrix.
pub const DATA_PATTERN: &'static str = r#"(?s)data = \[(.*?)\];"#;

/// One line of the matrix: two bracketed arrays.
pub const DATA_LINE_PATTERN: &'static str = r#"\[\[([^\]]+)\]\s*,\s*\[([^\]]+)\]\]"#;

/// The groups of the first match of a regular expression in a text (group
/// 0 is the whole match; a group that took part in no match is `None`);
/// `None` where nothing matches or the pattern does not compile.
pub uninterp spec fn regex_first(pattern: Seq<char>, text: Seq<char>) -> Option<Seq<Option<Seq<char>>>>;

/// The groups of every non-overlapping match, left to right; empty where
/// the pattern does not compile.
pub uninterp spec fn regex_all(pattern: Seq<char>, text: Seq<char>) -> Seq<Seq<Option<Seq<char>>>>;

pub open spec fn groups_view(g: Seq<Option<String>>) -> Seq<Option<Seq<char>>> {
    g.map_values(|o: Option<String>| match o {
        Some(s) => Some(s@),
        None => None,
    })
}

/// Relies on `regex::Regex::captures`: the groups of the leftmost match of
/// the pattern in the text.
#[verifier::external_body]
fn first_captures(pattern: &str, text: &str) -> (r: Option<Vec<Option<String>>>)
    ensures
        match r {
            Some(g) => regex_first(pattern@, text@) == Some(groups_view(g@)),
            None => regex_first(pattern@, text@) is None,
        },
{
    let re = regex::Regex::new(pattern).ok()?;
    re.captures(text).map(|c| c.iter().map(|m| m.map(|m| m.as_str().to_string())).collect())
}

/// Relies on `regex::Regex::captures_iter`: the groups of each successive
/// non-overlapping match of the pattern in the text.
#[verifier::external_body]
fn all_captures(pattern: &str, text: &str) -> (r: Vec<Vec<Option<String>>>)
    ensures
        r@.len() == regex_all(pattern@, text@).len(),
        forall|i: int| 0 <= i < r@.len() ==> groups_view(#[trigger] r@[i]@) == regex_all(pattern@, text@)[i],
{
    match regex::Regex::new(pattern) {
        Ok(re) => re
            .captures_iter(text)
            .map(|c| c.iter().map(|m| m.map(|m| m.as_str().to_string())).collect())
            .collect(),
        Err(_) => Vec::new(),
    }
}

/// Group `k` of a match, where it took part.
pub open spec fn group(m: Option<Seq<Option<Seq<char>>>>, k: int) -> Option<Seq<char>> {
    match m {
        Some(g) => if 0 <= k < g.len() {
            g[k]
        } else {
            None
        },
        None => None,
    }
}

fn group_of(m: &Option<Vec<Option<String>>>, k: usize) -> (r: Option<String>)
    ensures
        match r {
            Some(s) => group(
                match m {
                    Some(g) => Some(groups_view(g@)),
                    None => None,
                },
                k as int,
            ) == Some(s@),
            None => group(
                match m {
                    Some(g) => Some(groups_view(g@)),
                    None => None,
                },
                k as int,
            ) is None,
        },
{
    match m {
        Some(g) => {
            if k < g.len() {
                match &g[k] {
                    Some(s) => Some(s.clone()),
                    None => None,
                }
            } else {
                None
            }
        },
        None => None,
    }
}

/// One expedition on the timeline.
#[derive(Debug, Clone)]
pub struct DxPedition {
    pub callsign: String,
    pub location: String,
    pub url: Option<String>,
    /// Day of the month it starts on.
    pub start_day: Option<u8>,
    pub duration_days: Option<u8>,
}

/// The timeline of one month.
#[derive(Debug, Clone)]
pub struct DxWorldTimeline {
    pub month: String,
    pub last_update: Option<String>,
    pub expeditions: Vec<DxPedition>,
}

pub ghost struct PeditionView {
    pub callsign: Seq<char>,
    pub location: Seq<char>,
    pub url: Option<Seq<char>>,
    pub start_day: Option<u8>,
    pub duration_days: Option<u8>,
}

impl View for DxPedition {
    type V = PeditionView;

    open spec fn view(&self) -> PeditionView {
        PeditionView {
            callsign: self.callsign@,
            location: self.location@,
            url: match self.url {
                Some(u) => Some(u@),
                None => None,
            },
            start_day: self.start_day,
            duration_days: self.duration_days,
        }
    }
}

/// The month: the chart label, else the description's, else `UNKNOWN`.
pub open spec fn month_of(html: Seq<char>) -> Seq<char> {
    match group(regex_first(MONTH_PATTERN@, html), 1) {
        Some(m) => m,
        None => match group(regex_first(META_MONTH_PATTERN@, html), 1) {
            Some(m) => m,
            None => "UNKNOWN"@,
        },
    }
}

/// The month the page shows.
pub fn extract_month(html: &str) -> (r: String)
    ensures
        r@ == month_of(html@),
{
    let m = first_captures(MONTH_PATTERN, html);
    if let Some(s) = group_of(&m, 1) {
        return s;
    }
    let meta = first_captures(META_MONTH_PATTERN, html);
    match group_of(&meta, 1) {
        Some(s) => s,
        None => String::from_str("UNKNOWN"),
    }
}

/// The page's last-update text.
pub fn extract_last_update(html: &str) -> (r: Option<String>)
    ensures
        match r {
            Some(s) => group(regex_first(LAST_UPDATE_PATTERN@, html@), 1) == Some(s@),
            None => group(regex_first(LAST_UPDATE_PATTERN@, html@), 1) is None,
        },
{
    let m = first_captures(LAST_UPDATE_PATTERN, html);
    group_of(&m, 1)
}

/// Group 1 of each match, for the matches that have it.
pub open spec fn first_groups(ms: Seq<Seq<Option<Seq<char>>>>) -> Seq<Seq<char>>
    decreases ms.len(),
{
    if ms.len() == 0 {
        Seq::empty()
    } else {
        match group(Some(ms.last()), 1) {
            Some(g) => first_groups(ms.drop_last()).push(g),
            None => first_groups(ms.drop_last()),
        }
    }
}

/// The callsign labels, in order.
pub open spec fn callsigns_of(html: Seq<char>) -> Seq<Seq<char>> {
    match group(regex_first(LABELS_PATTERN@, html), 1) {
        Some(list) => first_groups(regex_all(LABEL_ITEM_PATTERN@, list)),
        None => Seq::empty(),
    }
}

pub open spec fn strings_view(v: Seq<String>) -> Seq<Seq<char>> {
    v.map_values(|s: String| s@)
}

/// The callsign labels of the chart.
pub fn extract_callsigns(html: &str) -> (r: Vec<String>)
    ensures
        strings_view(r@) == callsigns_of(html@),
{
    let m = first_captures(LABELS_PATTERN, html);
    let list = match group_of(&m, 1) {
        Some(l) => l,
        None => {
            assert(strings_view(Seq::<String>::empty()) =~= Seq::empty());
            return Vec::new();
        },
    };
    let items = all_captures(LABEL_ITEM_PATTERN, list.as_str());
    let ghost ms = regex_all(LABEL_ITEM_PATTERN@, list@);
    let mut out: Vec<String> = Vec::new();
    let mut i: usize = 0;
    while i < items.len()
        invariant
            i <= items@.len() == ms.len(),
            forall|k: int| 0 <= k < items@.len() ==> groups_view(#[trigger] items@[k]@) == ms[k],
            strings_view(out@) == first_groups(ms.subrange(0, i as int)),
        decreases items.len() - i,
    {
        let ghost pre = ms.subrange(0, i + 1);
        assert(pre.drop_last() =~= ms.subrange(0, i as int));
        assert(pre.last() == groups_view(items@[i as int]@));
        let g = Some(items[i].clone());
        match group_of(&g, 1) {
            Some(s) => {
                let ghost before = out@;
                out.push(s);
                assert(strings_view(out@) =~= strings_view(before).push(s@));
            },
            None => {},
        }
        i = i + 1;
    }
    assert(ms.subrange(0, ms.len() as int) =~= ms);
    out
}

/// Location and link of each tooltip, in order.
pub open spec fn tooltips_of(html: Seq<char>) -> Seq<(Seq<char>, Option<Seq<char>>)> {
    regex_all(TOOLTIP_PATTERN@, html).map_values(|g: Seq<Option<Seq<char>>>| (
        match group(Some(g), 1) {
            Some(l) => l,
            None => Seq::empty(),
        },
        group(Some(g), 2),
    ))
}

pub open spec fn tips_view(v: Seq<(String, Option<String>)>) -> Seq<(Seq<char>, Option<Seq<char>>)> {
    v.map_values(|p: (String, Option<String>)| (p.0@, match p.1 {
        Some(u) => Some(u@),
        None => None,
    }))
}

/// The locations and links of the chart's tooltips.
pub fn extract_tooltips(html: &str) -> (r: Vec<(String, Option<String>)>)
    ensures
        tips_view(r@) == tooltips_of(html@),
{
    let items = all_captures(TOOLTIP_PATTERN, html);
    let ghost ms = regex_all(TOOLTIP_PATTERN@, html@);
    let mut out: Vec<(String, Option<String>)> = Vec::new();
    let mut i: usize = 0;
    while i < items.len()
        invariant
            i <= items@.len() == ms.len(),
            forall|k: int| 0 <= k < items@.len() ==> groups_view(#[trigger] items@[k]@) == ms[k],
            tips_view(out@) == tooltips_of(html@).subrange(0, i as int),
            ms == regex_all(TOOLTIP_PATTERN@, html@),
        decreases items.len() - i,
    {
        let g = Some(items[i].clone());
        let location = match group_of(&g, 1) {
            Some(l) => l,
            None => String::new(),
        };
        let url = group_of(&g, 2);
        let ghost before = out@;
        let ghost item = (location@, crate::amsat_name::opt_view(url));
        assert(tooltips_of(html@)[i as int] == item);
        out.push((location, url));
        assert(tips_view(out@) =~= tips_view(before).push(item));
        assert(tooltips_of(html@).subrange(0, i + 1) =~= tooltips_of(html@).subrange(0, i as int).push(item));
        i = i + 1;
    }
    assert(tooltips_of(html@).subrange(0, ms.len() as int) =~= tooltips_of(html@));
    out
}

/// What `str::parse::<u8>` gives.
pub open spec fn parse_u8(s: Seq<char>) -> Option<u8> {
    match parse_u64(s) {
        Some(v) => if v <= 255 {
            Some(v as u8)
        } else {
            None
        },
        None => None,
    }
}

/// A cell of the matrix: empty gives `None`, else the number where it parses.
pub open spec fn day_cell(s: Seq<char>) -> Option<u8> {
    if s.len() == 0 {
        None
    } else {
        parse_u8(s)
    }
}

/// Start day and duration from the text of a line's first array: its first
/// two comma-separated cells, trimmed.
pub open spec fn days_of_array(a: Seq<char>) -> (Option<u8>, Option<u8>) {
    let c = first_index(a, ',');
    if c < 0 {
        (day_cell(trim(a)), None)
    } else {
        let rest = a.subrange(c + 1, a.len() as int);
        let d = first_index(rest, ',');
        let second = if d < 0 {
            rest
        } else {
            rest.subrange(0, d)
        };
        (day_cell(trim(a.subrange(0, c))), day_cell(trim(second)))
    }
}

fn day_cell_exec(v: &[char]) -> (r: Option<u8>)
    ensures
        r == day_cell(v@),
{
    if v.len() == 0 {
        return None;
    }
    match parse_u64_chars(v) {
        Some(x) => if x <= 255 {
            Some(x as u8)
        } else {
            None
        },
        None => None,
    }
}

/// Start day and duration from a line's first array, e.g. `0, 28,,,'#8BFF61'`.
pub fn timeline_days(array: &str) -> (r: (Option<u8>, Option<u8>))
    ensures
        r == days_of_array(array@),
{
    let a = chars_of(array);
    let n = a.len();
    assert(a@.subrange(0, n as int) =~= a@);
    match first_index_of(&a, ',') {
        None => {
            let t = trim_chars(&a);
            (day_cell_exec(&t), None)
        },
        Some(c) => {
            let head = slice_chars(&a, 0, c);
            let rest = slice_chars(&a, c + 1, n);
            let second = match first_index_of(&rest, ',') {
                Some(d) => slice_chars(&rest, 0, d),
                None => {
                    let m = rest.len();
                    slice_chars(&rest, 0, m)
                },
            };
            assert(rest@.subrange(0, rest@.len() as int) =~= rest@);
            let t1 = trim_chars(&head);
            let t2 = trim_chars(&second);
            (day_cell_exec(&t1), day_cell_exec(&t2))
        },
    }
}

/// The (start day, duration) of each line of the matrix, in order.
pub open spec fn timeline_of(html: Seq<char>) -> Seq<(Option<u8>, Option<u8>)> {
    match group(regex_first(DATA_PATTERN@, html), 1) {
        Some(data) => first_groups(regex_all(DATA_LINE_PATTERN@, data)).map_values(
            |a: Seq<char>| days_of_array(a),
        ),
        None => Seq::empty(),
    }
}

/// The start days and durations of the chart's lines.
pub fn extract_timeline_data(html: &str) -> (r: Vec<(Option<u8>, Option<u8>)>)
    ensures
        r@ == timeline_of(html@),
{
    let m = first_captures(DATA_PATTERN, html);
    let data = match group_of(&m, 1) {
        Some(d) => d,
        None => {
            return Vec::new();
        },
    };
    let lines = all_captures(DATA_LINE_PATTERN, data.as_str());
    let ghost ms = regex_all(DATA_LINE_PATTERN@, data@);
    let mut arrays: Vec<String> = Vec::new();
    let mut i: usize = 0;
    while i < lines.len()
        invariant
            i <= lines@.len() == ms.len(),
            forall|k: int| 0 <= k < lines@.len() ==> groups_view(#[trigger] lines@[k]@) == ms[k],
            strings_view(arrays@) == first_groups(ms.subrange(0, i as int)),
        decreases lines.len() - i,
    {
        let ghost pre = ms.subrange(0, i + 1);
        assert(pre.drop_last() =~= ms.subrange(0, i as int));
        assert(pre.last() == groups_view(lines@[i as int]@));
        let g = Some(lines[i].clone());
        match group_of(&g, 1) {
            Some(s) => {
                let ghost before = arrays@;
                arrays.push(s);
                assert(strings_view(arrays@) =~= strings_view(before).push(s@));
            },
            None => {},
        }
        i = i + 1;
    }
    assert(ms.subrange(0, ms.len() as int) =~= ms);
    let ghost fg = first_groups(ms);
    let mut out: Vec<(Option<u8>, Option<u8>)> = Vec::new();
    let mut j: usize = 0;
    while j < arrays.len()
        invariant
            j <= arrays@.len(),
            strings_view(arrays@) == fg,
            out@ == fg.subrange(0, j as int).map_values(|a: Seq<char>| days_of_array(a)),
        decreases arrays.len() - j,
    {
        let d = timeline_days(arrays[j].as_str());
        assert(fg[j as int] == arrays@[j as int]@);
        out.push(d);
        assert(out@ =~= fg.subrange(0, j + 1).map_values(|a: Seq<char>| days_of_array(a)));
        j = j + 1;
    }
    assert(fg.subrange(0, fg.len() as int) =~= fg);
    out
}

/// The expeditions from the chart's parallel lists: one for each position
/// up to the longer of the callsign and tooltip lists whose callsign is
/// present and not empty; missing tooltips and days read as empty and
/// `None`.
pub open spec fn expeditions_upto(
    calls: Seq<Seq<char>>,
    tips: Seq<(Seq<char>, Option<Seq<char>>)>,
    days: Seq<(Option<u8>, Option<u8>)>,
    n: int,
) -> Seq<PeditionView>
    decreases n,
{
    if n <= 0 {
        Seq::empty()
    } else {
        let prev = expeditions_upto(calls, tips, days, n - 1);
        let i = n - 1;
        if i >= calls.len() || calls[i].len() == 0 {
            prev
        } else {
            let tip = if i < tips.len() {
                tips[i]
            } else {
                (Seq::empty(), None)
            };
            let day = if i < days.len() {
                days[i]
            } else {
                (None, None)
            };
            prev.push(
                PeditionView {
                    callsign: calls[i],
                    location: tip.0,
                    url: tip.1,
                    start_day: day.0,
                    duration_days: day.1,
                },
            )
        }
    }
}

pub open spec fn expeditions_of(
    calls: Seq<Seq<char>>,
    tips: Seq<(Seq<char>, Option<Seq<char>>)>,
    days: Seq<(Option<u8>, Option<u8>)>,
) -> Seq<PeditionView> {
    expeditions_upto(calls, tips, days, if calls.len() > tips.len() { calls.len() as int } else { tips.len() as int })
}

pub open spec fn peditions_view(v: Seq<DxPedition>) -> Seq<PeditionView> {
    v.map_values(|p: DxPedition| p@)
}

/// Join the chart's parallel lists into expeditions.
pub fn assemble_expeditions(
    callsigns: &Vec<String>,
    tooltips: &Vec<(String, Option<String>)>,
    days: &Vec<(Option<u8>, Option<u8>)>,
) -> (r: Vec<DxPedition>)
    ensures
        peditions_view(r@) == expeditions_of(strings_view(callsigns@), tips_view(tooltips@), days@),
{
    let ghost calls = strings_view(callsigns@);
    let ghost tips = tips_view(tooltips@);
    let n = if callsigns.len() > tooltips.len() {
        callsigns.len()
    } else {
        tooltips.len()
    };
    let mut out: Vec<DxPedition> = Vec::new();
    let mut i: usize = 0;
    while i < n
        invariant
            i <= n,
            n as int == (if calls.len() > tips.len() { calls.len() as int } else { tips.len() as int }),
            calls == strings_view(callsigns@),
            tips == tips_view(tooltips@),
            peditions_view(out@) == expeditions_upto(calls, tips, days@, i as int),
        decreases n - i,
    {
        if i < callsigns.len() && callsigns[i].as_str().unicode_len() > 0 {
            assert(calls[i as int] == callsigns@[i as int]@);
            let (location, url) = if i < tooltips.len() {
                assert(tips[i as int] == (tooltips@[i as int].0@, crate::amsat_name::opt_view(tooltips@[i as int].1)));
                (tooltips[i].0.clone(), tooltips[i].1.clone())
            } else {
                (String::new(), None)
            };
            let (start_day, duration_days) = if i < days.len() {
                days[i]
            } else {
                (None, None)
            };
            let p = DxPedition { callsign: callsigns[i].clone(), location, url, start_day, duration_days };
            let ghost before = out@;
            assert(p@ == expeditions_upto(calls, tips, days@, i + 1).last());
            out.push(p);
            assert(peditions_view(out@) =~= peditions_view(before).push(p@));
        } else {
            proof {
                if i < callsigns@.len() {
                    assert(calls[i as int] == callsigns@[i as int]@);
                }
            }
        }
        i = i + 1;
    }
    out
}

/// Read the timeline from the page's HTML; fields that cannot be found
/// read as `UNKNOWN`, `None` or empty.
pub fn parse_html(html: &str) -> (r: DxWorldTimeline)
    ensures
        r.month@ == month_of(html@),
        match r.last_update {
            Some(s) => group(regex_first(LAST_UPDATE_PATTERN@, html@), 1) == Some(s@),
            None => group(regex_first(LAST_UPDATE_PATTERN@, html@), 1) is None,
        },
        peditions_view(r.expeditions@) == expeditions_of(callsigns_of(html@), tooltips_of(html@), timeline_of(html@)),
{
    let month = extract_month(html);
    let last_update = extract_last_update(html);
    let callsigns = extract_callsigns(html);
    let tooltips = extract_tooltips(html);
    let days = extract_timeline_data(html);
    let expeditions = assemble_expeditions(&callsigns, &tooltips, &days);
    DxWorldTimeline { month, last_update, expeditions }
}

} // verus!
