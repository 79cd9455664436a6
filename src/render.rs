//! What the feed and satellite images are made of: the SVG rows of the feed
//! tables, their text escaping and number format, and image file names.
//!
//! Coordinates are whole pixels; a half-row offset is written with one
//! decimal, as the templates expect.
use vstd::prelude::*;

use crate::lotw::LotwQueueRow;
use crate::qo100::{shown_comment, truncate_comment, Qo100Spot};
use crate::text::{chars_of, decimal, decimal_chars, string_of};

verus! {

/// Seconds in a quarter hour.
pub const QUARTER_SECS: i64 = 900;

/// The escaped form of one character in XML text.
pub open spec fn xml_char(c: char) -> Seq<char> {
    if c == '&' {
        "&amp;"@
    } else if c == '<' {
        "&lt;"@
    } else if c == '>' {
        "&gt;"@
    } else if c == '"' {
        "&quot;"@
    } else if c == '\'' {
        "&apos;"@
    } else {
        seq![c]
    }
}

/// `s` with `& < > " '` escaped for XML.
pub open spec fn xml_escaped(s: Seq<char>) -> Seq<char>
    decreases s.len(),
{
    if s.len() == 0 {
        s
    } else {
        xml_escaped(s.drop_last()) + xml_char(s.last())
    }
}

/// Decimal digits grouped by threes with commas (`1234567` gives `1,234,567`).
pub open spec fn grouped(d: Seq<char>) -> Seq<char>
    decreases d.len(),
{
    if d.len() <= 3 {
        d
    } else {
        grouped(d.subrange(0, d.len() - 3)) + seq![','] + d.subrange(d.len() - 3, d.len() as int)
    }
}

pub open spec fn thousands(n: u64) -> Seq<char> {
    grouped(decimal(n as nat))
}

/// Append `s` to `buf`.
fn push_text(buf: &mut Vec<char>, s: &str)
    ensures
        final(buf)@ == old(buf)@ + s@,
{
    let v = chars_of(s);
    push_chars(buf, &v);
}

/// Append `v` to `buf`.
fn push_chars(buf: &mut Vec<char>, v: &[char])
    ensures
        final(buf)@ == old(buf)@ + v@,
{
    let ghost start = buf@;
    let mut i: usize = 0;
    while i < v.len()
        invariant
            i <= v@.len(),
            buf@ == start + v@.subrange(0, i as int),
        decreases v.len() - i,
    {
        buf.push(v[i]);
        i = i + 1;
        assert(buf@ =~= start + v@.subrange(0, i as int));
    }
    assert(v@.subrange(0, v@.len() as int) =~= v@);
}

fn push_number(buf: &mut Vec<char>, n: u64)
    ensures
        final(buf)@ == old(buf)@ + decimal(n as nat),
{
    let d = decimal_chars(n);
    push_chars(buf, &d);
}

fn push_escaped(buf: &mut Vec<char>, s: &str)
    ensures
        final(buf)@ == old(buf)@ + xml_escaped(s@),
{
    let v = chars_of(s);
    let ghost start = buf@;
    let mut i: usize = 0;
    while i < v.len()
        invariant
            i <= v@.len(),
            v@ == s@,
            buf@ == start + xml_escaped(v@.subrange(0, i as int)),
        decreases v.len() - i,
    {
        let c = v[i];
        let ghost before = buf@;
        if c == '&' {
            push_text(buf, "&amp;");
        } else if c == '<' {
            push_text(buf, "&lt;");
        } else if c == '>' {
            push_text(buf, "&gt;");
        } else if c == '"' {
            push_text(buf, "&quot;");
        } else if c == '\'' {
            push_text(buf, "&apos;");
        } else {
            buf.push(c);
            assert(buf@ =~= before + seq![c]);
        }
        assert(v@.subrange(0, i + 1).drop_last() =~= v@.subrange(0, i as int));
        assert(buf@ =~= start + xml_escaped(v@.subrange(0, i + 1)));
        i = i + 1;
    }
    assert(v@.subrange(0, v@.len() as int) =~= v@);
}

/// `text` escaped for XML.
pub fn escape_xml(text: &str) -> (r: String)
    ensures
        r@ == xml_escaped(text@),
{
    let mut buf: Vec<char> = Vec::new();
    push_escaped(&mut buf, text);
    assert(buf@ =~= xml_escaped(text@));
    string_of(&buf)
}

/// `n` in decimal with commas between groups of three digits.
pub fn format_number(n: u64) -> (r: String)
    ensures
        r@ == thousands(n),
{
    let d = decimal_chars(n);
    let len = d.len();
    let first = if len % 3 == 0 {
        3
    } else {
        len % 3
    };
    let mut buf: Vec<char> = Vec::new();
    let mut i: usize = 0;
    // The first group, then each further group after a comma.
    while i < first && i < len
        invariant
            i <= first <= 3,
            len == d@.len(),
            buf@ == d@.subrange(0, i as int),
        decreases first - i,
    {
        buf.push(d[i]);
        i = i + 1;
        assert(buf@ =~= d@.subrange(0, i as int));
    }
    proof {
        lemma_decimal_nonempty(n as nat);
    }
    let mut end = i;
    while end < len
        invariant
            0 < i <= end <= len == d@.len(),
            (end - i) % 3 == 0,
            i == first || i == len,
            first == (if len % 3 == 0 { 3 } else { len % 3 }),
            buf@ == grouped(d@.subrange(0, end as int)),
        decreases len - end,
    {
        proof {
            let s = d@.subrange(0, end + 3);
            assert(s.subrange(0, s.len() - 3) =~= d@.subrange(0, end as int));
            assert(s.subrange(s.len() - 3, s.len() as int) =~= d@.subrange(end as int, end + 3));
        }
        buf.push(',');
        buf.push(d[end]);
        buf.push(d[end + 1]);
        buf.push(d[end + 2]);
        assert(buf@ =~= grouped(d@.subrange(0, end + 3)));
        end = end + 3;
    }
    proof {
        if first <= len {
            lemma_grouped_head(d@, first as int);
        }
    }
    assert(d@.subrange(0, len as int) =~= d@);
    string_of(&buf)
}

proof fn lemma_decimal_nonempty(n: nat)
    ensures
        decimal(n).len() >= 1,
    decreases n,
{
    if n >= 10 {
        lemma_decimal_nonempty(n / 10);
    }
}

proof fn lemma_grouped_head(d: Seq<char>, k: int)
    requires
        1 <= k <= 3,
        k <= d.len(),
    ensures
        grouped(d.subrange(0, k)) == d.subrange(0, k),
{
}

/// Start of the quarter hour that holds `t`.
pub open spec fn quarter_start(t: int) -> int {
    t - t % 900
}

/// The start of the quarter hour that holds `t`, which names a satellite
/// query image.
pub fn quarter_floor(t: i64) -> (r: i64)
    requires
        t >= i64::MIN + QUARTER_SECS,
    ensures
        r as int == quarter_start(t as int),
{
    let m = t % QUARTER_SECS;
    if m < 0 {
        t - m - QUARTER_SECS
    } else {
        t - m
    }
}

/// `YYYYmmdd_HHMM` of a UTC instant given in Unix seconds; `None` for an
/// instant outside the calendar's range.
pub uninterp spec fn utc_stamp_text(secs: i64) -> Option<Seq<char>>;

/// Relies on chrono's `DateTime::from_timestamp` and `format` with the
/// pattern `%Y%m%d_%H%M`: the UTC calendar stamp of an instant.
#[verifier::external_body]
pub(crate) fn utc_stamp(secs: i64) -> (r: Option<String>)
    ensures
        match r {
            Some(s) => utc_stamp_text(secs) == Some(s@),
            None => utc_stamp_text(secs) is None,
        },
{
    chrono::DateTime::from_timestamp(secs, 0).map(|d| d.format("%Y%m%d_%H%M").to_string())
}

/// The name of a feed image: `<feed>_<stamp>.png`.
pub open spec fn feed_image_name(feed: Seq<char>, stamp: Seq<char>) -> Seq<char> {
    feed + seq!['_'] + stamp + ".png"@
}

/// The file name of a feed image fetched at `fetched_at`, e.g.
/// `lotw_20260218_1015.png`; `None` where the instant has no calendar stamp.
pub fn feed_image_filename(feed: &str, fetched_at: i64) -> (r: Option<String>)
    ensures
        match r {
            Some(s) => utc_stamp_text(fetched_at) matches Some(t) && s@ == feed_image_name(feed@, t),
            None => utc_stamp_text(fetched_at) is None,
        },
{
    match utc_stamp(fetched_at) {
        Some(stamp) => {
            let mut buf: Vec<char> = Vec::new();
            push_text(&mut buf, feed);
            buf.push('_');
            push_text(&mut buf, stamp.as_str());
            push_text(&mut buf, ".png");
            assert(buf@ =~= feed_image_name(feed@, stamp@));
            Some(string_of(&buf))
        },
        None => None,
    }
}

/// Whether a character counts as alphanumeric, as `char::is_alphanumeric`
/// decides it.
pub uninterp spec fn alphanumeric(c: char) -> bool;

/// Relies on `char::is_alphanumeric`: Unicode alphabetic or numeric, which
/// ASCII letters and digits are.
#[verifier::external_body]
fn is_alphanumeric(c: char) -> (r: bool)
    ensures
        r == alphanumeric(c),
        ('a' <= c && c <= 'z') || ('A' <= c && c <= 'Z') || ('0' <= c && c <= '9') ==> r,
{
    c.is_alphanumeric()
}

/// The alphanumeric characters of a text, in order.
pub open spec fn alphanumeric_part(s: Seq<char>) -> Seq<char>
    decreases s.len(),
{
    if s.len() == 0 {
        s
    } else if alphanumeric(s.last()) {
        alphanumeric_part(s.drop_last()).push(s.last())
    } else {
        alphanumeric_part(s.drop_last())
    }
}

/// The alphanumeric characters of a satellite name, lower-cased.
pub open spec fn file_name_part(s: Seq<char>) -> Seq<char> {
    crate::text::lower_of(alphanumeric_part(s))
}

/// A satellite name as it appears in an image file name.
pub fn normalize_sat_name(name: &str) -> (r: String)
    ensures
        r@ == file_name_part(name@),
{
    let v = chars_of(name);
    let mut out: Vec<char> = Vec::new();
    let mut i: usize = 0;
    while i < v.len()
        invariant
            i <= v@.len(),
            out@ == alphanumeric_part(v@.subrange(0, i as int)),
        decreases v.len() - i,
    {
        assert(v@.subrange(0, i + 1).drop_last() =~= v@.subrange(0, i as int));
        if is_alphanumeric(v[i]) {
            out.push(v[i]);
        }
        i = i + 1;
    }
    assert(v@.subrange(0, v@.len() as int) =~= v@);
    let lowered = crate::text::lower_text(&out);
    string_of(&lowered)
}

/// `parts` joined by `_`.
pub open spec fn joined(parts: Seq<Seq<char>>) -> Seq<char>
    decreases parts.len(),
{
    if parts.len() == 0 {
        Seq::empty()
    } else if parts.len() == 1 {
        parts[0]
    } else {
        joined(parts.drop_last()) + seq!['_'] + parts.last()
    }
}

/// The names part of a satellite image file name, from the file-name forms
/// of the first five hits: `empty`, the names joined by `_` when at most
/// three, else the first two and `_and_<k>_more`.
pub open spec fn names_part(names: Seq<Seq<char>>) -> Seq<char> {
    let n = if names.len() > 5 {
        names.subrange(0, 5)
    } else {
        names
    };
    if n.len() == 0 {
        "empty"@
    } else if n.len() > 3 {
        joined(n.subrange(0, 2)) + "_and_"@ + decimal((n.len() - 2) as nat) + "_more"@
    } else {
        joined(n)
    }
}

/// The file name of a satellite query image: `sat_<stamp>_<names>.png`.
pub open spec fn sat_image_name(stamp: Seq<char>, names: Seq<Seq<char>>) -> Seq<char> {
    "sat_"@ + stamp + seq!['_'] + names_part(names) + ".png"@
}

fn push_joined(buf: &mut Vec<char>, parts: &Vec<Vec<char>>, count: usize)
    requires
        count <= parts@.len(),
    ensures
        final(buf)@ == old(buf)@ + joined(crate::amsat_name::char_views(parts@).subrange(0, count as int)),
{
    let ghost cv = crate::amsat_name::char_views(parts@);
    let ghost start = buf@;
    let mut i: usize = 0;
    assert(cv.subrange(0, 0) =~= Seq::<Seq<char>>::empty());
    while i < count
        invariant
            i <= count <= parts@.len(),
            cv == crate::amsat_name::char_views(parts@),
            buf@ == start + joined(cv.subrange(0, i as int)),
        decreases count - i,
    {
        let ghost pre = cv.subrange(0, i + 1);
        assert(pre.drop_last() =~= cv.subrange(0, i as int));
        assert(pre.last() == parts@[i as int]@);
        if i > 0 {
            buf.push('_');
        }
        push_chars(buf, &parts[i]);
        proof {
            if i == 0 {
                assert(pre.len() == 1);
                assert(buf@ =~= start + joined(pre));
            } else {
                assert(buf@ =~= start + joined(pre));
            }
        }
        i = i + 1;
    }
}

/// The file name of the image of a satellite query, given the calendar
/// stamp of its quarter hour and the API names of its hits in order.
pub fn sat_image_filename(stamp: &str, api_names: &Vec<String>) -> (r: String)
    ensures
        r@ == sat_image_name(
            stamp@,
            crate::amsat_name::views(api_names@).map_values(|s: Seq<char>| file_name_part(s)),
        ),
{
    let ghost all = crate::amsat_name::views(api_names@).map_values(|s: Seq<char>| file_name_part(s));
    let take = if api_names.len() > 5 {
        5
    } else {
        api_names.len()
    };
    let mut parts: Vec<Vec<char>> = Vec::new();
    let mut i: usize = 0;
    while i < take
        invariant
            i <= take <= api_names@.len(),
            take <= 5,
            all == crate::amsat_name::views(api_names@).map_values(|s: Seq<char>| file_name_part(s)),
            crate::amsat_name::char_views(parts@) == all.subrange(0, i as int),
        decreases take - i,
    {
        let part = normalize_sat_name(api_names[i].as_str());
        let p = chars_of(part.as_str());
        let ghost before = parts@;
        parts.push(p);
        assert(crate::amsat_name::views(api_names@)[i as int] == api_names@[i as int]@);
        assert(all[i as int] == file_name_part(api_names@[i as int]@));
        assert(p@ == all[i as int]);
        assert(crate::amsat_name::char_views(parts@) =~= crate::amsat_name::char_views(before).push(p@));
        assert(all.subrange(0, i + 1) =~= all.subrange(0, i as int).push(all[i as int]));
        i = i + 1;
    }
    let ghost n = if all.len() > 5 {
        all.subrange(0, 5)
    } else {
        all
    };
    assert(n =~= all.subrange(0, take as int));
    let ghost cv = crate::amsat_name::char_views(parts@);
    assert(cv == n);
    let mut buf: Vec<char> = Vec::new();
    push_text(&mut buf, "sat_");
    push_text(&mut buf, stamp);
    buf.push('_');
    let ghost head = buf@;
    if take == 0 {
        push_text(&mut buf, "empty");
    } else if take > 3 {
        push_joined(&mut buf, &parts, 2);
        push_text(&mut buf, "_and_");
        push_number(&mut buf, (take - 2) as u64);
        push_text(&mut buf, "_more");
        assert(cv.subrange(0, 2) == n.subrange(0, 2));
    } else {
        push_joined(&mut buf, &parts, take);
        assert(cv.subrange(0, take as int) =~= n);
    }
    assert(buf@ =~= head + names_part(all));
    push_text(&mut buf, ".png");
    assert(buf@ =~= sat_image_name(stamp@, all));
    string_of(&buf)
}

/// Two queries in one quarter hour over the same hits name the same image,
/// so the second finds the first's file.
pub proof fn lemma_same_quarter_same_image(t1: int, t2: int, names: Seq<Seq<char>>)
    requires
        quarter_start(t1) == quarter_start(t2),
        i64::MIN <= quarter_start(t1) <= i64::MAX,
    ensures
        utc_stamp_text(quarter_start(t1) as i64) == utc_stamp_text(quarter_start(t2) as i64),
        utc_stamp_text(quarter_start(t1) as i64) matches Some(s) ==> sat_image_name(s, names)
            == sat_image_name(utc_stamp_text(quarter_start(t2) as i64)->0, names),
{
}

/// Top of the first table row, in pixels.
pub const DATA_START_Y: u64 = 86;

/// Height of a LoTW table row, in pixels.
pub const LOTW_ROW_HEIGHT: u64 = 38;

/// Height of a QO-100 table row, in pixels.
pub const QO100_ROW_HEIGHT: u64 = 32;

/// A QSO count above this is highlighted.
pub const QSO_HIGHLIGHT: u64 = 10000;

pub open spec fn stripe(i: int) -> Seq<char> {
    if i % 2 == 0 {
        "#ffffff"@
    } else {
        "#f8f9fa"@
    }
}

/// `v` with one decimal, for whole values: `105.0`.
pub open spec fn one_decimal(v: int) -> Seq<char> {
    decimal(v as nat) + ".0"@
}

/// The SVG of row `i` of the LoTW table.
pub open spec fn lotw_row_svg(i: int, row: LotwQueueRow) -> Seq<char> {
    let y = 86 + 38 * i;
    let mid = y + 19;
    let busy = row.qsos > 10000;
    "<rect x=\"0\" y=\""@ + decimal(y as nat) + "\" width=\"820\" height=\"38\" fill=\""@ + stripe(i)
        + "\"/>"@ + "<line x1=\"0\" y1=\""@ + decimal((y + 38) as nat) + "\" x2=\"820\" y2=\""@
        + decimal((y + 38) as nat) + "\" stroke=\"#eeeeee\" stroke-width=\"1\"/>"@
        + "<text x=\"20\" y=\""@ + one_decimal(mid) + "\" class=\"cell-text time-text\">"@
        + xml_escaped(row.epoch@) + "</text>"@ + "<text x=\"230\" y=\""@ + one_decimal(mid)
        + "\" class=\"cell-text\">"@ + decimal(row.logs as nat) + "</text>"@
        + "<rect x=\"300\" y=\""@ + one_decimal(mid - 11) + "\" width=\"110\" height=\"22\" fill=\""@
        + (if busy { "#ffe3e3"@ } else { "#e7f5ff"@ }) + "\" rx=\"2\"/>\n<text x=\"300\" y=\""@
        + one_decimal(mid) + "\" class=\"cell-text\""@ + (if busy { " font-weight=\"bold\""@ } else { ""@ })
        + ">"@ + thousands(row.qsos) + "</text>"@ + "<text x=\"420\" y=\""@ + one_decimal(mid)
        + "\" class=\"cell-text\">"@ + thousands(row.bytes) + "</text>"@
        + "<text x=\"590\" y=\""@ + one_decimal(mid - 8)
        + "\" class=\"cell-text time-text\" font-size=\"12\">"@ + xml_escaped(row.currently_processing@)
        + "</text>\n<text x=\"590\" y=\""@ + one_decimal(mid + 9) + "\" class=\"cell-text "@
        + (if row.latency_bad { "latency-bad"@ } else { "latency-ok"@ }) + "\" font-size=\"11\">"@
        + xml_escaped(row.latency_text@) + (if row.latency_bad { " \u{25cf}"@ } else { ""@ })
        + "</text>"@
}

/// The SVG of the LoTW table rows.
pub open spec fn lotw_rows_svg(rows: Seq<LotwQueueRow>) -> Seq<char>
    decreases rows.len(),
{
    if rows.len() == 0 {
        Seq::empty()
    } else {
        lotw_rows_svg(rows.drop_last()) + lotw_row_svg(rows.len() - 1, rows.last())
    }
}

fn push_one_decimal(buf: &mut Vec<char>, v: u64)
    ensures
        final(buf)@ == old(buf)@ + one_decimal(v as int),
{
    push_number(buf, v);
    push_text(buf, ".0");
}

fn lotw_row(i: u64, row: &LotwQueueRow) -> (r: Vec<char>)
    requires
        i * 38 + 200 <= u64::MAX,
    ensures
        r@ == lotw_row_svg(i as int, *row),
{
    let y = DATA_START_Y + LOTW_ROW_HEIGHT * i;
    let mid = y + LOTW_ROW_HEIGHT / 2;
    let busy = row.qsos > QSO_HIGHLIGHT;
    let mut b: Vec<char> = Vec::new();
    push_text(&mut b, "<rect x=\"0\" y=\"");
    push_number(&mut b, y);
    push_text(&mut b, "\" width=\"820\" height=\"38\" fill=\"");
    push_text(&mut b, if i % 2 == 0 { "#ffffff" } else { "#f8f9fa" });
    push_text(&mut b, "\"/>");
    push_text(&mut b, "<line x1=\"0\" y1=\"");
    push_number(&mut b, y + LOTW_ROW_HEIGHT);
    push_text(&mut b, "\" x2=\"820\" y2=\"");
    push_number(&mut b, y + LOTW_ROW_HEIGHT);
    push_text(&mut b, "\" stroke=\"#eeeeee\" stroke-width=\"1\"/>");
    push_text(&mut b, "<text x=\"20\" y=\"");
    push_one_decimal(&mut b, mid);
    push_text(&mut b, "\" class=\"cell-text time-text\">");
    push_escaped(&mut b, row.epoch.as_str());
    push_text(&mut b, "</text>");
    push_text(&mut b, "<text x=\"230\" y=\"");
    push_one_decimal(&mut b, mid);
    push_text(&mut b, "\" class=\"cell-text\">");
    push_number(&mut b, row.logs);
    push_text(&mut b, "</text>");
    push_text(&mut b, "<rect x=\"300\" y=\"");
    push_one_decimal(&mut b, mid - 11);
    push_text(&mut b, "\" width=\"110\" height=\"22\" fill=\"");
    push_text(&mut b, if busy { "#ffe3e3" } else { "#e7f5ff" });
    push_text(&mut b, "\" rx=\"2\"/>\n<text x=\"300\" y=\"");
    push_one_decimal(&mut b, mid);
    push_text(&mut b, "\" class=\"cell-text\"");
    push_text(&mut b, if busy { " font-weight=\"bold\"" } else { "" });
    push_text(&mut b, ">");
    let q = format_number(row.qsos);
    push_text(&mut b, q.as_str());
    push_text(&mut b, "</text>");
    push_text(&mut b, "<text x=\"420\" y=\"");
    push_one_decimal(&mut b, mid);
    push_text(&mut b, "\" class=\"cell-text\">");
    let by = format_number(row.bytes);
    push_text(&mut b, by.as_str());
    push_text(&mut b, "</text>");
    push_text(&mut b, "<text x=\"590\" y=\"");
    push_one_decimal(&mut b, mid - 8);
    push_text(&mut b, "\" class=\"cell-text time-text\" font-size=\"12\">");
    push_escaped(&mut b, row.currently_processing.as_str());
    push_text(&mut b, "</text>\n<text x=\"590\" y=\"");
    push_one_decimal(&mut b, mid + 9);
    push_text(&mut b, "\" class=\"cell-text ");
    push_text(&mut b, if row.latency_bad { "latency-bad" } else { "latency-ok" });
    push_text(&mut b, "\" font-size=\"11\">");
    push_escaped(&mut b, row.latency_text.as_str());
    push_text(&mut b, if row.latency_bad { " \u{25cf}" } else { "" });
    push_text(&mut b, "</text>");
    assert(b@ =~= lotw_row_svg(i as int, *row));
    b
}

/// The SVG rows of the LoTW queue table: striped rows, QSO counts above
/// 10 000 highlighted, bad latencies marked.
pub fn build_lotw_rows_svg(rows: &Vec<LotwQueueRow>) -> (r: String)
    requires
        rows@.len() * 38 + 200 <= u64::MAX,
    ensures
        r@ == lotw_rows_svg(rows@),
{
    let mut out: Vec<char> = Vec::new();
    let mut i: usize = 0;
    while i < rows.len()
        invariant
            i <= rows@.len(),
            rows@.len() * 38 + 200 <= u64::MAX,
            out@ == lotw_rows_svg(rows@.subrange(0, i as int)),
        decreases rows.len() - i,
    {
        let piece = lotw_row(i as u64, &rows[i]);
        push_chars(&mut out, &piece);
        assert(rows@.subrange(0, i + 1).drop_last() =~= rows@.subrange(0, i as int));
        i = i + 1;
    }
    assert(rows@.subrange(0, rows@.len() as int) =~= rows@);
    string_of(&out)
}

/// The SVG of row `i` of the QO-100 table.
pub open spec fn qo100_row_svg(i: int, spot: Qo100Spot) -> Seq<char> {
    let y = 86 + 32 * i;
    let mid = y + 16;
    let cell = |x: Seq<char>, class: Seq<char>, v: Seq<char>|
        "<text x=\""@ + x + "\" y=\""@ + one_decimal(mid) + "\" class=\""@ + class + "\">"@
            + xml_escaped(v) + "</text>"@;
    "<rect x=\"0\" y=\""@ + decimal(y as nat) + "\" width=\"920\" height=\"32\" fill=\""@ + stripe(i)
        + "\"/>"@ + "<line x1=\"0\" y1=\""@ + decimal((y + 32) as nat) + "\" x2=\"920\" y2=\""@
        + decimal((y + 32) as nat) + "\" stroke=\"#eeeeee\" stroke-width=\"1\"/>"@
        + cell("20"@, "cell-text time-text"@, spot.datetime@)
        + cell("180"@, "dx-text"@, spot.dx@)
        + cell("340"@, "cell-text"@, spot.freq@)
        + cell("420"@, "cell-text"@, shown_comment(spot.comments@))
        + cell("700"@, "cell-text"@, spot.spotter@)
        + cell("840"@, "cell-text"@, spot.source@)
}

/// The SVG of the QO-100 table rows.
pub open spec fn qo100_rows_svg(spots: Seq<Qo100Spot>) -> Seq<char>
    decreases spots.len(),
{
    if spots.len() == 0 {
        Seq::empty()
    } else {
        qo100_rows_svg(spots.drop_last()) + qo100_row_svg(spots.len() - 1, spots.last())
    }
}

fn push_cell(buf: &mut Vec<char>, x: &str, mid: u64, class: &str, v: &str)
    ensures
        final(buf)@ == old(buf)@ + ("<text x=\""@ + x@ + "\" y=\""@ + one_decimal(mid as int) + "\" class=\""@
            + class@ + "\">"@ + xml_escaped(v@) + "</text>"@),
{
    let ghost start = buf@;
    push_text(buf, "<text x=\"");
    push_text(buf, x);
    push_text(buf, "\" y=\"");
    push_one_decimal(buf, mid);
    push_text(buf, "\" class=\"");
    push_text(buf, class);
    push_text(buf, "\">");
    push_escaped(buf, v);
    push_text(buf, "</text>");
    assert(buf@ =~= start + ("<text x=\""@ + x@ + "\" y=\""@ + one_decimal(mid as int) + "\" class=\""@
        + class@ + "\">"@ + xml_escaped(v@) + "</text>"@));
}

fn qo100_row(i: u64, spot: &Qo100Spot) -> (r: Vec<char>)
    requires
        i * 32 + 200 <= u64::MAX,
    ensures
        r@ == qo100_row_svg(i as int, *spot),
{
    let y = DATA_START_Y + QO100_ROW_HEIGHT * i;
    let mid = y + QO100_ROW_HEIGHT / 2;
    let mut b: Vec<char> = Vec::new();
    push_text(&mut b, "<rect x=\"0\" y=\"");
    push_number(&mut b, y);
    push_text(&mut b, "\" width=\"920\" height=\"32\" fill=\"");
    push_text(&mut b, if i % 2 == 0 { "#ffffff" } else { "#f8f9fa" });
    push_text(&mut b, "\"/>");
    push_text(&mut b, "<line x1=\"0\" y1=\"");
    push_number(&mut b, y + QO100_ROW_HEIGHT);
    push_text(&mut b, "\" x2=\"920\" y2=\"");
    push_number(&mut b, y + QO100_ROW_HEIGHT);
    push_text(&mut b, "\" stroke=\"#eeeeee\" stroke-width=\"1\"/>");
    push_cell(&mut b, "20", mid, "cell-text time-text", spot.datetime.as_str());
    push_cell(&mut b, "180", mid, "dx-text", spot.dx.as_str());
    push_cell(&mut b, "340", mid, "cell-text", spot.freq.as_str());
    let comment = truncate_comment(spot.comments.as_str());
    push_cell(&mut b, "420", mid, "cell-text", comment.as_str());
    push_cell(&mut b, "700", mid, "cell-text", spot.spotter.as_str());
    push_cell(&mut b, "840", mid, "cell-text", spot.source.as_str());
    assert(b@ =~= qo100_row_svg(i as int, *spot));
    b
}

/// Most spots shown in one image.
pub const MAX_SHOWN_SPOTS: usize = 50;

/// The SVG rows of the QO-100 spot table: at most the first 50 spots,
/// striped, long comments cut.
pub fn build_qo100_rows_svg(spots: &Vec<Qo100Spot>) -> (r: String)
    ensures
        r@ == qo100_rows_svg(
            if spots@.len() > 50 {
                spots@.subrange(0, 50)
            } else {
                spots@
            },
        ),
{
    let n = if spots.len() > MAX_SHOWN_SPOTS {
        MAX_SHOWN_SPOTS
    } else {
        spots.len()
    };
    let ghost shown = if spots@.len() > 50 {
        spots@.subrange(0, 50)
    } else {
        spots@
    };
    assert(shown =~= spots@.subrange(0, n as int));
    let mut out: Vec<char> = Vec::new();
    let mut i: usize = 0;
    while i < n
        invariant
            i <= n <= 50,
            n <= spots@.len(),
            out@ == qo100_rows_svg(spots@.subrange(0, i as int)),
        decreases n - i,
    {
        let piece = qo100_row(i as u64, &spots[i]);
        push_chars(&mut out, &piece);
        assert(spots@.subrange(0, i + 1).drop_last() =~= spots@.subrange(0, i as int));
        i = i + 1;
    }
    string_of(&out)
}

/// Height of the footer under a feed table, in pixels.
pub const FOOTER_HEIGHT: u64 = 30;

/// The vertical layout of a feed image of `rows` rows of `row_height`:
/// the footer's top, the footer text's baseline, and the image height.
pub fn feed_layout(rows: u64, row_height: u64) -> (r: (u64, u64, u64))
    requires
        rows * row_height + 200 <= u64::MAX,
    ensures
        r.0 == 86 + rows * row_height,
        r.1 == r.0 + 15,
        r.2 == r.0 + 30,
{
    assert(rows * row_height <= u64::MAX) by (nonlinear_arith)
        requires
            rows * row_height + 200 <= u64::MAX,
    ;
    let footer_y = DATA_START_Y + rows * row_height;
    (footer_y, footer_y + FOOTER_HEIGHT / 2, footer_y + FOOTER_HEIGHT)
}

/// Where a feed's images go and what they are called.
pub open spec fn latest_name(feed: Seq<char>) -> Seq<char> {
    feed + "_latest.png"@
}

/// Renders the LoTW queue table into a directory.
#[derive(Debug, Clone)]
pub struct LotwRenderer {
    pub output_dir: String,
}

/// Renders the QO-100 spot table into a directory.
#[derive(Debug, Clone)]
pub struct Qo100Renderer {
    pub output_dir: String,
}

/// Renders satellite query images into a directory.
#[derive(Debug, Clone)]
pub struct SatelliteRenderer {
    pub output_dir: String,
}

fn copy_text(s: &str) -> (r: String)
    ensures
        r@ == s@,
{
    String::from_str(s)
}

impl LotwRenderer {
    pub fn new(output_dir: &str) -> (r: LotwRenderer)
        ensures
            r.output_dir@ == output_dir@,
    {
        LotwRenderer { output_dir: copy_text(output_dir) }
    }

    /// The image file of a snapshot fetched at `fetched_at`.
    pub fn output_filename(&self, fetched_at: i64) -> (r: Option<String>)
        ensures
            match r {
                Some(s) => utc_stamp_text(fetched_at) matches Some(t) && s@ == feed_image_name("lotw"@, t),
                None => utc_stamp_text(fetched_at) is None,
            },
    {
        feed_image_filename("lotw", fetched_at)
    }

    /// The file that command handlers return.
    pub fn latest_filename(&self) -> (r: String)
        ensures
            r@ == latest_name("lotw"@),
    {
        let mut v = chars_of("lotw");
        let tail = chars_of("_latest.png");
        push_chars(&mut v, &tail);
        string_of(&v)
    }
}

impl Qo100Renderer {
    pub fn new(output_dir: &str) -> (r: Qo100Renderer)
        ensures
            r.output_dir@ == output_dir@,
    {
        Qo100Renderer { output_dir: copy_text(output_dir) }
    }

    /// The image file of spots fetched at `fetched_at`.
    pub fn output_filename(&self, fetched_at: i64) -> (r: Option<String>)
        ensures
            match r {
                Some(s) => utc_stamp_text(fetched_at) matches Some(t) && s@ == feed_image_name("qo100"@, t),
                None => utc_stamp_text(fetched_at) is None,
            },
    {
        feed_image_filename("qo100", fetched_at)
    }

    /// The file that command handlers return.
    pub fn latest_filename(&self) -> (r: String)
        ensures
            r@ == latest_name("qo100"@),
    {
        let mut v = chars_of("qo100");
        let tail = chars_of("_latest.png");
        push_chars(&mut v, &tail);
        string_of(&v)
    }
}

impl SatelliteRenderer {
    pub fn new(output_dir: &str) -> (r: SatelliteRenderer)
        ensures
            r.output_dir@ == output_dir@,
    {
        SatelliteRenderer { output_dir: copy_text(output_dir) }
    }

    /// The image file of a query at `now` with hits named `api_names`: the
    /// quarter hour's stamp and the hits' names; `None` where the instant
    /// has no calendar stamp.
    pub fn generate_amsat_filename(&self, now: i64, api_names: &Vec<String>) -> (r: Option<String>)
        ensures
            quarter_start(now as int) < i64::MIN ==> r is None,
            quarter_start(now as int) >= i64::MIN ==> match r {
                Some(s) => utc_stamp_text(quarter_start(now as int) as i64) matches Some(t) && s@ == sat_image_name(
                    t,
                    crate::amsat_name::views(api_names@).map_values(|n: Seq<char>| file_name_part(n)),
                ),
                None => utc_stamp_text(quarter_start(now as int) as i64) is None,
            },
    {
        let w = now as i128;
        let m = w % 900;
        let q: i128 = if m < 0 {
            w - m - 900
        } else {
            w - m
        };
        if q < i64::MIN as i128 {
            return None;
        }
        match utc_stamp(q as i64) {
            Some(stamp) => Some(sat_image_filename(stamp.as_str(), api_names)),
            None => None,
        }
    }
}

} // verus!
