//! The LoTW queue-status table: from the text of its cells to typed rows.
use vstd::prelude::*;

use crate::text::{
    chars_of, collapse_white, collapse_white_chars, first_index, last_index,
    last_index_of, slice_chars, string_of, trim, trim_chars,
};

verus! {

/// A latency above this many seconds is flagged as bad: 10 minutes.
pub const BAD_LATENCY_SECS: u64 = 600;

/// The value of a string of ASCII digits.
pub open spec fn digits_value(s: Seq<char>) -> int
    decreases s.len(),
{
    if s.len() == 0 {
        0
    } else {
        digits_value(s.drop_last()) * 10 + (s.last() as int - '0' as int)
    }
}

pub open spec fn all_digits(s: Seq<char>) -> bool {
    forall|i: int| 0 <= i < s.len() ==> '0' <= #[trigger] s[i] && s[i] <= '9'
}

/// What `str::parse::<u64>` gives: an optional `+`, then one or more ASCII
/// digits whose value fits in 64 bits.
pub open spec fn parse_u64(s: Seq<char>) -> Option<u64> {
    let d = if s.len() > 0 && s[0] == '+' {
        s.drop_first()
    } else {
        s
    };
    if d.len() > 0 && all_digits(d) && digits_value(d) <= u64::MAX {
        Some(digits_value(d) as u64)
    } else {
        None
    }
}

pub open spec fn is_paren(c: char) -> bool {
    c == '(' || c == ')'
}

pub open spec fn trim_parens_start(s: Seq<char>) -> Seq<char>
    decreases s.len(),
{
    if s.len() > 0 && is_paren(s[0]) {
        trim_parens_start(s.drop_first())
    } else {
        s
    }
}

pub open spec fn trim_parens_end(s: Seq<char>) -> Seq<char>
    decreases s.len(),
{
    if s.len() > 0 && is_paren(s.last()) {
        trim_parens_end(s.drop_last())
    } else {
        s
    }
}

/// `s` without leading and trailing parentheses.
pub open spec fn trim_parens(s: Seq<char>) -> Seq<char> {
    trim_parens_end(trim_parens_start(s))
}

/// Position of the last `a` or `b` in `s`, or -1.
pub open spec fn last_index_either(s: Seq<char>, a: char, b: char) -> int
    decreases s.len(),
{
    if s.len() == 0 {
        -1
    } else if s.last() == a || s.last() == b {
        s.len() - 1
    } else {
        last_index_either(s.drop_last(), a, b)
    }
}

/// The number of a latency field: its trimmed text parsed, or 0.
pub open spec fn field_value(s: Seq<char>) -> int {
    match parse_u64(trim(s)) {
        Some(v) => v as int,
        None => 0,
    }
}

/// The text of the days field: before the first `d`, after the last space of
/// its trimmed text where there is one.
pub open spec fn day_field(t: Seq<char>) -> Seq<char> {
    let pre = t.subrange(0, first_index(t, 'd'));
    let tp = trim(pre);
    let k = last_index(tp, ' ');
    if k >= 0 {
        tp.subrange(k + 1, tp.len() as int)
    } else {
        pre
    }
}

/// The text of the field that ends at the first `unit`: it starts after the
/// last space or `delim` before it (at the start where there is none).
pub open spec fn unit_field(t: Seq<char>, unit: char, delim: char) -> Seq<char> {
    let pos = first_index(t, unit);
    let k = last_index_either(t.subrange(0, pos), ' ', delim);
    let start = if k >= 0 {
        k + 1
    } else {
        0
    };
    if start <= pos {
        t.subrange(start, pos)
    } else {
        Seq::empty()
    }
}

/// Seconds of a latency text such as `(1d 02h 03m 04s ago)`.
pub open spec fn latency_value(text: Seq<char>) -> int {
    let t = trim(trim_parens(text));
    (if first_index(t, 'd') >= 0 {
        field_value(day_field(t)) * 86400
    } else {
        0
    }) + (if first_index(t, 'h') >= 0 {
        field_value(unit_field(t, 'h', 'd')) * 3600
    } else {
        0
    }) + (if first_index(t, 'm') >= 0 {
        field_value(unit_field(t, 'm', 'h')) * 60
    } else {
        0
    }) + (if first_index(t, 's') >= 0 {
        field_value(unit_field(t, 's', 'm'))
    } else {
        0
    })
}

pub open spec fn clamp_u64(v: int) -> int {
    if v > u64::MAX {
        u64::MAX as int
    } else {
        v
    }
}

/// `s` without commas.
pub open spec fn without_commas(s: Seq<char>) -> Seq<char>
    decreases s.len(),
{
    if s.len() == 0 {
        s
    } else if s.last() == ',' {
        without_commas(s.drop_last())
    } else {
        without_commas(s.drop_last()).push(s.last())
    }
}

/// The two parts of a processing cell `YYYY-MM-DD HH:MM:SS (latency)`: the
/// first 19 characters, and the rest without spaces and parentheses round
/// it. A cell of at most 19 characters is all timestamp.
pub open spec fn processing_parts(raw: Seq<char>) -> (Seq<char>, Seq<char>) {
    if raw.len() > 19 {
        (raw.subrange(0, 19), trim(trim_parens(trim(raw.subrange(19, raw.len() as int)))))
    } else {
        (raw, Seq::empty())
    }
}

/// A number cell: commas removed, then parsed; 0 where that fails.
pub open spec fn number_cell(s: Seq<char>) -> u64 {
    match parse_u64(without_commas(s)) {
        Some(v) => v,
        None => 0,
    }
}

/// One row of the LoTW queue table.
#[derive(Debug, Clone)]
pub struct LotwQueueRow {
    pub epoch: String,
    pub logs: u64,
    pub qsos: u64,
    pub bytes: u64,
    pub currently_processing: String,
    pub latency_text: String,
    /// The latency exceeds ten minutes.
    pub latency_bad: bool,
}

/// The texts of a row's cells.
pub open spec fn texts(cells: Seq<String>) -> Seq<Seq<char>> {
    cells.map_values(|s: String| s@)
}

/// The texts of the cells of each row.
pub open spec fn cell_texts(rows: Seq<Vec<String>>) -> Seq<Seq<Seq<char>>> {
    rows.map_values(|r: Vec<String>| texts(r@))
}

/// The rows of at least five cells, in order.
pub open spec fn full_rows(rows: Seq<Seq<Seq<char>>>) -> Seq<Seq<Seq<char>>>
    decreases rows.len(),
{
    if rows.len() == 0 {
        rows
    } else if rows.last().len() >= 5 {
        full_rows(rows.drop_last()).push(rows.last())
    } else {
        full_rows(rows.drop_last())
    }
}

/// `row` is what the cells (of at least five) give.
pub open spec fn row_from_cells(row: LotwQueueRow, cells: Seq<Seq<char>>) -> bool {
    let processing = processing_parts(collapse_white(cells[4]));
    &&& row.epoch@ == collapse_white(cells[0])
    &&& row.logs == number_cell(collapse_white(cells[1]))
    &&& row.qsos == number_cell(collapse_white(cells[2]))
    &&& row.bytes == number_cell(collapse_white(cells[3]))
    &&& row.currently_processing@ == processing.0
    &&& row.latency_text@ == processing.1
    &&& row.latency_bad == (clamp_u64(latency_value(processing.1)) > 600)
}

/// Position of the first `c` in `v`.
pub fn first_index_of(v: &[char], c: char) -> (r: Option<usize>)
    ensures
        match r {
            Some(i) => i as int == first_index(v@, c) && i < v@.len(),
            None => first_index(v@, c) == -1,
        },
{
    let mut i: usize = 0;
    while i < v.len()
        invariant
            i <= v@.len(),
            forall|k: int| 0 <= k < i ==> v@[k] != c,
        decreases v.len() - i,
    {
        if v[i] == c {
            proof {
                lemma_first_index(v@, c, i as int);
            }
            return Some(i);
        }
        i = i + 1;
    }
    proof {
        lemma_first_index_none(v@, c);
    }
    None
}

proof fn lemma_first_index(s: Seq<char>, c: char, i: int)
    requires
        0 <= i < s.len(),
        s[i] == c,
        forall|k: int| 0 <= k < i ==> s[k] != c,
    ensures
        first_index(s, c) == i,
    decreases i,
{
    if i > 0 {
        lemma_first_index(s.drop_first(), c, i - 1);
    }
}

proof fn lemma_first_index_none(s: Seq<char>, c: char)
    requires
        forall|k: int| 0 <= k < s.len() ==> s[k] != c,
    ensures
        first_index(s, c) == -1,
    decreases s.len(),
{
    if s.len() > 0 {
        lemma_first_index_none(s.drop_first(), c);
    }
}

fn last_index_of_either(v: &[char], a: char, b: char) -> (r: Option<usize>)
    ensures
        match r {
            Some(i) => i as int == last_index_either(v@, a, b) && i < v@.len(),
            None => last_index_either(v@, a, b) == -1,
        },
{
    let mut j: usize = v.len();
    assert(v@.subrange(0, v@.len() as int) =~= v@);
    while j > 0
        invariant
            j <= v@.len(),
            last_index_either(v@, a, b) == last_index_either(v@.subrange(0, j as int), a, b),
        decreases j,
    {
        if v[j - 1] == a || v[j - 1] == b {
            return Some(j - 1);
        }
        assert(v@.subrange(0, j as int).drop_last() =~= v@.subrange(0, j - 1));
        j = j - 1;
    }
    None
}

/// `v` without leading and trailing parentheses.
fn trim_paren_chars(v: &[char]) -> (r: Vec<char>)
    ensures
        r@ == trim_parens(v@),
{
    let n = v.len();
    let mut i: usize = 0;
    assert(v@.subrange(0, n as int) =~= v@);
    while i < n && (v[i] == '(' || v[i] == ')')
        invariant
            i <= n == v@.len(),
            trim_parens_start(v@) == trim_parens_start(v@.subrange(i as int, n as int)),
        decreases n - i,
    {
        assert(v@.subrange(i as int, n as int).drop_first() =~= v@.subrange(i + 1, n as int));
        i = i + 1;
    }
    let ghost rest = v@.subrange(i as int, n as int);
    let mut j: usize = n;
    assert(rest.subrange(0, (n - i) as int) =~= rest);
    while j > i && (v[j - 1] == '(' || v[j - 1] == ')')
        invariant
            i <= j <= n == v@.len(),
            rest == v@.subrange(i as int, n as int),
            trim_parens_end(rest) == trim_parens_end(rest.subrange(0, j - i)),
        decreases j,
    {
        assert(rest.subrange(0, j - i).drop_last() =~= rest.subrange(0, j - i - 1));
        j = j - 1;
    }
    assert(rest.subrange(0, (j - i) as int) =~= v@.subrange(i as int, j as int));
    slice_chars(v, i, j)
}

/// What `str::parse::<u64>` gives for `v`.
pub fn parse_u64_chars(v: &[char]) -> (r: Option<u64>)
    ensures
        r == parse_u64(v@),
{
    let start: usize = if v.len() > 0 && v[0] == '+' {
        1
    } else {
        0
    };
    let ghost d = if v@.len() > 0 && v@[0] == '+' {
        v@.drop_first()
    } else {
        v@
    };
    assert(d =~= v@.subrange(start as int, v@.len() as int));
    if start >= v.len() {
        return None;
    }
    let mut acc: u64 = 0;
    let mut i: usize = start;
    while i < v.len()
        invariant
            start <= i <= v@.len(),
            start < v@.len(),
            d =~= v@.subrange(start as int, v@.len() as int),
            d == (if v@.len() > 0 && v@[0] == '+' {
                v@.drop_first()
            } else {
                v@
            }),
            all_digits(v@.subrange(start as int, i as int)),
            acc as int == digits_value(v@.subrange(start as int, i as int)),
        decreases v.len() - i,
    {
        let c = v[i];
        let ghost pre = v@.subrange(start as int, i + 1);
        assert(pre.drop_last() =~= v@.subrange(start as int, i as int));
        if c < '0' || c > '9' {
            assert(d[i - start] == c);
            assert(!all_digits(d));
            return None;
        }
        let digit = (c as u32 - '0' as u32) as u64;
        if acc > (u64::MAX - digit) / 10 {
            proof {
                if all_digits(d) {
                    lemma_digits_grow(d, (i - start) as int);
                    assert(d.subrange(0, (i - start) + 1) =~= pre);
                }
                assert(digits_value(pre) == acc * 10 + digit);
                assert(acc * 10 + digit > u64::MAX) by (nonlinear_arith)
                    requires
                        acc > (u64::MAX - digit) / 10,
                        digit <= 9,
                ;
            }
            return None;
        }
        assert(acc * 10 + digit <= u64::MAX) by (nonlinear_arith)
            requires
                acc <= (u64::MAX - digit) / 10,
                digit <= 9,
        ;
        acc = acc * 10 + digit;
        i = i + 1;
        assert(all_digits(v@.subrange(start as int, i as int))) by {
            assert forall|k: int| 0 <= k < i - start implies '0' <= #[trigger] v@.subrange(start as int, i as int)[k]
                && v@.subrange(start as int, i as int)[k] <= '9' by {
                if k < i - 1 - start {
                    assert(v@.subrange(start as int, i as int)[k] == v@.subrange(start as int, i - 1)[k]);
                }
            }
        }
    }
    Some(acc)
}

/// The value of digits only grows as digits are added.
proof fn lemma_digits_grow(d: Seq<char>, k: int)
    requires
        0 <= k < d.len(),
        all_digits(d),
    ensures
        digits_value(d) >= digits_value(d.subrange(0, k + 1)),
    decreases d.len(),
{
    if d.len() > k + 1 {
        let dl = d.drop_last();
        assert(all_digits(dl)) by {
            assert forall|i: int| 0 <= i < dl.len() implies '0' <= #[trigger] dl[i] && dl[i] <= '9' by {
                assert(dl[i] == d[i]);
            }
        }
        lemma_digits_grow(dl, k);
        assert(dl.subrange(0, k + 1) =~= d.subrange(0, k + 1));
        assert(d[d.len() - 1] >= '0');
        lemma_digits_nonneg(dl);
    } else {
        assert(d.subrange(0, k + 1) =~= d);
    }
}

proof fn lemma_digits_nonneg(d: Seq<char>)
    requires
        all_digits(d),
    ensures
        digits_value(d) >= 0,
    decreases d.len(),
{
    if d.len() > 0 {
        let dl = d.drop_last();
        assert(all_digits(dl)) by {
            assert forall|i: int| 0 <= i < dl.len() implies '0' <= #[trigger] dl[i] && dl[i] <= '9' by {
                assert(dl[i] == d[i]);
            }
        }
        lemma_digits_nonneg(dl);
        assert(d[d.len() - 1] >= '0');
    }
}

fn field_number(v: &[char]) -> (r: u64)
    ensures
        r as int == field_value(v@),
{
    let t = trim_chars(v);
    match parse_u64_chars(&t) {
        Some(x) => x,
        None => 0,
    }
}

fn unit_term(t: &[char], unit: char, delim: char) -> (r: u64)
    ensures
        r as int == (if first_index(t@, unit) >= 0 {
            field_value(unit_field(t@, unit, delim))
        } else {
            0
        }),
{
    match first_index_of(t, unit) {
        Some(pos) => {
            let pre = slice_chars(t, 0, pos);
            let start: usize = match last_index_of_either(&pre, ' ', delim) {
                Some(k) => k + 1,
                None => 0,
            };
            let field = if start <= pos {
                slice_chars(t, start, pos)
            } else {
                Vec::new()
            };
            assert(field@ =~= unit_field(t@, unit, delim));
            field_number(&field)
        },
        None => 0,
    }
}

/// Seconds of a latency text such as `0d 00h 09m 21s ago` (561), where the
/// fields that are missing count as 0; `u64::MAX` where the sum exceeds it.
pub fn parse_latency_secs(text: &str) -> (r: u64)
    ensures
        r as int == clamp_u64(latency_value(text@)),
{
    let all = chars_of(text);
    let unparened = trim_paren_chars(&all);
    let t = trim_chars(&unparened);
    let mut total: u128 = 0;
    if let Some(pos) = first_index_of(&t, 'd') {
        let pre = slice_chars(&t, 0, pos);
        let tp = trim_chars(&pre);
        let field = match last_index_of(&tp, ' ') {
            Some(k) => {
                let n = tp.len();
                slice_chars(&tp, k + 1, n)
            },
            None => pre,
        };
        let v = field_number(&field);
        assert(v * 86400 <= u64::MAX * 86400) by (nonlinear_arith)
            requires
                v <= u64::MAX,
        ;
        total = total + (v as u128) * 86400;
    }
    let h = unit_term(&t, 'h', 'd');
    let m = unit_term(&t, 'm', 'h');
    let sec = unit_term(&t, 's', 'm');
    assert(h * 3600 <= u64::MAX * 3600 && m * 60 <= u64::MAX * 60) by (nonlinear_arith)
        requires
            h <= u64::MAX,
            m <= u64::MAX,
    ;
    total = total + (h as u128) * 3600 + (m as u128) * 60 + (sec as u128);
    if total > u64::MAX as u128 {
        u64::MAX
    } else {
        total as u64
    }
}

/// The words of a cell joined by single spaces.
pub fn clean_cell(s: &str) -> (r: String)
    ensures
        r@ == collapse_white(s@),
{
    let v = chars_of(s);
    let c = collapse_white_chars(&v);
    string_of(&c)
}

fn strip_comma_chars(v: &[char]) -> (r: Vec<char>)
    ensures
        r@ == without_commas(v@),
{
    let mut out: Vec<char> = Vec::new();
    let mut i: usize = 0;
    while i < v.len()
        invariant
            i <= v@.len(),
            out@ == without_commas(v@.subrange(0, i as int)),
        decreases v.len() - i,
    {
        assert(v@.subrange(0, i + 1).drop_last() =~= v@.subrange(0, i as int));
        if v[i] != ',' {
            out.push(v[i]);
        }
        i = i + 1;
    }
    assert(v@.subrange(0, v@.len() as int) =~= v@);
    out
}

/// `s` without commas (`1,234` gives `1234`).
pub fn strip_commas(s: &str) -> (r: String)
    ensures
        r@ == without_commas(s@),
{
    let v = chars_of(s);
    let c = strip_comma_chars(&v);
    string_of(&c)
}

/// Split a processing cell into its timestamp and its latency text.
pub fn split_processing_cell(raw: &str) -> (r: (String, String))
    ensures
        (r.0@, r.1@) == processing_parts(raw@),
{
    let v = chars_of(raw);
    if v.len() > 19 {
        let ts = slice_chars(&v, 0, 19);
        let rest = slice_chars(&v, 19, v.len());
        let a = trim_chars(&rest);
        let b = trim_paren_chars(&a);
        let c = trim_chars(&b);
        (string_of(&ts), string_of(&c))
    } else {
        (string_of(&v), String::new())
    }
}

fn number_of_cell(s: &str) -> (r: u64)
    ensures
        r == number_cell(s@),
{
    let v = chars_of(s);
    let c = strip_comma_chars(&v);
    match parse_u64_chars(&c) {
        Some(x) => x,
        None => 0,
    }
}

/// The row that the text of a table row's cells gives: `None` for a row of
/// fewer than five cells. Cells are cleaned of extra white space; the
/// latency is flagged bad above ten minutes.
pub fn parse_lotw_row(cells: &Vec<String>) -> (r: Option<LotwQueueRow>)
    ensures
        cells@.len() < 5 ==> r is None,
        cells@.len() >= 5 ==> (r is Some && row_from_cells(r->0, texts(cells@))),
{
    if cells.len() < 5 {
        return None;
    }
    let epoch = clean_cell(cells[0].as_str());
    let logs_text = clean_cell(cells[1].as_str());
    let qsos_text = clean_cell(cells[2].as_str());
    let bytes_text = clean_cell(cells[3].as_str());
    let processing = clean_cell(cells[4].as_str());
    let (ts, latency_text) = split_processing_cell(processing.as_str());
    let secs = parse_latency_secs(latency_text.as_str());
    Some(
        LotwQueueRow {
            epoch,
            logs: number_of_cell(logs_text.as_str()),
            qsos: number_of_cell(qsos_text.as_str()),
            bytes: number_of_cell(bytes_text.as_str()),
            currently_processing: ts,
            latency_text,
            latency_bad: secs > BAD_LATENCY_SECS,
        },
    )
}

/// The rows of the table, in page order; rows of fewer than five cells are
/// skipped.
pub fn parse_lotw_rows(rows: &Vec<Vec<String>>) -> (r: Vec<LotwQueueRow>)
    ensures
        r@.len() == full_rows(cell_texts(rows@)).len(),
        forall|k: int| 0 <= k < r@.len() ==> row_from_cells(#[trigger] r@[k], full_rows(cell_texts(rows@))[k]),
{
    let ghost all = cell_texts(rows@);
    let mut out: Vec<LotwQueueRow> = Vec::new();
    let mut i: usize = 0;
    while i < rows.len()
        invariant
            i <= rows@.len() == all.len(),
            all == cell_texts(rows@),
            out@.len() == full_rows(all.subrange(0, i as int)).len(),
            forall|k: int| 0 <= k < out@.len() ==> row_from_cells(#[trigger] out@[k], full_rows(all.subrange(0, i as int))[k]),
        decreases rows.len() - i,
    {
        let ghost pre = all.subrange(0, i + 1);
        assert(pre.drop_last() =~= all.subrange(0, i as int));
        assert(pre.last() == texts(rows@[i as int]@));
        let ghost before = out@;
        if let Some(row) = parse_lotw_row(&rows[i]) {
            out.push(row);
            assert forall|k: int| 0 <= k < out@.len() implies row_from_cells(#[trigger] out@[k], full_rows(pre)[k]) by {
                if k < before.len() {
                    assert(out@[k] == before[k]);
                }
            }
        }
        i = i + 1;
    }
    assert(all.subrange(0, rows@.len() as int) =~= all);
    out
}

/// The texts of the cells (`td`) of each row (`tr`) inside a table body
/// (`tbody`) of an HTML document, in document order.
pub uninterp spec fn tbody_cell_texts(html: Seq<char>) -> Seq<Seq<Seq<char>>>;

/// Relies on scraper's `Html::parse_document`, `select` with the selectors
/// `tbody tr` and `td`, and `ElementRef::text`: the text of each cell of each
/// table-body row.
#[verifier::external_body]
fn table_cells(html: &str) -> (r: Vec<Vec<String>>)
    ensures
        cell_texts(r@) == tbody_cell_texts(html@),
{
    let doc = scraper::Html::parse_document(html);
    let (Ok(rows), Ok(cells)) = (scraper::Selector::parse("tbody tr"), scraper::Selector::parse("td")) else {
        return Vec::new();
    };
    doc.select(&rows).map(|tr| tr.select(&cells).map(|td| td.text().collect::<String>()).collect()).collect()
}

/// The queue page as read at `fetched_at` (Unix seconds).
#[derive(Debug, Clone)]
pub struct LotwQueueSnapshot {
    pub fetched_at: i64,
    /// The rows as on the page, newest first.
    pub rows: Vec<LotwQueueRow>,
}

/// Read the queue-status page: one row for each table-body row of at least
/// five cells.
pub fn parse_lotw_html(html: &str, fetched_at: i64) -> (r: LotwQueueSnapshot)
    ensures
        r.fetched_at == fetched_at,
        r.rows@.len() == full_rows(tbody_cell_texts(html@)).len(),
        forall|k: int| 0 <= k < r.rows@.len() ==> row_from_cells(#[trigger] r.rows@[k], full_rows(tbody_cell_texts(html@))[k]),
{
    let cells = table_cells(html);
    let rows = parse_lotw_rows(&cells);
    LotwQueueSnapshot { fetched_at, rows }
}

} // verus!
