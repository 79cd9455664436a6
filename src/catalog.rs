//! The satellite names that an update cycle fetches.
use vstd::prelude::*;

use crate::amsat_name::views;
use crate::text::{chars_of, decimal, decimal_chars, same_chars, string_of, trim, trim_chars};

verus! {

/// The AMSAT API names used when the status page yields none.
pub open spec fn known_satellites() -> Seq<Seq<char>> {
    seq![
        "AISAT-1"@,
        "AO-123"@,
        "AO-16"@,
        "AO-27"@,
        "AO-73"@,
        "AO-7[A]"@,
        "AO-7[B]"@,
        "AO-85"@,
        "AO-91"@,
        "CAS-2T"@,
        "CAS-4A"@,
        "CAS-4B"@,
        "CatSat"@,
        "CUTE-1"@,
        "DSTAR1"@,
        "DUCHIFAT1"@,
        "DUCHIFAT3"@,
        "EO-79"@,
        "EO-80"@,
        "ESEO"@,
        "FloripaSat-1"@,
        "FO-118[H/u]"@,
        "FO-118[V/u+FM]"@,
        "FO-118[V/u]"@,
        "FO-29"@,
        "FO-99"@,
        "GO-32"@,
        "HA-1"@,
        "HO-107"@,
        "HO-113"@,
        "IO-117"@,
        "IO-26"@,
        "IO-86"@,
        "ISS-DATA"@,
        "ISS-DATV"@,
        "ISS-FM"@,
        "ISS-SSTV"@,
        "JO-97"@,
        "K2SAT"@,
        "LEDSAT"@,
        "LilacSat-2"@,
        "LO-19"@,
        "LO-87"@,
        "LO-90"@,
        "LO-93"@,
        "MO-122"@,
        "NO-44"@,
        "NO-45"@,
        "OUFTI-1"@,
        "PO-101[FM]"@,
        "QO-100"@,
        "RS-44"@,
        "RS95s"@,
        "SO-50"@,
        "SO-124"@,
        "SO-125"@
    ]
}

/// The AMSAT API names used when the status page yields none.
pub fn get_known_satellites() -> (r: Vec<String>)
    ensures
        views(r@) == known_satellites(),
{
    let mut v: Vec<String> = Vec::new();
    v.push(String::from_str("AISAT-1"));
    v.push(String::from_str("AO-123"));
    v.push(String::from_str("AO-16"));
    v.push(String::from_str("AO-27"));
    v.push(String::from_str("AO-73"));
    v.push(String::from_str("AO-7[A]"));
    v.push(String::from_str("AO-7[B]"));
    v.push(String::from_str("AO-85"));
    v.push(String::from_str("AO-91"));
    v.push(String::from_str("CAS-2T"));
    v.push(String::from_str("CAS-4A"));
    v.push(String::from_str("CAS-4B"));
    v.push(String::from_str("CatSat"));
    v.push(String::from_str("CUTE-1"));
    v.push(String::from_str("DSTAR1"));
    v.push(String::from_str("DUCHIFAT1"));
    v.push(String::from_str("DUCHIFAT3"));
    v.push(String::from_str("EO-79"));
    v.push(String::from_str("EO-80"));
    v.push(String::from_str("ESEO"));
    v.push(String::from_str("FloripaSat-1"));
    v.push(String::from_str("FO-118[H/u]"));
    v.push(String::from_str("FO-118[V/u+FM]"));
    v.push(String::from_str("FO-118[V/u]"));
    v.push(String::from_str("FO-29"));
    v.push(String::from_str("FO-99"));
    v.push(String::from_str("GO-32"));
    v.push(String::from_str("HA-1"));
    v.push(String::from_str("HO-107"));
    v.push(String::from_str("HO-113"));
    v.push(String::from_str("IO-117"));
    v.push(String::from_str("IO-26"));
    v.push(String::from_str("IO-86"));
    v.push(String::from_str("ISS-DATA"));
    v.push(String::from_str("ISS-DATV"));
    v.push(String::from_str("ISS-FM"));
    v.push(String::from_str("ISS-SSTV"));
    v.push(String::from_str("JO-97"));
    v.push(String::from_str("K2SAT"));
    v.push(String::from_str("LEDSAT"));
    v.push(String::from_str("LilacSat-2"));
    v.push(String::from_str("LO-19"));
    v.push(String::from_str("LO-87"));
    v.push(String::from_str("LO-90"));
    v.push(String::from_str("LO-93"));
    v.push(String::from_str("MO-122"));
    v.push(String::from_str("NO-44"));
    v.push(String::from_str("NO-45"));
    v.push(String::from_str("OUFTI-1"));
    v.push(String::from_str("PO-101[FM]"));
    v.push(String::from_str("QO-100"));
    v.push(String::from_str("RS-44"));
    v.push(String::from_str("RS95s"));
    v.push(String::from_str("SO-50"));
    v.push(String::from_str("SO-124"));
    v.push(String::from_str("SO-125"));
    assert(views(v@) =~= known_satellites());
    v
}

/// The names to fetch: those scraped from the status page, or the known
/// list where the scrape found none.
pub fn names_or_known(scraped: Vec<String>) -> (r: Vec<String>)
    ensures
        scraped@.len() > 0 ==> r@ == scraped@,
        scraped@.len() == 0 ==> views(r@) == known_satellites(),
{
    if scraped.len() > 0 {
        scraped
    } else {
        get_known_satellites()
    }
}

/// The `value` of each `option` of the status page's `SatName` selector,
/// in document order (`None` for an option without one).
pub uninterp spec fn sat_option_values(html: Seq<char>) -> Seq<Option<Seq<char>>>;

/// Relies on scraper's `Html::parse_document`, `select` with the selector
/// `select[name="SatName"] > option`, and `Element::attr("value")`.
#[verifier::external_body]
fn option_values(html: &str) -> (r: Vec<Option<String>>)
    ensures
        r@.map_values(|o: Option<String>| crate::amsat_name::opt_view(o)) == sat_option_values(html@),
{
    let doc = scraper::Html::parse_document(html);
    let Ok(sel) = scraper::Selector::parse(r#"select[name="SatName"] > option"#) else {
        return Vec::new();
    };
    doc.select(&sel).map(|e| e.value().attr("value").map(|v| v.to_string())).collect()
}

/// A dropdown value names a satellite once trimmed, unless it is empty or
/// the `Select Satellite` prompt.
pub open spec fn names_of_options(values: Seq<Option<Seq<char>>>) -> Seq<Seq<char>>
    decreases values.len(),
{
    if values.len() == 0 {
        Seq::empty()
    } else {
        let prev = names_of_options(values.drop_last());
        match values.last() {
            Some(v) => if trim(v).len() > 0 && trim(v) != "Select Satellite"@ {
                prev.push(trim(v))
            } else {
                prev
            },
            None => prev,
        }
    }
}

/// The satellite names of the status page's dropdown.
pub fn satellite_names_from_page(html: &str) -> (r: Vec<String>)
    ensures
        views(r@) == names_of_options(sat_option_values(html@)),
{
    let values = option_values(html);
    let ghost vs = values@.map_values(|o: Option<String>| crate::amsat_name::opt_view(o));
    let prompt = chars_of("Select Satellite");
    let mut out: Vec<String> = Vec::new();
    let mut i: usize = 0;
    while i < values.len()
        invariant
            i <= values@.len(),
            vs == values@.map_values(|o: Option<String>| crate::amsat_name::opt_view(o)),
            prompt@ == "Select Satellite"@,
            views(out@) == names_of_options(vs.subrange(0, i as int)),
        decreases values.len() - i,
    {
        let ghost pre = vs.subrange(0, i + 1);
        assert(pre.drop_last() =~= vs.subrange(0, i as int));
        assert(pre.last() == crate::amsat_name::opt_view(values@[i as int]));
        match &values[i] {
            Some(v) => {
                let all = chars_of(v.as_str());
                let t = trim_chars(&all);
                if t.len() > 0 && !same_chars(&t, &prompt) {
                    let ghost before = out@;
                    let name = string_of(&t);
                    out.push(name);
                    assert(views(out@) =~= views(before).push(t@));
                }
            },
            None => {},
        }
        i = i + 1;
    }
    assert(vs.subrange(0, vs.len() as int) =~= vs);
    out
}

/// The AMSAT status API query for one satellite over the last `hours`.
pub open spec fn api_url(name: Seq<char>, hours: nat) -> Seq<char> {
    "https://www.amsat.org/status/api/v1/sat_info.php?name="@ + name + "&hours="@ + decimal(hours)
}

/// The URL that fetches a satellite's recent reports.
pub fn amsat_api_url(name: &str, hours: u32) -> (r: String)
    ensures
        r@ == api_url(name@, hours as nat),
{
    let mut buf = chars_of("https://www.amsat.org/status/api/v1/sat_info.php?name=");
    let ghost start = buf@;
    let n = chars_of(name);
    let mut i: usize = 0;
    while i < n.len()
        invariant
            i <= n@.len(),
            buf@ == start + n@.subrange(0, i as int),
        decreases n.len() - i,
    {
        buf.push(n[i]);
        i = i + 1;
        assert(buf@ =~= start + n@.subrange(0, i as int));
    }
    assert(n@.subrange(0, n@.len() as int) =~= n@);
    let tail = chars_of("&hours=");
    let d = decimal_chars(hours as u64);
    let ghost mid = buf@;
    let mut j: usize = 0;
    while j < tail.len()
        invariant
            j <= tail@.len(),
            buf@ == mid + tail@.subrange(0, j as int),
        decreases tail.len() - j,
    {
        buf.push(tail[j]);
        j = j + 1;
        assert(buf@ =~= mid + tail@.subrange(0, j as int));
    }
    assert(tail@.subrange(0, tail@.len() as int) =~= tail@);
    let ghost mid2 = buf@;
    let mut k: usize = 0;
    while k < d.len()
        invariant
            k <= d@.len(),
            buf@ == mid2 + d@.subrange(0, k as int),
        decreases d.len() - k,
    {
        buf.push(d[k]);
        k = k + 1;
        assert(buf@ =~= mid2 + d@.subrange(0, k as int));
    }
    assert(d@.subrange(0, d@.len() as int) =~= d@);
    assert(buf@ =~= api_url(name@, hours as nat));
    string_of(&buf)
}

} // verus!
