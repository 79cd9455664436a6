//! AMSAT satellite names: splitting a name into its base and mode hint,
//! search aliases, search normalisation, and picking the transponder that a
//! mode hint designates.
use vstd::prelude::*;

use crate::text::{
    chars_of, contains_chars, has_piece, is_kept, is_punct_char, is_white_char, last_index,
    last_index_of, lower_char, lower_seq, replace_char, replace_chars, same_chars, slice_chars,
    string_of, strip_separator_chars, strip_separators, to_lower_char, trim, trim_chars,
    trim_end_char, upper_of, upper_text,
};

verus! {

/// The character sequences of a list of strings.
pub open spec fn views(v: Seq<String>) -> Seq<Seq<char>> {
    v.map_values(|s: String| s@)
}

pub open spec fn char_views(v: Seq<Vec<char>>) -> Seq<Seq<char>> {
    v.map_values(|s: Vec<char>| s@)
}

/// The mode keywords that may end an AMSAT name, in upper case.
pub open spec fn mode_keywords() -> Seq<Seq<char>> {
    seq![
        seq!['F', 'M'],
        seq!['S', 'S', 'T', 'V'],
        seq!['D', 'A', 'T', 'A'],
        seq!['D', 'A', 'T', 'V'],
        seq!['L', 'I', 'N', 'E', 'A', 'R'],
        seq!['L', 'I', 'N'],
        seq!['I', 'M', 'A', 'G', 'E'],
        seq!['I', 'M', 'G'],
        seq!['C', 'W'],
        seq!['S', 'S', 'B'],
        seq!['D', 'I', 'G', 'I'],
        seq!['A', 'P', 'R', 'S'],
        seq!['P', 'A', 'C', 'K', 'E', 'T'],
        seq!['V', '/', 'U'],
        seq!['U', '/', 'V'],
        seq!['H', '/', 'U'],
        seq!['V', '/', 'U', ' ', 'F', 'M'],
        seq!['L'],
        seq!['S'],
        seq!['X'],
        seq!['A'],
        seq!['B'],
    ]
}

/// `s` names a mode, ignoring case.
pub open spec fn is_keyword(s: Seq<char>) -> bool {
    mode_keywords().contains(upper_of(s))
}

/// Split `t` at its last `sep`; the piece after it, with every trailing
/// `closer` removed and trimmed, must be a mode keyword. Gives the trimmed
/// piece before `sep` and the keyword in upper case.
pub open spec fn split_at_last(t: Seq<char>, sep: char, closer: Option<char>) -> Option<
    (Seq<char>, Seq<char>),
> {
    let i = last_index(t, sep);
    if i < 0 {
        None
    } else {
        let right = t.subrange(i + 1, t.len() as int);
        let cand = match closer {
            Some(c) => trim(trim_end_char(right, c)),
            None => trim(right),
        };
        if is_keyword(cand) {
            Some((trim(t.subrange(0, i)), upper_of(cand)))
        } else {
            None
        }
    }
}

/// The (base name, mode hint) of an AMSAT name: the first of the splits at
/// the last space, the last `-`, the last `[` and the last `(` that ends in a
/// mode keyword; else the whole trimmed name and no hint.
pub open spec fn parse_name(name: Seq<char>) -> (Seq<char>, Option<Seq<char>>) {
    let t = trim(name);
    match split_at_last(t, ' ', None) {
        Some(p) => (p.0, Some(p.1)),
        None => match split_at_last(t, '-', None) {
            Some(p) => (p.0, Some(p.1)),
            None => match split_at_last(t, '[', Some(']')) {
                Some(p) => (p.0, Some(p.1)),
                None => match split_at_last(t, '(', Some(')')) {
                    Some(p) => (p.0, Some(p.1)),
                    None => (t, None),
                },
            },
        },
    }
}

/// The search form of a string: ASCII lower case, without ASCII
/// punctuation and white space.
pub open spec fn normalized(s: Seq<char>) -> Seq<char> {
    strip_separators(lower_seq(s))
}

/// The aliases of an AMSAT name, in order: the trimmed name without
/// separators, with `-` as space, with space as `-`; each only where it
/// differs from the trimmed name and from the aliases before it.
pub open spec fn aliases_of(name: Seq<char>) -> Seq<Seq<char>> {
    let t = trim(name);
    let a = strip_separators(t);
    let s1: Seq<Seq<char>> = if a.len() > 0 && a != t {
        seq![a]
    } else {
        seq![]
    };
    let b = replace_char(t, '-', ' ');
    let s2 = if b != t && !s1.contains(b) {
        s1.push(b)
    } else {
        s1
    };
    let c = replace_char(t, ' ', '-');
    if c != t && !s2.contains(c) {
        s2.push(c)
    } else {
        s2
    }
}

/// Result of splitting an AMSAT name.
#[derive(Debug, Clone, PartialEq)]
pub struct ParsedAmsatName {
    /// The satellite base name, e.g. `ISS`, `AO-91`.
    pub base_name: String,
    /// The mode named at the end of the name, upper case, e.g. `FM`.
    pub mode_hint: Option<String>,
}

pub open spec fn opt_view(o: Option<String>) -> Option<Seq<char>> {
    match o {
        Some(s) => Some(s@),
        None => None,
    }
}

impl View for ParsedAmsatName {
    type V = (Seq<char>, Option<Seq<char>>);

    open spec fn view(&self) -> Self::V {
        (self.base_name@, opt_view(self.mode_hint))
    }
}

fn keyword_at(i: usize) -> (r: Vec<char>)
    requires
        i < mode_keywords().len(),
    ensures
        r@ == mode_keywords()[i as int],
{
    if i == 0 {
        vec!['F', 'M']
    } else if i == 1 {
        vec!['S', 'S', 'T', 'V']
    } else if i == 2 {
        vec!['D', 'A', 'T', 'A']
    } else if i == 3 {
        vec!['D', 'A', 'T', 'V']
    } else if i == 4 {
        vec!['L', 'I', 'N', 'E', 'A', 'R']
    } else if i == 5 {
        vec!['L', 'I', 'N']
    } else if i == 6 {
        vec!['I', 'M', 'A', 'G', 'E']
    } else if i == 7 {
        vec!['I', 'M', 'G']
    } else if i == 8 {
        vec!['C', 'W']
    } else if i == 9 {
        vec!['S', 'S', 'B']
    } else if i == 10 {
        vec!['D', 'I', 'G', 'I']
    } else if i == 11 {
        vec!['A', 'P', 'R', 'S']
    } else if i == 12 {
        vec!['P', 'A', 'C', 'K', 'E', 'T']
    } else if i == 13 {
        vec!['V', '/', 'U']
    } else if i == 14 {
        vec!['U', '/', 'V']
    } else if i == 15 {
        vec!['H', '/', 'U']
    } else if i == 16 {
        vec!['V', '/', 'U', ' ', 'F', 'M']
    } else if i == 17 {
        vec!['L']
    } else if i == 18 {
        vec!['S']
    } else if i == 19 {
        vec!['X']
    } else if i == 20 {
        vec!['A']
    } else {
        vec!['B']
    }
}

fn is_keyword_chars(s: &[char]) -> (r: bool)
    ensures
        r == is_keyword(s@),
{
    let up = upper_text(s);
    let mut i: usize = 0;
    while i < 22
        invariant
            i <= 22 == mode_keywords().len(),
            up@ == upper_of(s@),
            forall|k: int| 0 <= k < i ==> mode_keywords()[k] != up@,
        decreases 22 - i,
    {
        let kw = keyword_at(i);
        if same_chars(&kw, &up) {
            return true;
        }
        i = i + 1;
    }
    false
}

/// Whether `s` is a mode keyword, ignoring case.
pub fn is_mode_keyword(s: &str) -> (r: bool)
    ensures
        r == is_keyword(s@),
{
    let v = chars_of(s);
    is_keyword_chars(&v)
}

/// `v` without every trailing `c`.
fn trim_end_matching(v: &[char], c: char) -> (r: Vec<char>)
    ensures
        r@ == trim_end_char(v@, c),
{
    let mut j: usize = v.len();
    assert(v@.subrange(0, v@.len() as int) =~= v@);
    while j > 0 && v[j - 1] == c
        invariant
            j <= v@.len(),
            trim_end_char(v@, c) == trim_end_char(v@.subrange(0, j as int), c),
        decreases j,
    {
        assert(v@.subrange(0, j as int).drop_last() =~= v@.subrange(0, j - 1));
        j = j - 1;
    }
    slice_chars(v, 0, j)
}

fn split_last(t: &[char], sep: char, closer: Option<char>) -> (r: Option<(Vec<char>, Vec<char>)>)
    ensures
        match r {
            Some(p) => split_at_last(t@, sep, closer) == Some((p.0@, p.1@)),
            None => split_at_last(t@, sep, closer) is None,
        },
{
    match last_index_of(t, sep) {
        None => None,
        Some(i) => {
            let n = t.len();
            let right = slice_chars(t, i + 1, n);
            let cand = match closer {
                Some(c) => {
                    let cut = trim_end_matching(&right, c);
                    trim_chars(&cut)
                },
                None => trim_chars(&right),
            };
            if is_keyword_chars(&cand) {
                let left = slice_chars(t, 0, i);
                Some((trim_chars(&left), upper_text(&cand)))
            } else {
                None
            }
        },
    }
}

/// Split an AMSAT API name into its base name and mode hint.
///
/// `ISS-FM` gives (`ISS`, `FM`); `AO-91` gives (`AO-91`, none), as `91` is
/// no mode keyword; `FO-118[H/u]` gives (`FO-118`, `H/U`).
pub fn parse_amsat_name(api_name: &str) -> (r: ParsedAmsatName)
    ensures
        r@ == parse_name(api_name@),
{
    let all = chars_of(api_name);
    let t = trim_chars(&all);
    if let Some(p) = split_last(&t, ' ', None) {
        return ParsedAmsatName { base_name: string_of(&p.0), mode_hint: Some(string_of(&p.1)) };
    }
    if let Some(p) = split_last(&t, '-', None) {
        return ParsedAmsatName { base_name: string_of(&p.0), mode_hint: Some(string_of(&p.1)) };
    }
    if let Some(p) = split_last(&t, '[', Some(']')) {
        return ParsedAmsatName { base_name: string_of(&p.0), mode_hint: Some(string_of(&p.1)) };
    }
    if let Some(p) = split_last(&t, '(', Some(')')) {
        return ParsedAmsatName { base_name: string_of(&p.0), mode_hint: Some(string_of(&p.1)) };
    }
    ParsedAmsatName { base_name: string_of(&t), mode_hint: None }
}

/// The search form of a string: ASCII lower case, without ASCII punctuation
/// and white space (`  ISS SSTV ` gives `isssstv`).
pub fn normalize_for_search(s: &str) -> (r: String)
    ensures
        r@ == normalized(s@),
{
    let v = chars_of(s);
    let mut out: Vec<char> = Vec::new();
    let mut i: usize = 0;
    while i < v.len()
        invariant
            i <= v@.len(),
            v@ == s@,
            out@ == strip_separators(lower_seq(v@.subrange(0, i as int))),
        decreases v.len() - i,
    {
        let c = v[i];
        assert(lower_seq(v@.subrange(0, i + 1)).drop_last() =~= lower_seq(v@.subrange(0, i as int)));
        assert(lower_seq(v@.subrange(0, i + 1)).last() == lower_char(c));
        if !is_punct_char(c) && !is_white_char(c) {
            out.push(to_lower_char(c));
        }
        i = i + 1;
    }
    assert(v@.subrange(0, v@.len() as int) =~= v@);
    string_of(&out)
}

fn contains_seq(list: &Vec<Vec<char>>, x: &[char]) -> (r: bool)
    ensures
        r == char_views(list@).contains(x@),
{
    let mut i: usize = 0;
    while i < list.len()
        invariant
            i <= list@.len(),
            forall|k: int| 0 <= k < i ==> char_views(list@)[k] != x@,
        decreases list.len() - i,
    {
        assert(char_views(list@)[i as int] == list@[i as int]@);
        if same_chars(&list[i], x) {
            return true;
        }
        i = i + 1;
    }
    false
}

/// Search aliases of an AMSAT name (`ISS-FM` gives `ISSFM` and `ISS FM`).
pub fn generate_aliases(api_name: &str) -> (r: Vec<String>)
    ensures
        views(r@) == aliases_of(api_name@),
{
    let all = chars_of(api_name);
    let t = trim_chars(&all);
    let mut found: Vec<Vec<char>> = Vec::new();
    let a = strip_separator_chars(&t);
    if a.len() > 0 && !same_chars(&a, &t) {
        found.push(a);
    }
    assert(char_views(found@) =~= (if a@.len() > 0 && a@ != t@ { seq![a@] } else { seq![] }));
    let b = replace_chars(&t, '-', ' ');
    let ghost s1 = char_views(found@);
    if !same_chars(&b, &t) && !contains_seq(&found, &b) {
        found.push(b);
    }
    assert(char_views(found@) =~= (if b@ != t@ && !s1.contains(b@) { s1.push(b@) } else { s1 }));
    let c = replace_chars(&t, ' ', '-');
    if !same_chars(&c, &t) && !contains_seq(&found, &c) {
        found.push(c);
    }
    assert(char_views(found@) =~= aliases_of(api_name@));
    let mut out: Vec<String> = Vec::new();
    let mut i: usize = 0;
    while i < found.len()
        invariant
            i <= found@.len(),
            views(out@) == char_views(found@).subrange(0, i as int),
        decreases found.len() - i,
    {
        let st = string_of(&found[i]);
        assert(char_views(found@)[i as int] == st@);
        let ghost before = out@;
        out.push(st);
        assert(out@ == before.push(st));
        assert(views(out@) =~= views(before).push(st@));
        assert(char_views(found@).subrange(0, i + 1) =~= char_views(found@).subrange(
            0,
            i as int,
        ).push(st@));
        i = i + 1;
        assert(views(out@) =~= char_views(found@).subrange(0, i as int));
    }
    assert(char_views(found@).subrange(0, found@.len() as int) =~= char_views(found@));
    out
}

/// The (label, mode) pairs of a transponder list, as character sequences.
pub open spec fn pair_views(labels: Seq<(String, String)>) -> Seq<(Seq<char>, Seq<char>)> {
    labels.map_values(|p: (String, String)| (p.0@, p.1@))
}

/// Rule 0: the label equals the hint; rule 1: the label contains it; rule 2:
/// the mode contains it. Labels and modes are compared in upper case.
pub open spec fn label_hit(p: (Seq<char>, Seq<char>), h: Seq<char>, rule: int) -> bool {
    if rule == 0 {
        upper_of(p.0) == h
    } else if rule == 1 {
        has_piece(upper_of(p.0), h)
    } else {
        has_piece(upper_of(p.1), h)
    }
}

/// The first index from `i` on whose pair meets `rule`.
pub open spec fn first_hit(labels: Seq<(Seq<char>, Seq<char>)>, h: Seq<char>, rule: int, i: int) -> Option<
    int,
>
    decreases labels.len() - i,
{
    if i < 0 || i >= labels.len() {
        None
    } else if label_hit(labels[i], h, rule) {
        Some(i)
    } else {
        first_hit(labels, h, rule, i + 1)
    }
}

/// The transponder that a mode hint designates: the first exact label
/// match, else the first label containing the hint, else the first mode
/// containing it; with no hint, the first transponder.
pub open spec fn transponder_choice(hint: Option<Seq<char>>, labels: Seq<(Seq<char>, Seq<char>)>) -> Option<int> {
    match hint {
        None => if labels.len() > 0 {
            Some(0)
        } else {
            None
        },
        Some(x) => {
            let h = upper_of(x);
            match first_hit(labels, h, 0, 0) {
                Some(i) => Some(i),
                None => match first_hit(labels, h, 1, 0) {
                    Some(i) => Some(i),
                    None => first_hit(labels, h, 2, 0),
                },
            }
        },
    }
}

fn first_hit_exec(labels: &[(String, String)], h: &[char], rule: usize) -> (r: Option<usize>)
    requires
        rule <= 2,
    ensures
        match r {
            Some(i) => first_hit(pair_views(labels@), h@, rule as int, 0) == Some(i as int),
            None => first_hit(pair_views(labels@), h@, rule as int, 0) is None,
        },
{
    let ghost pv = pair_views(labels@);
    let mut i: usize = 0;
    while i < labels.len()
        invariant
            i <= labels@.len() == pv.len(),
            pv == pair_views(labels@),
            first_hit(pv, h@, rule as int, 0) == first_hit(pv, h@, rule as int, i as int),
        decreases labels.len() - i,
    {
        let label = chars_of(labels[i].0.as_str());
        let mode = chars_of(labels[i].1.as_str());
        assert(pv[i as int] == (label@, mode@));
        let up_label = upper_text(&label);
        let hit = if rule == 0 {
            same_chars(&up_label, h)
        } else if rule == 1 {
            contains_chars(&up_label, h)
        } else {
            let up_mode = upper_text(&mode);
            contains_chars(&up_mode, h)
        };
        if hit {
            return Some(i);
        }
        i = i + 1;
    }
    None
}

/// Index of the transponder, among (label, mode) pairs of one satellite,
/// that the mode hint designates.
pub fn find_matching_transponder_index(mode_hint: Option<&str>, labels: &[(String, String)]) -> (r:
    Option<usize>)
    ensures
        match r {
            Some(i) => transponder_choice(
                match mode_hint {
                    Some(m) => Some(m@),
                    None => None,
                },
                pair_views(labels@),
            ) == Some(i as int),
            None => transponder_choice(
                match mode_hint {
                    Some(m) => Some(m@),
                    None => None,
                },
                pair_views(labels@),
            ) is None,
        },
{
    match mode_hint {
        None => {
            if labels.len() > 0 {
                Some(0)
            } else {
                None
            }
        },
        Some(hint) => {
            let hv = chars_of(hint);
            let h = upper_text(&hv);
            if let Some(i) = first_hit_exec(labels, &h, 0) {
                return Some(i);
            }
            if let Some(i) = first_hit_exec(labels, &h, 1) {
                return Some(i);
            }
            first_hit_exec(labels, &h, 2)
        },
    }
}

proof fn lemma_first_hit_in_range(labels: Seq<(Seq<char>, Seq<char>)>, h: Seq<char>, rule: int, i: int)
    ensures
        first_hit(labels, h, rule, i) matches Some(j) ==> 0 <= j < labels.len(),
    decreases labels.len() - i,
{
    if 0 <= i < labels.len() && !label_hit(labels[i], h, rule) {
        lemma_first_hit_in_range(labels, h, rule, i + 1);
    }
}

/// The designated transponder is one of the list.
pub proof fn lemma_choice_in_range(hint: Option<Seq<char>>, labels: Seq<(Seq<char>, Seq<char>)>)
    ensures
        transponder_choice(hint, labels) matches Some(j) ==> 0 <= j < labels.len(),
{
    if let Some(x) = hint {
        lemma_first_hit_in_range(labels, upper_of(x), 0, 0);
        lemma_first_hit_in_range(labels, upper_of(x), 1, 0);
        lemma_first_hit_in_range(labels, upper_of(x), 2, 0);
    }
}

/// Parsing is a function of the name alone: equal names give equal results.
pub proof fn lemma_parse_deterministic(a: Seq<char>, b: Seq<char>)
    requires
        a == b,
    ensures
        parse_name(a) == parse_name(b),
{
}

proof fn lemma_lower_char_idempotent(c: char)
    ensures
        lower_char(lower_char(c)) == lower_char(c),
        is_kept(lower_char(c)) == is_kept(c),
{
}

/// Every character of a normalised string is kept and already lower case.
proof fn lemma_normalized_chars(s: Seq<char>)
    ensures
        forall|k: int|
            0 <= k < normalized(s).len() ==> is_kept(#[trigger] normalized(s)[k]) && lower_char(
                normalized(s)[k],
            ) == normalized(s)[k],
    decreases s.len(),
{
    if s.len() > 0 {
        lemma_normalized_chars(s.drop_last());
        assert(lower_seq(s).drop_last() =~= lower_seq(s.drop_last()));
        assert(lower_seq(s).last() == lower_char(s.last()));
        lemma_lower_char_idempotent(s.last());
        let p = normalized(s.drop_last());
        if is_kept(lower_char(s.last())) {
            assert(normalized(s) == p.push(lower_char(s.last())));
            assert forall|k: int| 0 <= k < normalized(s).len() implies is_kept(
                #[trigger] normalized(s)[k],
            ) && lower_char(normalized(s)[k]) == normalized(s)[k] by {
                if k < p.len() {
                    assert(normalized(s)[k] == p[k]);
                }
            }
        } else {
            assert(normalized(s) == p);
        }
    }
}

proof fn lemma_normalized_fixed(m: Seq<char>)
    requires
        forall|k: int| 0 <= k < m.len() ==> is_kept(#[trigger] m[k]) && lower_char(m[k]) == m[k],
    ensures
        normalized(m) == m,
    decreases m.len(),
{
    assert(lower_seq(m) =~= m);
    if m.len() > 0 {
        lemma_normalized_fixed(m.drop_last());
        assert(lower_seq(m.drop_last()) =~= m.drop_last());
        assert(m.drop_last().push(m.last()) =~= m);
    }
}

/// Normalising twice is normalising once.
pub proof fn lemma_normalize_idempotent(s: Seq<char>)
    ensures
        normalized(normalized(s)) == normalized(s),
{
    lemma_normalized_chars(s);
    lemma_normalized_fixed(normalized(s));
}

} // verus!
