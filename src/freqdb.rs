//! The read-only frequency-metadata store, keyed by NORAD id, and the join
//! that finds the transponder an AMSAT entry refers to.
//!
//! Frequencies are held as the text they are shown with (e.g.
//! `145.800 MHz`); reading the CSV's numbers is the caller's part.
use vstd::prelude::*;

use crate::amsat_name::{find_matching_transponder_index, pair_views, transponder_choice, views};
use crate::metadata::{parse_u32, FrequencyCsvRow};
use crate::text::{chars_of, contains_chars, has_piece, lower_of, lower_text, trim};

verus! {

/// One transponder of a satellite.
#[derive(Debug, Clone)]
pub struct TransponderInfo {
    pub label: String,
    pub mode: String,
    pub uplink: String,
    pub downlink: String,
    pub beacon: String,
    pub callsign: Option<String>,
    pub satnogs_id: Option<String>,
}

/// One satellite and its transponders.
#[derive(Debug, Clone)]
pub struct SatelliteMeta {
    pub norad_id: u32,
    pub common_name: String,
    /// Other names the CSV gives the satellite.
    pub aliases: Vec<String>,
    pub transponders: Vec<TransponderInfo>,
    pub satnogs_id: Option<String>,
}

/// Transponder metadata joined to an AMSAT entry.
#[derive(Debug, Clone)]
pub struct TransponderMetadata {
    pub norad_id: u32,
    pub satellite_name: String,
    pub transponder_label: String,
    pub mode: String,
    pub uplink: String,
    pub downlink: String,
}

/// All satellites, in the order the CSV first names them.
#[derive(Debug, Clone)]
pub struct FrequencyDatabase {
    pub satellites: Vec<SatelliteMeta>,
}

/// Two transponders with the same frequencies and mode.
pub open spec fn same_transponder(a: TransponderInfo, b: TransponderInfo) -> bool {
    a.uplink@ == b.uplink@ && a.downlink@ == b.downlink@ && a.mode@ == b.mode@
}

/// `name` occurs, ignoring case, in the satellite's name or an alias.
pub open spec fn name_matches(s: SatelliteMeta, name: Seq<char>) -> bool {
    has_piece(lower_of(s.common_name@), lower_of(name)) || exists|i: int|
        0 <= i < s.aliases@.len() && has_piece(lower_of(#[trigger] s.aliases@[i]@), lower_of(name))
}

/// The (label, mode) pairs of a satellite's transponders.
pub open spec fn label_pairs(s: SatelliteMeta) -> Seq<(Seq<char>, Seq<char>)> {
    s.transponders@.map_values(|t: TransponderInfo| (t.label@, t.mode@))
}

/// Counts over the metadata store.
#[derive(Debug, Clone, Copy, PartialEq, Eq, Structural)]
pub struct DatabaseStats {
    pub total_satellites: usize,
    pub total_transponders: usize,
    pub satellites_with_multiple_transponders: usize,
}

/// The number of transponders of the satellites.
pub open spec fn transponder_count(sats: Seq<SatelliteMeta>) -> int
    decreases sats.len(),
{
    if sats.len() == 0 {
        0
    } else {
        transponder_count(sats.drop_last()) + sats.last().transponders@.len()
    }
}

/// The number of satellites with more than one transponder.
pub open spec fn multi_count(sats: Seq<SatelliteMeta>) -> int
    decreases sats.len(),
{
    if sats.len() == 0 {
        0
    } else {
        multi_count(sats.drop_last()) + if sats.last().transponders@.len() > 1 {
            1int
        } else {
            0int
        }
    }
}

proof fn lemma_counts_prefix(sats: Seq<SatelliteMeta>, i: int)
    requires
        0 <= i < sats.len(),
    ensures
        transponder_count(sats.subrange(0, i + 1)) <= transponder_count(sats),
        multi_count(sats.subrange(0, i)) <= i,
    decreases sats.len(),
{
    assert(sats.subrange(0, i + 1).drop_last() =~= sats.subrange(0, i));
    if i + 1 < sats.len() {
        lemma_counts_prefix(sats.drop_last(), i);
        assert(sats.drop_last().subrange(0, i + 1) =~= sats.subrange(0, i + 1));
        assert(sats.drop_last().subrange(0, i) =~= sats.subrange(0, i));
    } else {
        assert(sats.subrange(0, i + 1) =~= sats);
    }
    lemma_multi_bound(sats.subrange(0, i));
}

proof fn lemma_multi_bound(sats: Seq<SatelliteMeta>)
    ensures
        0 <= multi_count(sats) <= sats.len(),
    decreases sats.len(),
{
    if sats.len() > 0 {
        lemma_multi_bound(sats.drop_last());
    }
}

impl FrequencyDatabase {
    /// Counts of satellites and transponders.
    pub fn stats(&self) -> (r: DatabaseStats)
        requires
            transponder_count(self.satellites@) <= usize::MAX,
        ensures
            r.total_satellites == self.satellites@.len(),
            r.total_transponders == transponder_count(self.satellites@),
            r.satellites_with_multiple_transponders == multi_count(self.satellites@),
    {
        let mut total: usize = 0;
        let mut multi: usize = 0;
        let mut i: usize = 0;
        while i < self.satellites.len()
            invariant
                i <= self.satellites@.len(),
                transponder_count(self.satellites@) <= usize::MAX,
                total == transponder_count(self.satellites@.subrange(0, i as int)),
                multi == multi_count(self.satellites@.subrange(0, i as int)),
            decreases self.satellites.len() - i,
        {
            proof {
                lemma_counts_prefix(self.satellites@, i as int);
            }
            let ghost pre = self.satellites@.subrange(0, i + 1);
            assert(pre.drop_last() =~= self.satellites@.subrange(0, i as int));
            let n = self.satellites[i].transponders.len();
            total = total + n;
            if n > 1 {
                multi = multi + 1;
            }
            i = i + 1;
        }
        assert(self.satellites@.subrange(0, self.satellites@.len() as int) =~= self.satellites@);
        DatabaseStats {
            total_satellites: self.satellites.len(),
            total_transponders: total,
            satellites_with_multiple_transponders: multi,
        }
    }

    /// No two satellites share a NORAD id.
    pub open spec fn wf(&self) -> bool {
        forall|i: int, j: int|
            0 <= i < self.satellites@.len() && 0 <= j < self.satellites@.len() && i != j
                ==> #[trigger] self.satellites@[i].norad_id != #[trigger] self.satellites@[j].norad_id
    }

    pub fn new() -> (r: FrequencyDatabase)
        ensures
            r.wf(),
            r.satellites@.len() == 0,
    {
        FrequencyDatabase { satellites: Vec::new() }
    }

    /// Index of the satellite with a NORAD id.
    pub fn position(&self, norad_id: u32) -> (r: Option<usize>)
        ensures
            match r {
                Some(i) => i < self.satellites@.len() && self.satellites@[i as int].norad_id == norad_id,
                None => forall|i: int| 0 <= i < self.satellites@.len() ==> #[trigger] self.satellites@[i].norad_id != norad_id,
            },
    {
        let mut i: usize = 0;
        while i < self.satellites.len()
            invariant
                i <= self.satellites@.len(),
                forall|k: int| 0 <= k < i ==> #[trigger] self.satellites@[k].norad_id != norad_id,
            decreases self.satellites.len() - i,
        {
            if self.satellites[i].norad_id == norad_id {
                return Some(i);
            }
            i = i + 1;
        }
        None
    }

    /// The satellite with a NORAD id.
    pub fn get_satellite(&self, norad_id: u32) -> (r: Option<&SatelliteMeta>)
        ensures
            match r {
                Some(s) => s.norad_id == norad_id && self.satellites@.contains(*s),
                None => forall|i: int| 0 <= i < self.satellites@.len() ==> #[trigger] self.satellites@[i].norad_id != norad_id,
            },
    {
        match self.position(norad_id) {
            Some(i) => Some(&self.satellites[i]),
            None => None,
        }
    }

    /// Add one CSV row, whose transponder (with its frequencies as shown) is
    /// given. A row whose NORAD id does not parse is refused (`false`). A
    /// new id makes a satellite named after the row; a known one gains the
    /// row's name as an alias where it is new, its SatNOGS id where it has
    /// none, and the transponder unless one with the same frequencies and
    /// mode is there.
    pub fn add_row(&mut self, row: &FrequencyCsvRow, transponder: TransponderInfo) -> (r: bool)
        requires
            old(self).wf(),
        ensures
            final(self).wf(),
            r == (parse_u32(trim(row.norad_id@)) is Some),
            !r ==> final(self).satellites == old(self).satellites,
            r ==> exists|i: int| 0 <= i < final(self).satellites@.len()
                && #[trigger] final(self).satellites@[i].norad_id == parse_u32(trim(row.norad_id@))->0
                && exists|k: int| 0 <= k < final(self).satellites@[i].transponders@.len()
                    && same_transponder(#[trigger] final(self).satellites@[i].transponders@[k], transponder),
            r && has_id(old(self).satellites@, parse_u32(trim(row.norad_id@))->0) ==> {
                &&& final(self).satellites@.len() == old(self).satellites@.len()
                &&& forall|i: int| 0 <= i < old(self).satellites@.len() ==> if old(self).satellites@[i].norad_id
                    == parse_u32(trim(row.norad_id@))->0 {
                    row_applied(old(self).satellites@[i], #[trigger] final(self).satellites@[i], *row, transponder)
                } else {
                    final(self).satellites@[i] == old(self).satellites@[i]
                }
            },
            r && !has_id(old(self).satellites@, parse_u32(trim(row.norad_id@))->0) ==> {
                &&& final(self).satellites@.drop_last() == old(self).satellites@
                &&& new_satellite(final(self).satellites@.last(), parse_u32(trim(row.norad_id@))->0, *row, transponder)
            },
            final(self).satellites@.len() >= old(self).satellites@.len(),
            forall|i: int| 0 <= i < old(self).satellites@.len() ==> #[trigger] final(self).satellites@[i].norad_id == old(self).satellites@[i].norad_id,
    {
        let id = match row.parse_norad_id() {
            Some(id) => id,
            None => {
                return false;
            },
        };
        let ghost before = self.satellites@;
        let idx = match self.position(id) {
            Some(i) => i,
            None => {
                let s = SatelliteMeta {
                    norad_id: id,
                    common_name: row.name.clone(),
                    aliases: Vec::new(),
                    transponders: Vec::new(),
                    satnogs_id: None,
                };
                self.satellites.push(s);
                assert(!has_id(before, id));
                assert forall|i: int, j: int|
                    0 <= i < self.satellites@.len() && 0 <= j < self.satellites@.len() && i != j implies
                    #[trigger] self.satellites@[i].norad_id != #[trigger] self.satellites@[j].norad_id by {
                    if i < before.len() && j < before.len() {
                        assert(self.satellites@[i] == before[i] && self.satellites@[j] == before[j]);
                    } else if i < before.len() {
                        assert(self.satellites@[i] == before[i]);
                    } else {
                        assert(self.satellites@[j] == before[j]);
                    }
                }
                self.satellites.len() - 1
            },
        };
        let ghost mid = self.satellites@;
        let ghost orig = mid[idx as int];
        let ghost tv = transponder;
        let mut sat = self.satellites.remove(idx);
        assert(sat == orig);
        if sat.common_name != row.name && !has_string(&sat.aliases, &row.name) {
            let ghost al = sat.aliases@;
            sat.aliases.push(row.name.clone());
            assert(views(sat.aliases@) =~= views(al).push(row.name@));
        }
        assert(views(sat.aliases@) == (if row.name@ != orig.common_name@ && !views(orig.aliases@).contains(row.name@) {
            views(orig.aliases@).push(row.name@)
        } else {
            views(orig.aliases@)
        }));
        if sat.satnogs_id.is_none() {
            match &transponder.satnogs_id {
                Some(sid) => {
                    sat.satnogs_id = Some(sid.clone());
                },
                None => {},
            }
        }
        let found_same = find_same(&sat.transponders, &transponder);
        let mut k: usize = 0;
        let dup = match found_same {
            Some(j) => {
                k = j;
                assert(has_same(orig.transponders@, tv));
                true
            },
            None => {
                assert(!has_same(orig.transponders@, tv));
                false
            },
        };
        assert(sat.transponders == orig.transponders);
        if !dup {
            k = sat.transponders.len();
            sat.transponders.push(transponder);
            assert(same_transponder(sat.transponders@[k as int], tv));
        }
        assert(k < sat.transponders@.len() && same_transponder(sat.transponders@[k as int], tv));
        assert(row_applied(orig, sat, *row, tv));
        self.satellites.insert(idx, sat);
        assert(self.satellites@ =~= mid.update(idx as int, sat));
        assert(self.satellites@[idx as int].norad_id == id);
        assert forall|i: int, j: int|
            0 <= i < self.satellites@.len() && 0 <= j < self.satellites@.len() && i != j implies
            #[trigger] self.satellites@[i].norad_id != #[trigger] self.satellites@[j].norad_id by {
            assert(self.satellites@[i].norad_id == mid[i].norad_id);
            assert(self.satellites@[j].norad_id == mid[j].norad_id);
        }
        assert forall|i: int| 0 <= i < before.len() implies #[trigger] self.satellites@[i].norad_id == before[i].norad_id by {
            assert(self.satellites@[i].norad_id == mid[i].norad_id);
            if mid.len() > before.len() {
                assert(mid[i] == before[i]);
            }
        }
        proof {
            if mid.len() > before.len() {
                assert(!has_id(before, id));
                assert(self.satellites@.drop_last() =~= before);
                assert(idx == before.len());
            } else {
                assert(mid == before);
                assert(before[idx as int].norad_id == id);
                assert forall|i: int| 0 <= i < before.len() implies if before[i].norad_id == id {
                    row_applied(before[i], #[trigger] self.satellites@[i], *row, tv)
                } else {
                    self.satellites@[i] == before[i]
                } by {
                    if i != idx {
                        assert(before[i].norad_id != before[idx as int].norad_id);
                    }
                }
            }
        }
        true
    }

    /// Indices of the satellites whose name or an alias contains `name`,
    /// ignoring case, in store order.
    pub fn find_satellites_by_name(&self, name: &str) -> (r: Vec<usize>)
        ensures
            forall|k: int| 0 <= k < r@.len() ==> #[trigger] r@[k] < self.satellites@.len() && name_matches(self.satellites@[r@[k] as int], name@),
            forall|i: int| 0 <= i < self.satellites@.len() && name_matches(#[trigger] self.satellites@[i], name@) ==> r@.contains(i as usize),
            forall|a: int, b: int| 0 <= a < b < r@.len() ==> #[trigger] r@[a] < #[trigger] r@[b],
    {
        let needle = lowered(name);
        let mut out: Vec<usize> = Vec::new();
        let mut i: usize = 0;
        while i < self.satellites.len()
            invariant
                i <= self.satellites@.len(),
                needle@ == lower_of(name@),
                forall|k: int| 0 <= k < out@.len() ==> #[trigger] out@[k] < i && name_matches(self.satellites@[out@[k] as int], name@),
                forall|j: int| 0 <= j < i && name_matches(#[trigger] self.satellites@[j], name@) ==> out@.contains(j as usize),
                forall|a: int, b: int| 0 <= a < b < out@.len() ==> #[trigger] out@[a] < #[trigger] out@[b],
            decreases self.satellites.len() - i,
        {
            let s = &self.satellites[i];
            let mut hit = contains_chars(&lowered(s.common_name.as_str()), &needle);
            let mut a: usize = 0;
            while !hit && a < s.aliases.len()
                invariant
                    a <= s.aliases@.len(),
                    needle@ == lower_of(name@),
                    hit ==> name_matches(*s, name@),
                    !hit ==> !has_piece(lower_of(s.common_name@), lower_of(name@)),
                    !hit ==> forall|q: int| 0 <= q < a ==> !has_piece(lower_of(#[trigger] s.aliases@[q]@), lower_of(name@)),
                decreases s.aliases.len() - a,
            {
                if contains_chars(&lowered(s.aliases[a].as_str()), &needle) {
                    hit = true;
                }
                a = a + 1;
            }
            let ghost before = out@;
            if hit {
                out.push(i);
                assert(out@[before.len() as int] == i);
            }
            assert forall|j: int| 0 <= j < i + 1 && name_matches(#[trigger] self.satellites@[j], name@) implies out@.contains(j as usize) by {
                if j < i {
                    let w = choose|w: int| 0 <= w < before.len() && before[w] == j as usize;
                    assert(out@[w] == before[w]);
                } else {
                    assert(out@[out@.len() - 1] == j as usize);
                }
            }
            i = i + 1;
        }
        out
    }

    /// The metadata of the transponder that an entry with this base name and
    /// mode hint refers to: among the satellites whose names contain the base
    /// name, in store order, the first with a transponder that the hint
    /// designates.
    pub fn lookup_metadata(&self, base_name: &str, mode_hint: Option<&str>) -> (r: Option<TransponderMetadata>)
        ensures
            r matches Some(m) ==> exists|i: int|
                0 <= i < self.satellites@.len() && name_matches(#[trigger] self.satellites@[i], base_name@)
                && chosen_metadata(m, self.satellites@[i], match mode_hint {
                    Some(h) => Some(h@),
                    None => None,
                }) && forall|j: int| 0 <= j < i && name_matches(#[trigger] self.satellites@[j], base_name@)
                    ==> transponder_choice(
                    match mode_hint {
                        Some(h) => Some(h@),
                        None => None,
                    },
                    label_pairs(self.satellites@[j]),
                ) is None,
            r is None ==> forall|i: int| 0 <= i < self.satellites@.len() && name_matches(#[trigger] self.satellites@[i], base_name@)
                ==> transponder_choice(
                    match mode_hint {
                        Some(h) => Some(h@),
                        None => None,
                    },
                    label_pairs(self.satellites@[i]),
                ) is None,
    {
        let found = self.find_satellites_by_name(base_name);
        let mut k: usize = 0;
        while k < found.len()
            invariant
                k <= found@.len(),
                forall|q: int| 0 <= q < found@.len() ==> #[trigger] found@[q] < self.satellites@.len() && name_matches(self.satellites@[found@[q] as int], base_name@),
                forall|i: int| 0 <= i < self.satellites@.len() && name_matches(#[trigger] self.satellites@[i], base_name@) ==> found@.contains(i as usize),
                forall|a: int, b: int| 0 <= a < b < found@.len() ==> #[trigger] found@[a] < #[trigger] found@[b],
                forall|q: int| 0 <= q < k ==> transponder_choice(
                    match mode_hint {
                        Some(h) => Some(h@),
                        None => None,
                    },
                    label_pairs(#[trigger] self.satellites@[found@[q] as int]),
                ) is None,
            decreases found.len() - k,
        {
            let s = &self.satellites[found[k]];
            let labels = pairs_of(&s.transponders);
            assert(pair_views(labels@) =~= label_pairs(*s));
            proof {
                crate::amsat_name::lemma_choice_in_range(
                    match mode_hint {
                        Some(h) => Some(h@),
                        None => None,
                    },
                    pair_views(labels@),
                );
            }
            match find_matching_transponder_index(mode_hint, &labels) {
                Some(t) => {
                    let tp = &s.transponders[t];
                    let m = TransponderMetadata {
                        norad_id: s.norad_id,
                        satellite_name: s.common_name.clone(),
                        transponder_label: tp.label.clone(),
                        mode: tp.mode.clone(),
                        uplink: tp.uplink.clone(),
                        downlink: tp.downlink.clone(),
                    };
                    assert(metadata_of(m, *s, t as int));
                    assert(self.satellites@[found@[k as int] as int] == *s);
                    let n = self.satellites.len();
                    proof {
                        let i = found@[k as int] as int;
                        assert forall|j: int| 0 <= j < i && name_matches(#[trigger] self.satellites@[j], base_name@)
                            implies transponder_choice(
                            match mode_hint {
                                Some(h) => Some(h@),
                                None => None,
                            },
                            label_pairs(self.satellites@[j]),
                        ) is None by {
                            assert(j < n);
                            assert(found@.contains(j as usize));
                            let q = choose|q: int| 0 <= q < found@.len() && found@[q] == j as usize;
                            if q >= k {
                                if q > k {
                                    assert(found@[k as int] < found@[q]);
                                }
                            }
                            assert(q < k);
                            assert(self.satellites@[found@[q] as int] == self.satellites@[j]);
                        }
                    }
                    return Some(m);
                },
                None => {},
            }
            k = k + 1;
        }
        let n = self.satellites.len();
        proof {
            assert forall|i: int| 0 <= i < self.satellites@.len() && name_matches(#[trigger] self.satellites@[i], base_name@) implies transponder_choice(
                match mode_hint {
                    Some(h) => Some(h@),
                    None => None,
                },
                label_pairs(self.satellites@[i]),
            ) is None by {
                assert(i < n);
                assert(found@.contains(i as usize));
                let q = choose|q: int| 0 <= q < found@.len() && found@[q] == i as usize;
                assert(found@[q] as int == i);
                assert(self.satellites@[found@[q] as int] == self.satellites@[i]);
            }
        }
        None
    }
}

/// Some satellite has this NORAD id.
pub open spec fn has_id(sats: Seq<SatelliteMeta>, id: u32) -> bool {
    exists|i: int| 0 <= i < sats.len() && #[trigger] sats[i].norad_id == id
}

/// Some transponder of the list has the frequencies and mode of `t`.
pub open spec fn has_same(ts: Seq<TransponderInfo>, t: TransponderInfo) -> bool {
    exists|k: int| 0 <= k < ts.len() && same_transponder(#[trigger] ts[k], t)
}

/// `after` is `before` with one CSV row's name, SatNOGS id and transponder
/// added.
pub open spec fn row_applied(before: SatelliteMeta, after: SatelliteMeta, row: FrequencyCsvRow, t: TransponderInfo) -> bool {
    &&& after.norad_id == before.norad_id
    &&& after.common_name == before.common_name
    &&& views(after.aliases@) == (if row.name@ != before.common_name@ && !views(before.aliases@).contains(row.name@) {
        views(before.aliases@).push(row.name@)
    } else {
        views(before.aliases@)
    })
    &&& after.satnogs_id == (if before.satnogs_id is None {
        t.satnogs_id
    } else {
        before.satnogs_id
    })
    &&& has_same(before.transponders@, t) ==> after.transponders == before.transponders
    &&& !has_same(before.transponders@, t) ==> after.transponders@ == before.transponders@.push(t)
}

/// `s` is the satellite a row with a new NORAD id makes.
pub open spec fn new_satellite(s: SatelliteMeta, id: u32, row: FrequencyCsvRow, t: TransponderInfo) -> bool {
    &&& s.norad_id == id
    &&& s.common_name@ == row.name@
    &&& s.aliases@.len() == 0
    &&& s.satnogs_id == t.satnogs_id
    &&& s.transponders@ == seq![t]
}

/// `m` is the metadata of the transponder of `s` that the hint designates.
pub open spec fn chosen_metadata(m: TransponderMetadata, s: SatelliteMeta, hint: Option<Seq<char>>) -> bool {
    transponder_choice(hint, label_pairs(s)) is Some && metadata_of(m, s, transponder_choice(hint, label_pairs(s))->0)
}

/// `m` is the metadata of transponder `t` of satellite `s`.
pub open spec fn metadata_of(m: TransponderMetadata, s: SatelliteMeta, t: int) -> bool {
    &&& 0 <= t < s.transponders@.len()
    &&& m.norad_id == s.norad_id
    &&& m.satellite_name@ == s.common_name@
    &&& m.transponder_label@ == s.transponders@[t].label@
    &&& m.mode@ == s.transponders@[t].mode@
    &&& m.uplink@ == s.transponders@[t].uplink@
    &&& m.downlink@ == s.transponders@[t].downlink@
}

fn find_same(ts: &Vec<TransponderInfo>, t: &TransponderInfo) -> (r: Option<usize>)
    ensures
        r matches Some(k) ==> k < ts@.len() && same_transponder(ts@[k as int], *t),
        r is None ==> forall|k: int| 0 <= k < ts@.len() ==> !same_transponder(#[trigger] ts@[k], *t),
{
    let mut i: usize = 0;
    while i < ts.len()
        invariant
            i <= ts@.len(),
            forall|k: int| 0 <= k < i ==> !same_transponder(#[trigger] ts@[k], *t),
        decreases ts.len() - i,
    {
        let c = &ts[i];
        if c.uplink == t.uplink && c.downlink == t.downlink && c.mode == t.mode {
            return Some(i);
        }
        i = i + 1;
    }
    None
}

fn pairs_of(ts: &Vec<TransponderInfo>) -> (r: Vec<(String, String)>)
    ensures
        pair_views(r@) == ts@.map_values(|t: TransponderInfo| (t.label@, t.mode@)),
{
    let mut out: Vec<(String, String)> = Vec::new();
    let mut i: usize = 0;
    while i < ts.len()
        invariant
            i <= ts@.len(),
            pair_views(out@) == ts@.subrange(0, i as int).map_values(|t: TransponderInfo| (t.label@, t.mode@)),
        decreases ts.len() - i,
    {
        let p = (ts[i].label.clone(), ts[i].mode.clone());
        let ghost before = out@;
        out.push(p);
        assert(pair_views(out@) =~= pair_views(before).push((ts@[i as int].label@, ts@[i as int].mode@)));
        assert(ts@.subrange(0, i + 1).map_values(|t: TransponderInfo| (t.label@, t.mode@)) =~= ts@.subrange(
            0,
            i as int,
        ).map_values(|t: TransponderInfo| (t.label@, t.mode@)).push((ts@[i as int].label@, ts@[i as int].mode@)));
        i = i + 1;
    }
    assert(ts@.subrange(0, ts@.len() as int) =~= ts@);
    out
}

fn has_string(v: &Vec<String>, s: &String) -> (r: bool)
    ensures
        r == views(v@).contains(s@),
{
    let mut i: usize = 0;
    while i < v.len()
        invariant
            i <= v@.len(),
            forall|k: int| 0 <= k < i ==> views(v@)[k] != s@,
        decreases v.len() - i,
    {
        if v[i] == *s {
            assert(views(v@)[i as int] == s@);
            return true;
        }
        i = i + 1;
    }
    false
}

fn lowered(s: &str) -> (r: Vec<char>)
    ensures
        r@ == lower_of(s@),
{
    let v = chars_of(s);
    lower_text(&v)
}

} // verus!
