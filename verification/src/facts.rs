//! Reconstruction of per-concept fact histories from a filer's disclosure
//! document: period normalization, last-write-wins deduplication by time
//! key, and lexicographic ordering of the resulting points.
use vstd::prelude::*;
use vstd::string::*;
use crate::text::{dec_str, lex_lt, str_lex_lt, u32_to_dec, lemma_lex_lt_irrefl, lemma_lex_lt_total,
    lemma_lex_lt_trans};

verus! {

/// One reported financial data point. The reported value is carried as its
/// raw 64-bit encoding; this module never interprets it numerically.
#[derive(Debug, Clone)]
pub struct Fact {
    pub start: String,
    pub end: String,
    pub val: u64,
    pub accn: String,
    pub fy: u32,
    pub fp: String,
    pub form: String,
    pub filed: String,
}

/// A concept: label, description, and per-unit-of-measure fact lists,
/// keyed by unit name in insertion order.
#[derive(Debug, Clone)]
pub struct FinancialElement {
    pub label: String,
    pub description: String,
    pub units: Vec<(String, Vec<Fact>)>,
}

/// The two concept namespaces of a disclosure document, each a mapping
/// from concept label to element, keyed in insertion order.
#[derive(Debug, Clone)]
pub struct DocumentEntityInformation {
    pub dei: Vec<(String, FinancialElement)>,
    pub gaap: Vec<(String, FinancialElement)>,
}

/// A filing entity with its parsed disclosure document.
#[derive(Debug, Clone)]
#[allow(non_snake_case)]
pub struct Filer {
    pub cik: u64,
    pub entityName: String,
    pub facts: DocumentEntityInformation,
}

/// One point of a fact history: a time label and the raw 64-bit encoding
/// of the reported value.
#[derive(Debug, Clone)]
pub struct FactPoint {
    pub time: String,
    pub value: u64,
}

/// A per-concept time series: concept label, unit of measure, and points
/// ordered lexicographically by time label.
#[derive(Debug, Clone)]
pub struct FactHistory {
    pub label: String,
    pub unit: String,
    pub data: Vec<FactPoint>,
}

/// Failure of a per-concept query.
#[derive(Debug, Clone, Copy, PartialEq, Eq)]
pub enum FactsError {
    /// The concept has more than one unit-of-measure bucket.
    UnsupportedData,
}

/// Period normalization: a full-year period counts as the fourth quarter;
/// every other period passes through unchanged.
pub open spec fn norm_period(p: Seq<char>) -> Seq<char> {
    if p == seq!['F', 'Y'] {
        seq!['Q', '4']
    } else {
        p
    }
}

/// The time key of a fact: the fiscal year in decimal, a space, and the
/// normalized fiscal period.
pub open spec fn spec_time_key(fy: u32, fp: Seq<char>) -> Seq<char> {
    dec_str(fy as nat) + seq![' '] + norm_period(fp)
}

/// The key-to-value mapping that processing a fact list front to back
/// produces: a later fact with the same time key overwrites an earlier one.
pub open spec fn lww_map(facts: Seq<Fact>) -> Map<Seq<char>, u64>
    decreases facts.len(),
{
    if facts.len() == 0 {
        Map::empty()
    } else {
        lww_map(facts.drop_last()).insert(
            spec_time_key(facts.last().fy, facts.last().fp@),
            facts.last().val,
        )
    }
}

/// The first element whose key equals `k`, if any.
pub open spec fn lookup_elem(s: Seq<(String, FinancialElement)>, k: Seq<char>) -> Option<
    FinancialElement,
>
    decreases s.len(),
{
    if s.len() == 0 {
        None
    } else if s[0].0@ == k {
        Some(s[0].1)
    } else {
        lookup_elem(s.skip(1), k)
    }
}

/// The points' time labels are strictly increasing in the lexicographic
/// order.
pub open spec fn strictly_sorted(data: Seq<FactPoint>) -> bool {
    forall|i: int, j: int| 0 <= i < j < data.len() ==> lex_lt(data[i].time@, data[j].time@)
}

/// The points carry exactly the keys of `m`, each with its value in `m`.
pub open spec fn data_matches_map(data: Seq<FactPoint>, m: Map<Seq<char>, u64>) -> bool {
    &&& forall|i: int|
        0 <= i < data.len() ==> m.dom().contains((#[trigger] data[i]).time@) && data[i].value
            == m[data[i].time@]
    &&& forall|k: Seq<char>|
        #[trigger] m.dom().contains(k) ==> exists|i: int|
            0 <= i < data.len() && (#[trigger] data[i]).time@ == k
}

/// Concept labels are unique within a namespace.
pub open spec fn keys_unique(s: Seq<(String, FinancialElement)>) -> bool {
    forall|i: int, j: int|
        0 <= i < j < s.len() ==> (#[trigger] s[i]).0@ != (#[trigger] s[j]).0@
}

/// A filer's document keeps one entry per concept label in each
/// namespace, as the raw document's maps have it.
pub open spec fn filer_wf(f: Filer) -> bool {
    keys_unique(f.facts.dei@) && keys_unique(f.facts.gaap@)
}

/// Decides whether a period string is the full-year marker.
fn is_fy(p: &str) -> (r: bool)
    ensures
        r == (p@ == seq!['F', 'Y']),
{
    proof {
        assert(seq!['F', 'Y'].len() == 2);
    }
    if p.unicode_len() != 2 {
        proof {
            assert(p@ != seq!['F', 'Y']);
        }
        false
    } else {
        let c0 = p.get_char(0);
        let c1 = p.get_char(1);
        let r = c0 == 'F' && c1 == 'Y';
        proof {
            if c0 == 'F' && c1 == 'Y' {
                assert(p@ =~= seq!['F', 'Y']);
            } else {
                assert(p@ != seq!['F', 'Y']);
            }
        }
        r
    }
}

/// Renders the time key of one fact.
pub fn time_key(fy: u32, fp: &str) -> (r: String)
    ensures
        r@ == spec_time_key(fy, fp@),
{
    let mut s = u32_to_dec(fy);
    proof {
        reveal_strlit(" ");
        reveal_strlit("Q4");
        assert(" "@ =~= seq![' ']);
        assert("Q4"@ =~= seq!['Q', '4']);
    }
    s.append(" ");
    if is_fy(fp) {
        s.append("Q4");
    } else {
        s.append(fp);
    }
    proof {
        assert(s@ =~= spec_time_key(fy, fp@));
    }
    s
}

/// Processing one more fact updates the accumulated mapping at that
/// fact's time key.
proof fn lemma_lww_step(facts: Seq<Fact>, j: int)
    requires
        0 <= j < facts.len(),
    ensures
        lww_map(facts.take(j + 1)) == lww_map(facts.take(j)).insert(
            spec_time_key(facts[j].fy, facts[j].fp@),
            facts[j].val,
        ),
{
    assert(facts.take(j + 1).drop_last() =~= facts.take(j));
    assert(facts.take(j + 1).last() == facts[j]);
}

/// Strictly sorted time labels are pairwise distinct.
proof fn lemma_sorted_distinct(data: Seq<FactPoint>, i: int, j: int)
    requires
        strictly_sorted(data),
        0 <= i < data.len(),
        0 <= j < data.len(),
        i != j,
    ensures
        data[i].time@ != data[j].time@,
{
    if i < j {
        lemma_lex_lt_irrefl(data[i].time@);
    } else {
        lemma_lex_lt_irrefl(data[j].time@);
    }
}

/// A concept that the lookup misses is exactly one that stands under no
/// key of the namespace, so a label absent from `labels` has no history.
pub proof fn lemma_lookup_none_iff_absent(s: Seq<(String, FinancialElement)>, k: Seq<char>)
    ensures
        (lookup_elem(s, k) is None) <==> (forall|i: int|
            0 <= i < s.len() ==> (#[trigger] s[i]).0@ != k),
    decreases s.len(),
{
    if s.len() > 0 {
        lemma_lookup_none_iff_absent(s.skip(1), k);
        assert forall|i: int| 1 <= i < s.len() implies s.skip(1)[i - 1] == s[i] by {}
        if lookup_elem(s, k) is None {
            assert forall|i: int| 0 <= i < s.len() implies (#[trigger] s[i]).0@ != k by {
                if i > 0 {
                    assert(s.skip(1)[i - 1] == s[i]);
                }
            }
        } else {
            if s[0].0@ != k {
                let i = choose|i: int| 0 <= i < s.skip(1).len() && (#[trigger] s.skip(1)[i]).0@
                    == k;
                assert(s[i + 1].0@ == k);
            }
        }
    }
}

/// The contract of a fact history pins its data down: two point lists
/// that are both strictly sorted by time label and both carry exactly
/// the keys of `m` with its values are the same list, point for point.
pub proof fn lemma_history_data_unique(
    d1: Seq<FactPoint>,
    d2: Seq<FactPoint>,
    m: Map<Seq<char>, u64>,
)
    requires
        strictly_sorted(d1),
        strictly_sorted(d2),
        data_matches_map(d1, m),
        data_matches_map(d2, m),
    ensures
        d1.len() == d2.len(),
        forall|i: int|
            0 <= i < d1.len() ==> (#[trigger] d1[i]).time@ == d2[i].time@ && d1[i].value
                == d2[i].value,
    decreases d1.len(),
{
    if d1.len() == 0 {
        if d2.len() > 0 {
            assert(m.dom().contains(d2[0].time@));
            assert(false);
        }
    } else if d2.len() == 0 {
        assert(m.dom().contains(d1[0].time@));
        assert(false);
    } else {
        // the least key stands first in both lists
        assert(m.dom().contains(d1[0].time@));
        let j = choose|j: int| 0 <= j < d2.len() && (#[trigger] d2[j]).time@ == d1[0].time@;
        if j > 0 {
            assert(lex_lt(d2[0].time@, d1[0].time@));
            assert(m.dom().contains(d2[0].time@));
            let i = choose|i: int| 0 <= i < d1.len() && (#[trigger] d1[i]).time@ == d2[0].time@;
            if i > 0 {
                assert(lex_lt(d1[0].time@, d1[i].time@));
                lemma_lex_lt_trans(d1[0].time@, d1[i].time@, d1[0].time@);
            }
            lemma_lex_lt_irrefl(d1[0].time@);
        }
        assert(d1[0].time@ == d2[0].time@);
        assert(d1[0].value == m[d1[0].time@] && d2[0].value == m[d2[0].time@]);
        // the tails match the map without the first key
        let m2 = m.remove(d1[0].time@);
        let t1 = d1.skip(1);
        let t2 = d2.skip(1);
        assert forall|i: int| 0 <= i < t1.len() implies m2.dom().contains(
            (#[trigger] t1[i]).time@,
        ) && t1[i].value == m2[t1[i].time@] by {
            assert(t1[i] == d1[i + 1]);
            lemma_sorted_distinct(d1, 0, i + 1);
        }
        assert forall|i: int| 0 <= i < t2.len() implies m2.dom().contains(
            (#[trigger] t2[i]).time@,
        ) && t2[i].value == m2[t2[i].time@] by {
            assert(t2[i] == d2[i + 1]);
            lemma_sorted_distinct(d2, 0, i + 1);
        }
        assert forall|k: Seq<char>| #[trigger] m2.dom().contains(k) implies exists|i: int|
            0 <= i < t1.len() && (#[trigger] t1[i]).time@ == k by {
            assert(m.dom().contains(k));
            let i = choose|i: int| 0 <= i < d1.len() && (#[trigger] d1[i]).time@ == k;
            assert(i != 0);
            assert(t1[i - 1] == d1[i]);
        }
        assert forall|k: Seq<char>| #[trigger] m2.dom().contains(k) implies exists|i: int|
            0 <= i < t2.len() && (#[trigger] t2[i]).time@ == k by {
            assert(m.dom().contains(k));
            let i = choose|i: int| 0 <= i < d2.len() && (#[trigger] d2[i]).time@ == k;
            assert(i != 0);
            assert(t2[i - 1] == d2[i]);
        }
        assert(strictly_sorted(t1)) by {
            assert forall|i: int, j: int| 0 <= i < j < t1.len() implies lex_lt(
                t1[i].time@,
                t1[j].time@,
            ) by {
                assert(t1[i] == d1[i + 1] && t1[j] == d1[j + 1]);
            }
        }
        assert(strictly_sorted(t2)) by {
            assert forall|i: int, j: int| 0 <= i < j < t2.len() implies lex_lt(
                t2[i].time@,
                t2[j].time@,
            ) by {
                assert(t2[i] == d2[i + 1] && t2[j] == d2[j + 1]);
            }
        }
        lemma_history_data_unique(t1, t2, m2);
        assert forall|i: int| 0 <= i < d1.len() implies (#[trigger] d1[i]).time@ == d2[i].time@
            && d1[i].value == d2[i].value by {
            if i > 0 {
                assert(t1[i - 1] == d1[i] && t2[i - 1] == d2[i]);
            }
        }
    }
}

/// Records one (time key, value) pair in a point list kept strictly sorted
/// by time label: the point carrying the same label is overwritten if one
/// exists, otherwise a new point enters at its ordered position.
fn upsert_point(data: &mut Vec<FactPoint>, key: String, val: u64)
    requires
        strictly_sorted(old(data)@),
    ensures
        strictly_sorted(final(data)@),
        forall|m: Map<Seq<char>, u64>| #[trigger]
            data_matches_map(old(data)@, m) ==> data_matches_map(
                final(data)@,
                m.insert(key@, val),
            ),
{
    let ghost s = data@;
    let mut pos: usize = 0;
    loop
        invariant_except_break
            pos <= data@.len(),
            data@ == s,
            strictly_sorted(s),
            forall|q: int| 0 <= q < pos ==> lex_lt((#[trigger] s[q]).time@, key@),
        ensures
            pos <= s.len(),
            data@ == s,
            forall|q: int| 0 <= q < pos ==> lex_lt((#[trigger] s[q]).time@, key@),
            pos == s.len() || !lex_lt(s[pos as int].time@, key@),
        decreases data@.len() - pos,
    {
        if pos == data.len() {
            break ;
        }
        if !str_lex_lt(data[pos].time.as_str(), key.as_str()) {
            break ;
        }
        pos = pos + 1;
    }
    if pos < data.len() && data[pos].time == key {
        let oldp = data.remove(pos);
        data.insert(pos, FactPoint { time: oldp.time, value: val });
        proof {
            let t = data@;
            assert(t =~= s.update(pos as int, FactPoint { time: oldp.time, value: val }));
            assert(forall|i: int| 0 <= i < t.len() ==> (#[trigger] t[i]).time@ == s[i].time@);
            assert(strictly_sorted(t));
            assert forall|m: Map<Seq<char>, u64>| #[trigger]
                data_matches_map(s, m) implies data_matches_map(t, m.insert(key@, val)) by {
                let m2 = m.insert(key@, val);
                assert forall|i: int| 0 <= i < t.len() implies m2.dom().contains(
                    (#[trigger] t[i]).time@,
                ) && t[i].value == m2[t[i].time@] by {
                    if i == pos {
                        assert(t[i].time@ == key@);
                    } else {
                        assert(m.dom().contains((s[i]).time@) && s[i].value == m[s[i].time@]);
                        lemma_sorted_distinct(s, i, pos as int);
                    }
                }
                assert forall|k: Seq<char>| #[trigger] m2.dom().contains(k) implies exists|i: int|
                    0 <= i < t.len() && (#[trigger] t[i]).time@ == k by {
                    if k == key@ {
                        assert(t[pos as int].time@ == k);
                    } else {
                        assert(m.dom().contains(k));
                        let i = choose|i: int| 0 <= i < s.len() && (#[trigger] s[i]).time@ == k;
                        assert(t[i].time@ == k);
                    }
                }
            }
        }
    } else {
        proof {
            if pos < s.len() {
                lemma_lex_lt_total(key@, s[pos as int].time@);
                assert(lex_lt(key@, s[pos as int].time@));
            }
        }
        let p = FactPoint { time: key, value: val };
        data.insert(pos, p);
        proof {
            let t = data@;
            assert(t.len() == s.len() + 1);
            assert(forall|i: int| 0 <= i < pos ==> #[trigger] t[i] == s[i]);
            assert(forall|i: int| pos < i < t.len() ==> #[trigger] t[i] == s[i - 1]);
            assert(t[pos as int].time@ == key@);
            // the new label differs from every label already present
            assert forall|q: int| 0 <= q < s.len() implies (#[trigger] s[q]).time@ != key@ by {
                if q < pos {
                    lemma_lex_lt_irrefl(key@);
                } else {
                    assert(lex_lt(key@, s[pos as int].time@));
                    if q > pos {
                        assert(lex_lt(s[pos as int].time@, s[q].time@));
                        lemma_lex_lt_trans(key@, s[pos as int].time@, s[q].time@);
                    }
                    lemma_lex_lt_irrefl(key@);
                }
            }
            assert forall|i: int, j: int| 0 <= i < j < t.len() implies lex_lt(
                t[i].time@,
                t[j].time@,
            ) by {
                if j == pos {
                    assert(lex_lt(s[i].time@, key@));
                } else if i == pos {
                    assert(pos < s.len() || j < t.len() - 1 == s.len());
                    assert(lex_lt(key@, s[pos as int].time@));
                    if j - 1 > pos {
                        assert(lex_lt(s[pos as int].time@, s[j - 1].time@));
                        lemma_lex_lt_trans(key@, s[pos as int].time@, s[j - 1].time@);
                    }
                } else if i < pos && j > pos {
                    if j - 1 == i {
                    } else {
                        assert(lex_lt(s[i].time@, s[j - 1].time@));
                    }
                }
            }
            assert(strictly_sorted(t));
            assert forall|m: Map<Seq<char>, u64>| #[trigger]
                data_matches_map(s, m) implies data_matches_map(t, m.insert(key@, val)) by {
                let m2 = m.insert(key@, val);
                assert forall|i: int| 0 <= i < t.len() implies m2.dom().contains(
                    (#[trigger] t[i]).time@,
                ) && t[i].value == m2[t[i].time@] by {
                    if i == pos {
                    } else if i < pos {
                        assert(m.dom().contains((s[i]).time@) && s[i].value == m[s[i].time@]);
                        assert(s[i].time@ != key@);
                    } else {
                        assert(m.dom().contains((s[i - 1]).time@) && s[i - 1].value == m[s[i
                            - 1].time@]);
                        assert(s[i - 1].time@ != key@);
                    }
                }
                assert forall|k: Seq<char>| #[trigger] m2.dom().contains(k) implies exists|i: int|
                    0 <= i < t.len() && (#[trigger] t[i]).time@ == k by {
                    if k == key@ {
                        assert(t[pos as int].time@ == k);
                    } else {
                        assert(m.dom().contains(k));
                        let i = choose|i: int| 0 <= i < s.len() && (#[trigger] s[i]).time@ == k;
                        if i < pos {
                            assert(t[i].time@ == k);
                        } else {
                            assert(t[i + 1].time@ == k);
                        }
                    }
                }
            }
        }
    }
}

impl Filer {
    /// Every concept label of the gaap namespace, in the namespace's own
    /// order; the dei namespace is not exposed here.
    pub fn labels(&self) -> (r: Vec<String>)
        ensures
            r@.len() == self.facts.gaap@.len(),
            forall|i: int| 0 <= i < r@.len() ==> (#[trigger] r@[i])@ == self.facts.gaap@[i].0@,
            filer_wf(*self) ==> forall|i: int, j: int|
                0 <= i < j < r@.len() ==> (#[trigger] r@[i])@ != (#[trigger] r@[j])@,
    {
        let mut out: Vec<String> = Vec::new();
        let n = self.facts.gaap.len();
        let mut i: usize = 0;
        while i < n
            invariant
                i <= n,
                n == self.facts.gaap@.len(),
                out@.len() == i,
                forall|j: int| 0 <= j < i ==> (#[trigger] out@[j])@ == self.facts.gaap@[j].0@,
            decreases n - i,
        {
            out.push(self.facts.gaap[i].0.clone());
            i = i + 1;
        }
        out
    }

    /// The per-concept time series for `label`, rebuilt from the gaap
    /// namespace: an absent label yields no history, a concept with more
    /// than one unit-of-measure bucket is unsupported data, and otherwise
    /// the single bucket's facts are deduplicated by time key
    /// (last-processed fact wins) and ordered lexicographically by time
    /// label.
    pub fn get_fact_history(&self, label: String) -> (r: Result<Option<FactHistory>, FactsError>)
        ensures
            ({
                let found = lookup_elem(self.facts.gaap@, label@);
                match r {
                    Ok(None) => found is None,
                    Ok(Some(h)) => {
                        &&& found matches Some(e)
                        &&& found->Some_0.units@.len() <= 1
                        &&& h.label@ == label@
                        &&& (found->Some_0.units@.len() == 0 ==> h.unit@ == Seq::<char>::empty()
                            && h.data@.len() == 0)
                        &&& (found->Some_0.units@.len() == 1 ==> {
                            &&& h.unit@ == found->Some_0.units@[0].0@
                            &&& strictly_sorted(h.data@)
                            &&& data_matches_map(h.data@, lww_map(found->Some_0.units@[0].1@))
                        })
                    },
                    Err(e) => e == FactsError::UnsupportedData && (found matches Some(el)
                        && el.units@.len() > 1),
                }
            }),
    {
        let g = &self.facts.gaap;
        let n = g.len();
        let mut i: usize = 0;
        proof {
            assert(g@.skip(0) =~= g@);
        }
        loop
            invariant_except_break
                i <= n,
                n == g@.len(),
                g == &self.facts.gaap,
                lookup_elem(g@.skip(i as int), label@) == lookup_elem(g@, label@),
                forall|q: int| 0 <= q < i ==> (#[trigger] g@[q]).0@ != label@,
            ensures
                g == &self.facts.gaap,
                i <= g@.len(),
                i < g@.len() ==> g@[i as int].0@ == label@ && lookup_elem(g@, label@) == Some(
                    g@[i as int].1,
                ),
                i == g@.len() ==> lookup_elem(g@, label@) is None,
            decreases n - i,
        {
            if i == n {
                proof {
                    assert(g@.skip(i as int) =~= Seq::<(String, FinancialElement)>::empty());
                }
                break ;
            }
            proof {
                assert(g@.skip(i as int)[0] == g@[i as int]);
            }
            if g[i].0 == label {
                break ;
            }
            proof {
                assert(g@.skip(i as int).skip(1) =~= g@.skip(i as int + 1));
            }
            i = i + 1;
        }
        if i == g.len() {
            return Ok(None);
        }
        let e = &g[i].1;
        if e.units.len() > 1 {
            return Err(FactsError::UnsupportedData);
        }
        let mut data: Vec<FactPoint> = Vec::new();
        let mut unit_label: String = String::new();
        if e.units.len() == 1 {
            unit_label = e.units[0].0.clone();
            let facts = &e.units[0].1;
            let m = facts.len();
            let mut j: usize = 0;
            proof {
                assert(facts@.take(0) =~= Seq::<Fact>::empty());
            }
            while j < m
                invariant
                    j <= m,
                    m == facts@.len(),
                    *facts == e.units@[0].1,
                    e.units@.len() == 1,
                    *e == self.facts.gaap@[i as int].1,
                    i < self.facts.gaap@.len(),
                    strictly_sorted(data@),
                    data_matches_map(data@, lww_map(facts@.take(j as int))),
                decreases m - j,
            {
                let f = &facts[j];
                let key = time_key(f.fy, f.fp.as_str());
                upsert_point(&mut data, key, f.val);
                proof {
                    lemma_lww_step(facts@, j as int);
                }
                j = j + 1;
            }
            proof {
                assert(facts@.take(m as int) =~= facts@);
            }
        }
        Ok(
            Some(
                FactHistory {
                    label,
                    unit: unit_label,
                    data,
                },
            ),
        )
    }
}

} // verus!
