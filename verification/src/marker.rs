//! The task-result marker store: a content-addressed cache of step
//! outcomes, keyed by (step identity, canonical input signature).
//!
//! A marker asserts "given exactly these inputs, this step already
//! completed with this outcome". The canonicalisation policy is name-only:
//! the input signature is the deduplicated, lexicographically ordered
//! sequence of static dependency names, stored in full so that the
//! freshness comparison can be recomputed without re-reading the
//! dependency graph. A change in a dependency's own contents without a
//! membership change is deliberately not detected here; the timestamp
//! comparison of the up-to-date oracle covers it.
//!
//! The store itself is an in-memory map; durably persisting it (atomically,
//! write-temporary-then-rename) is the caller's concern at the process
//! boundary.

use vstd::prelude::*;

verus! {

/// A marker key: the step it identifies and the canonical input signature
/// the step ran against.
#[derive(Debug, Clone)]
pub struct TaskResultMarker {
    pub step_identity: String,
    pub input_sig: Vec<String>,
}

/// Derives a marker from a step-specific identity and the canonicalized
/// input name set.
pub fn compute_marker(step_identity: String, canonical_inputs: Vec<String>) -> (m: TaskResultMarker)
    ensures
        m.step_identity == step_identity,
        m.input_sig == canonical_inputs,
{
    TaskResultMarker { step_identity, input_sig: canonical_inputs }
}

/// One persisted record: the outcome of the last attempt of a step,
/// together with the input signature that produced it.
#[derive(Debug, Clone)]
pub struct MarkerRecord {
    pub step_identity: String,
    pub input_sig: Vec<String>,
    pub success: bool,
}

/// The marker store, viewed as a map from step identity to the recorded
/// (input signature, outcome) pair.
pub struct MarkerStore {
    records: Vec<MarkerRecord>,
}

/// Map built from the records, later entries winning.
pub closed spec fn records_map(s: Seq<MarkerRecord>) -> Map<Seq<char>, (Seq<Seq<char>>, bool)>
    decreases s.len(),
{
    if s.len() == 0 {
        Map::empty()
    } else {
        records_map(s.drop_last()).insert(
            s.last().step_identity@,
            (s.last().input_sig.deep_view(), s.last().success),
        )
    }
}

impl View for MarkerStore {
    type V = Map<Seq<char>, (Seq<Seq<char>>, bool)>;

    closed spec fn view(&self) -> Map<Seq<char>, (Seq<Seq<char>>, bool)> {
        records_map(self.records@)
    }
}

/// Step identities are unique, so a record's position never matters.
pub closed spec fn unique_ids(s: Seq<MarkerRecord>) -> bool {
    forall|i: int, j: int|
        0 <= i < j < s.len() ==> s[i].step_identity@ != s[j].step_identity@
}

proof fn lemma_records_map_skip_last(s: Seq<MarkerRecord>, id: Seq<char>)
    requires
        s.len() > 0,
        s.last().step_identity@ != id,
    ensures
        records_map(s).contains_key(id) == records_map(s.drop_last()).contains_key(id),
        records_map(s).contains_key(id) ==> records_map(s)[id] == records_map(s.drop_last())[id],
{
}

/// With unique identities, the map holds exactly each record.
proof fn lemma_records_map_index(s: Seq<MarkerRecord>, i: int)
    requires
        unique_ids(s),
        0 <= i < s.len(),
    ensures
        records_map(s).contains_key(s[i].step_identity@),
        records_map(s)[s[i].step_identity@] == (s[i].input_sig.deep_view(), s[i].success),
    decreases s.len(),
{
    if i == s.len() - 1 {
    } else {
        assert(unique_ids(s.drop_last())) by {
            assert(forall|a: int, b: int|
                0 <= a < b < s.drop_last().len() ==> s.drop_last()[a] == s[a] && s.drop_last()[b]
                    == s[b]);
        }
        lemma_records_map_index(s.drop_last(), i);
        assert(s.drop_last()[i] == s[i]);
        lemma_records_map_skip_last(s, s[i].step_identity@);
    }
}

/// Every key of the map is some record's identity.
proof fn lemma_records_map_dom(s: Seq<MarkerRecord>, id: Seq<char>)
    requires
        records_map(s).contains_key(id),
    ensures
        exists|i: int| 0 <= i < s.len() && s[i].step_identity@ == id,
    decreases s.len(),
{
    if s.len() > 0 {
        if s.last().step_identity@ == id {
            assert(s[s.len() - 1].step_identity@ == id);
        } else {
            lemma_records_map_skip_last(s, id);
            lemma_records_map_dom(s.drop_last(), id);
            let i = choose|i: int|
                0 <= i < s.drop_last().len() && s.drop_last()[i].step_identity@ == id;
            assert(s[i].step_identity@ == id);
        }
    }
}

impl MarkerStore {
    /// The store's internal invariant.
    pub closed spec fn inv(&self) -> bool {
        unique_ids(self.records@)
    }

    /// An empty store: no step has ever recorded an outcome.
    pub fn new() -> (s: MarkerStore)
        ensures
            s.inv(),
            s@ == Map::<Seq<char>, (Seq<Seq<char>>, bool)>::empty(),
    {
        MarkerStore { records: Vec::new() }
    }

    /// Position of the record for `id`, if any.
    fn find(&self, id: &String) -> (r: Option<usize>)
        requires
            self.inv(),
        ensures
            match r {
                Some(i) => {
                    &&& i < self.records@.len()
                    &&& self.records@[i as int].step_identity@ == id@
                    &&& self@.contains_key(id@)
                    &&& self@[id@] == (
                        self.records@[i as int].input_sig.deep_view(),
                        self.records@[i as int].success,
                    )
                },
                None => !self@.contains_key(id@),
            },
    {
        let mut i: usize = 0;
        while i < self.records.len()
            invariant
                self.inv(),
                i <= self.records@.len(),
                forall|k: int| 0 <= k < i ==> self.records@[k].step_identity@ != id@,
            decreases self.records@.len() - i,
        {
            if self.records[i].step_identity == *id {
                proof {
                    lemma_records_map_index(self.records@, i as int);
                }
                return Some(i);
            }
            i = i + 1;
        }
        proof {
            if self@.contains_key(id@) {
                lemma_records_map_dom(self.records@, id@);
            }
        }
        None
    }

    /// True iff a record exists for exactly this step identity, its input
    /// signature matches the marker's, and its recorded outcome was
    /// success. Any input change, identity mismatch, or absence of a
    /// record reads as stale.
    pub fn is_up_to_date(&self, m: &TaskResultMarker) -> (r: bool)
        requires
            self.inv(),
        ensures
            r == (self@.contains_key(m.step_identity@) && self@[m.step_identity@] == (
                m.input_sig.deep_view(),
                true,
            )),
    {
        match self.find(&m.step_identity) {
            None => false,
            Some(i) => {
                let rec = &self.records[i];
                if !rec.success {
                    return false;
                }
                if rec.input_sig.len() != m.input_sig.len() {
                    proof {
                        assert(self@[m.step_identity@].0 == rec.input_sig.deep_view());
                        assert(rec.input_sig.deep_view().len() != m.input_sig.deep_view().len());
                        assert(self@[m.step_identity@] != (m.input_sig.deep_view(), true));
                    }
                    return false;
                }
                let mut k: usize = 0;
                #[verifier::loop_isolation(false)]
                while k < rec.input_sig.len()
                    invariant
                        k <= rec.input_sig@.len(),
                        rec.input_sig@.len() == m.input_sig@.len(),
                        forall|j: int|
                            0 <= j < k ==> rec.input_sig.deep_view()[j]
                                == m.input_sig.deep_view()[j],
                    decreases rec.input_sig@.len() - k,
                {
                    if rec.input_sig[k] != m.input_sig[k] {
                        proof {
                            assert(rec.input_sig.deep_view()[k as int]
                                != m.input_sig.deep_view()[k as int]);
                        }
                        return false;
                    }
                    k = k + 1;
                }
                proof {
                    assert(rec.input_sig.deep_view() =~= m.input_sig.deep_view());
                }
                true
            },
        }
    }

    /// Records the outcome of an attempted step, atomically replacing any
    /// prior record for the same step identity.
    pub fn record(&mut self, m: &TaskResultMarker, success: bool)
        requires
            old(self).inv(),
        ensures
            final(self).inv(),
            final(self)@ == old(self)@.insert(
                m.step_identity@,
                (m.input_sig.deep_view(), success),
            ),
    {
        let rec = MarkerRecord {
            step_identity: m.step_identity.clone(),
            input_sig: m.input_sig.clone(),
            success,
        };
        match self.find(&m.step_identity) {
            Some(i) => {
                let ghost s0 = self.records@;
                self.records[i] = rec;
                proof {
                    let s1 = self.records@;
                    assert(unique_ids(s1)) by {
                        assert(forall|a: int|
                            0 <= a < s1.len() ==> s1[a].step_identity@ == s0[a].step_identity@);
                    }
                    lemma_map_of_update(s0, s1, i as int, m.step_identity@, m.input_sig.deep_view(), success);
                }
            },
            None => {
                let ghost s0 = self.records@;
                self.records.push(rec);
                proof {
                    let s1 = self.records@;
                    assert(s1.drop_last() =~= s0);
                    assert(unique_ids(s1)) by {
                        assert(forall|a: int| 0 <= a < s0.len() ==> s1[a] == s0[a]);
                        if exists|a: int|
                            0 <= a < s0.len() && s0[a].step_identity@ == m.step_identity@ {
                            let a = choose|a: int|
                                0 <= a < s0.len() && s0[a].step_identity@ == m.step_identity@;
                            lemma_records_map_index(s0, a);
                        }
                    }
                }
            },
        }
    }

    /// Records the outcome of an attempted step, then hands the outcome
    /// back unchanged so callers can propagate it.
    pub fn result<E>(&mut self, m: &TaskResultMarker, outcome: Result<(), E>) -> (r: Result<(), E>)
        requires
            old(self).inv(),
        ensures
            final(self).inv(),
            final(self)@ == old(self)@.insert(
                m.step_identity@,
                (m.input_sig.deep_view(), outcome is Ok),
            ),
            r == outcome,
    {
        self.record(m, outcome.is_ok());
        outcome
    }
}

/// Replacing the record at `i` updates exactly that key of the map.
proof fn lemma_map_of_update(
    s0: Seq<MarkerRecord>,
    s1: Seq<MarkerRecord>,
    i: int,
    id: Seq<char>,
    sig: Seq<Seq<char>>,
    success: bool,
)
    requires
        unique_ids(s0),
        unique_ids(s1),
        0 <= i < s0.len(),
        s1.len() == s0.len(),
        forall|a: int| 0 <= a < s0.len() && a != i ==> s1[a] == s0[a],
        s0[i].step_identity@ == id,
        s1[i].step_identity@ == id,
        s1[i].input_sig.deep_view() == sig,
        s1[i].success == success,
    ensures
        records_map(s1) == records_map(s0).insert(id, (sig, success)),
{
    let m1 = records_map(s1);
    let m0i = records_map(s0).insert(id, (sig, success));
    lemma_records_map_index(s1, i);
    assert forall|k: Seq<char>| m1.contains_key(k) implies m0i.contains_key(k) by {
        if k != id {
            lemma_records_map_dom(s1, k);
            let a = choose|a: int| 0 <= a < s1.len() && s1[a].step_identity@ == k;
            lemma_records_map_index(s0, a);
        }
    }
    assert forall|k: Seq<char>| m0i.contains_key(k) implies m1.contains_key(k) by {
        if k != id {
            lemma_records_map_dom(s0, k);
            let a = choose|a: int| 0 <= a < s0.len() && s0[a].step_identity@ == k;
            lemma_records_map_index(s1, a);
        }
    }
    assert forall|k: Seq<char>| m1.contains_key(k) && m0i.contains_key(k) implies m1[k] == m0i[k] by {
        if k != id {
            lemma_records_map_dom(s1, k);
            let a = choose|a: int| 0 <= a < s1.len() && s1[a].step_identity@ == k;
            lemma_records_map_index(s1, a);
            lemma_records_map_index(s0, a);
        }
    }
    assert(m1 =~= m0i);
}

} // verus!
