//! The model manager: the cached catalog of models known on disk, its
//! reconciliation with what a directory scan found, case-insensitive
//! search, and aggregate statistics over catalog and instance table.

use crate::engine::contains_id;
use crate::engine::InferenceEngine;
use vstd::prelude::*;
use vstd::string::StrSliceExecFns;
use vstd::string::StringExecFns;

verus! {

/// The declared family of a model's weights.
#[derive(Clone, Copy, Debug, PartialEq, Eq, Structural)]
pub enum ModelFamily {
    Llama,
    Mistral,
    Gemma,
    Phi,
    Unknown,
}

/// Catalog entry for a model known to the system. Owned by the registry
/// store; the manager caches and reads it.
pub struct ModelRecord {
    pub identifier: String,
    pub name: String,
    pub family: ModelFamily,
    pub weight_path: String,
    pub tokenizer_path: String,
    pub size_bytes: u64,
    pub created_at_unix: u64,
}

impl ModelRecord {
    /// A field-for-field copy.
    pub fn duplicate(&self) -> (r: Self)
        ensures
            r == *self,
    {
        ModelRecord {
            identifier: self.identifier.clone(),
            name: self.name.clone(),
            family: self.family,
            weight_path: self.weight_path.clone(),
            tokenizer_path: self.tokenizer_path.clone(),
            size_bytes: self.size_bytes,
            created_at_unix: self.created_at_unix,
        }
    }
}

/// Aggregates over the catalog and the instance table, derived on demand.
#[derive(Clone, Copy, Debug, PartialEq, Eq, Structural)]
pub struct ModelStats {
    pub total_models: usize,
    pub running_models: usize,
    pub total_size_bytes: u64,
}

/// The identifiers of the records, in catalog order.
pub open spec fn record_ids(cat: Seq<ModelRecord>) -> Seq<Seq<char>> {
    Seq::new(cat.len(), |i: int| cat[i].identifier@)
}

/// The character with an upper-case ASCII letter folded to lower case.
pub open spec fn lower_char(c: char) -> char {
    if 65 <= c as u32 <= 90 {
        ((c as u32) + 32) as char
    } else {
        c
    }
}

/// The text with ASCII letters folded to lower case.
pub open spec fn lower(s: Seq<char>) -> Seq<char> {
    Seq::new(s.len(), |i: int| lower_char(s[i]))
}

/// Whether `needle` occurs in `hay`, compared after ASCII case folding.
pub open spec fn contains_ci(hay: Seq<char>, needle: Seq<char>) -> bool {
    exists|i: int|
        0 <= i <= hay.len() - needle.len() && #[trigger] lower(hay).subrange(
            i,
            i + needle.len() as int,
        ) == lower(needle)
}

/// The records whose display name contains the query, in catalog order; an
/// empty query keeps every record.
pub open spec fn matching_records(cat: Seq<ModelRecord>, query: Seq<char>) -> Seq<ModelRecord>
    decreases cat.len(),
{
    if cat.len() == 0 {
        Seq::empty()
    } else {
        let rest = matching_records(cat.drop_first(), query);
        if contains_ci(cat[0].name@, query) {
            seq![cat[0]] + rest
        } else {
            rest
        }
    }
}

/// The sum of the records' sizes, as a mathematical integer.
pub open spec fn sum_sizes(cat: Seq<ModelRecord>) -> int
    decreases cat.len(),
{
    if cat.len() == 0 {
        0
    } else {
        cat[0].size_bytes + sum_sizes(cat.drop_first())
    }
}

/// The catalog after reconciliation: each discovered record whose
/// identifier is not yet present (in the catalog nor among those already
/// taken) is appended, in discovery order; nothing is loaded.
pub open spec fn reconciled(cat: Seq<ModelRecord>, found: Seq<ModelRecord>) -> Seq<ModelRecord>
    decreases found.len(),
{
    if found.len() == 0 {
        cat
    } else {
        let step = if contains_id(record_ids(cat), found[0].identifier@) {
            cat
        } else {
            cat.push(found[0])
        };
        reconciled(step, found.drop_first())
    }
}

fn lower_char_exec(c: char) -> (r: char)
    ensures
        r == lower_char(c),
{
    if (c as u32) >= 65 && (c as u32) <= 90 {
        let v = (c as u32) + 32;
        crate::tokenizer::char_of_scalar(v)
    } else {
        c
    }
}

/// Whether the needle occurs in the hay after ASCII case folding.
fn contains_ci_exec(hay: &str, needle: &str) -> (r: bool)
    ensures
        r == contains_ci(hay@, needle@),
{
    let hn = hay.unicode_len();
    let nn = needle.unicode_len();
    if nn > hn {
        return false;
    }
    if nn == 0 {
        proof {
            assert(lower(hay@).subrange(0, 0 + needle@.len() as int) =~= lower(needle@));
        }
        return true;
    }
    let mut i: usize = 0;
    while i <= hn - nn
        invariant
            nn <= hn,
            i <= hn - nn + 1,
            hn == hay@.len(),
            nn == needle@.len(),
            forall|p: int|
                0 <= p < i ==> #[trigger] lower(hay@).subrange(p, p + nn as int) != lower(
                    needle@,
                ),
            0 < nn,
        decreases hn - i,
    {
        let mut j: usize = 0;
        let mut hit = true;
        while j < nn && hit
            invariant
                j <= nn,
                i + nn <= hn,
                hn == hay@.len(),
                nn == needle@.len(),
                hit ==> forall|q: int| 0 <= q < j ==> lower(hay@)[i + q] == lower(needle@)[q],
                !hit ==> lower(hay@).subrange(i as int, i + nn as int) != lower(needle@),
            decreases nn - j, (if hit {
                1int
            } else {
                0int
            }),
        {
            if lower_char_exec(hay.get_char(i + j)) != lower_char_exec(needle.get_char(j)) {
                proof {
                    assert(lower(hay@)[i + j as int] != lower(needle@)[j as int]);
                    assert(lower(hay@).subrange(i as int, i + nn as int)[j as int] == lower(
                        hay@,
                    )[i + j as int]);
                }
                hit = false;
            } else {
                j = j + 1;
            }
        }
        if hit {
            proof {
                assert(lower(hay@).subrange(i as int, i + nn as int) =~= lower(needle@));
            }
            return true;
        }
        i = i + 1;
    }
    false
}

/// The cached catalog and the instance table it serves.
pub struct ModelManager {
    pub catalog: Vec<ModelRecord>,
    /// The instance table generation calls are delegated to.
    pub engine: InferenceEngine,
}

impl ModelManager {
    /// The cached records, in registration order.
    pub open spec fn catalog_seq(&self) -> Seq<ModelRecord> {
        self.catalog@
    }

    /// Identifiers are unique in the catalog and the table is well formed.
    pub open spec fn wf(&self) -> bool {
        &&& self.engine.wf()
        &&& forall|i: int, j: int|
            0 <= i < j < self.catalog_seq().len() ==> record_ids(self.catalog_seq())[i]
                != record_ids(self.catalog_seq())[j]
    }

    /// An empty catalog over an empty table.
    pub fn new() -> (r: Self)
        ensures
            r.wf(),
            r.catalog_seq() == Seq::<ModelRecord>::empty(),
            r.engine.ids() == Seq::<Seq<char>>::empty(),
    {
        let r = ModelManager { catalog: Vec::new(), engine: InferenceEngine::new() };
        r
    }

    fn find_record(&self, id: &str) -> (r: Option<usize>)
        ensures
            r matches Some(i) ==> i < self.catalog_seq().len() && self.catalog_seq()[
                i as int
            ].identifier@ == id@,
            r is None ==> !contains_id(record_ids(self.catalog_seq()), id@),
    {
        let n = self.catalog.len();
        let mut i: usize = 0;
        while i < n
            invariant
                i <= n,
                n == self.catalog@.len(),
                forall|k: int| 0 <= k < i ==> self.catalog@[k].identifier@ != id@,
            decreases n - i,
        {
            if crate::tokenizer::str_eq(self.catalog[i].identifier.as_str(), id) {
                return Some(i);
            }
            i = i + 1;
        }
        proof {
            assert forall|k: int|
                0 <= k < record_ids(self.catalog_seq()).len() implies record_ids(
                self.catalog_seq(),
            )[k] != id@ by {}
        }
        None
    }

    /// The record with this identifier, if the catalog holds one.
    pub fn get_model(&self, id: &str) -> (r: Option<ModelRecord>)
        ensures
            r matches Some(rec) ==> contains_id(record_ids(self.catalog_seq()), id@)
                && rec.identifier@ == id@ && exists|i: int|
                0 <= i < self.catalog_seq().len() && self.catalog_seq()[i] == rec,
            r is None ==> !contains_id(record_ids(self.catalog_seq()), id@),
    {
        match self.find_record(id) {
            Some(i) => {
                let rec = self.catalog[i].duplicate();
                proof {
                    assert(record_ids(self.catalog_seq())[i as int] == id@);
                }
                Some(rec)
            },
            None => None,
        }
    }

    /// Register or refresh a record: an existing entry with the same
    /// identifier is replaced in place, otherwise the record is appended.
    pub fn register_model(&mut self, record: ModelRecord) -> (r: bool)
        requires
            old(self).wf(),
        ensures
            final(self).wf(),
            final(self).engine == old(self).engine,
            r == !contains_id(record_ids(old(self).catalog_seq()), record.identifier@),
            r ==> final(self).catalog_seq() == old(self).catalog_seq().push(record),
            !r ==> exists|i: int|
                0 <= i < old(self).catalog_seq().len() && old(self).catalog_seq()[i].identifier@
                    == record.identifier@ && final(self).catalog_seq() == old(
                    self,
                ).catalog_seq().update(i, record),
    {
        let ghost oldcat = self.catalog@;
        match self.find_record(record.identifier.as_str()) {
            Some(i) => {
                self.catalog.set(i, record);
                proof {
                    assert(record_ids(oldcat)[i as int] == self.catalog@[i as int].identifier@);
                    assert forall|a: int, b: int|
                        0 <= a < b < self.catalog@.len() implies record_ids(self.catalog@)[a]
                        != record_ids(self.catalog@)[b] by {
                        assert(record_ids(oldcat)[a] == oldcat[a].identifier@);
                        assert(record_ids(oldcat)[b] == oldcat[b].identifier@);
                    }
                }
                false
            },
            None => {
                self.catalog.push(record);
                proof {
                    assert forall|a: int, b: int|
                        0 <= a < b < self.catalog@.len() implies record_ids(self.catalog@)[a]
                        != record_ids(self.catalog@)[b] by {
                        if b < self.catalog@.len() - 1 {
                            assert(record_ids(oldcat)[a] != record_ids(oldcat)[b]);
                        } else {
                            assert(record_ids(oldcat)[a] == oldcat[a].identifier@);
                        }
                    }
                }
                true
            },
        }
    }

    /// Reconcile the catalog with what a scan of the models directory
    /// found: a discovered record whose identifier is new is appended, the
    /// rest are ignored; no model is loaded into memory.
    pub fn initialize(&mut self, discovered: Vec<ModelRecord>) -> (r: usize)
        requires
            old(self).wf(),
        ensures
            final(self).wf(),
            final(self).engine == old(self).engine,
            final(self).catalog_seq() == reconciled(old(self).catalog_seq(), discovered@),
            r as int == final(self).catalog_seq().len() - old(self).catalog_seq().len(),
    {
        let before = self.catalog.len();
        let mut rest = discovered;
        while rest.len() > 0
            invariant
                self.engine == old(self).engine,
                self.wf(),
                reconciled(old(self).catalog_seq(), discovered@) == reconciled(
                    self.catalog@,
                    rest@,
                ),
                self.catalog@.len() >= before,
            decreases rest@.len(),
        {
            let ghost pre = self.catalog@;
            let ghost prerest = rest@;
            let next = rest.remove(0);
            proof {
                assert(rest@ =~= prerest.drop_first());
            }
            match self.find_record(next.identifier.as_str()) {
                Some(at) => {
                    proof {
                        assert(record_ids(pre)[at as int] == pre[at as int].identifier@);
                        assert(contains_id(record_ids(pre), prerest[0].identifier@));
                    }
                },
                None => {
                    let ghost cat0 = self.catalog@;
                    self.catalog.push(next);
                    proof {
                        assert forall|a: int, b: int|
                            0 <= a < b < self.catalog@.len() implies record_ids(self.catalog@)[a]
                            != record_ids(self.catalog@)[b] by {
                            if b < self.catalog@.len() - 1 {
                                assert(record_ids(cat0)[a] != record_ids(cat0)[b]);
                            } else {
                                assert(record_ids(cat0)[a] == cat0[a].identifier@);
                            }
                        }
                    }
                },
            }
            proof {
                let step = if contains_id(record_ids(pre), prerest[0].identifier@) {
                    pre
                } else {
                    pre.push(prerest[0])
                };
                assert(self.catalog@ == step);
                assert(reconciled(pre, prerest) == reconciled(step, prerest.drop_first()));
            }
        }
        proof {
            assert(rest@ =~= Seq::<ModelRecord>::empty());
        }
        self.catalog.len() - before
    }

    /// Every cached record, in registration order.
    pub fn list_local_models(&self) -> (r: Vec<ModelRecord>)
        ensures
            r@ == self.catalog_seq(),
    {
        let n = self.catalog.len();
        let mut out: Vec<ModelRecord> = Vec::new();
        let mut i: usize = 0;
        while i < n
            invariant
                i <= n,
                n == self.catalog@.len(),
                out@ == self.catalog@.take(i as int),
            decreases n - i,
        {
            out.push(self.catalog[i].duplicate());
            i = i + 1;
            proof {
                assert(out@ =~= self.catalog@.take(i as int));
            }
        }
        proof {
            assert(self.catalog@.take(n as int) =~= self.catalog@);
        }
        out
    }

    /// The records whose display name contains the query, compared without
    /// regard to ASCII case, in registration order; an empty query returns
    /// the whole catalog.
    pub fn search_local_models(&self, query: &str) -> (r: Vec<ModelRecord>)
        ensures
            r@ == matching_records(self.catalog_seq(), query@),
    {
        let n = self.catalog.len();
        let mut out: Vec<ModelRecord> = Vec::new();
        let mut i: usize = 0;
        while i < n
            invariant
                i <= n,
                n == self.catalog@.len(),
                out@ == matching_records(self.catalog@.take(i as int), query@),
            decreases n - i,
        {
            if contains_ci_exec(self.catalog[i].name.as_str(), query) {
                out.push(self.catalog[i].duplicate());
            }
            i = i + 1;
            proof {
                lemma_matching_take_step(self.catalog@, query@, i as int);
                assert(out@ =~= matching_records(self.catalog@.take(i as int), query@));
            }
        }
        proof {
            assert(self.catalog@.take(n as int) =~= self.catalog@);
        }
        out
    }

    /// Aggregates at the moment of the call: how many models are
    /// registered, how many have a live instance, and the total on-disk
    /// size, saturated at the largest representable value.
    pub fn get_model_stats(&self) -> (r: ModelStats)
        ensures
            r.total_models == self.catalog_seq().len(),
            r.running_models == self.engine.ids().len(),
            r.total_size_bytes as int == if sum_sizes(self.catalog_seq()) <= u64::MAX {
                sum_sizes(self.catalog_seq())
            } else {
                u64::MAX as int
            },
    {
        let n = self.catalog.len();
        let mut total: u64 = 0;
        let mut i: usize = 0;
        while i < n
            invariant
                i <= n,
                n == self.catalog@.len(),
                total as int == if sum_sizes(self.catalog@.take(i as int)) <= u64::MAX {
                    sum_sizes(self.catalog@.take(i as int))
                } else {
                    u64::MAX as int
                },
            decreases n - i,
        {
            let size = self.catalog[i].size_bytes;
            if total <= u64::MAX - size {
                total = total + size;
            } else {
                total = u64::MAX;
            }
            i = i + 1;
            proof {
                lemma_sum_take_step(self.catalog@, i as int);
            }
        }
        proof {
            assert(self.catalog@.take(n as int) =~= self.catalog@);
        }
        ModelStats {
            total_models: n,
            running_models: self.engine.loaded_count(),
            total_size_bytes: total,
        }
    }
}

proof fn lemma_matching_take_step(cat: Seq<ModelRecord>, query: Seq<char>, i: int)
    requires
        0 < i <= cat.len(),
    ensures
        matching_records(cat.take(i), query) == matching_records(cat.take(i - 1), query) + (
        if contains_ci(cat[i - 1].name@, query) {
            seq![cat[i - 1]]
        } else {
            Seq::<ModelRecord>::empty()
        }),
    decreases i,
{
    let tail = if contains_ci(cat[i - 1].name@, query) {
        seq![cat[i - 1]]
    } else {
        Seq::<ModelRecord>::empty()
    };
    if i == 1 {
        assert(cat.take(1).drop_first() =~= Seq::<ModelRecord>::empty());
        assert(cat.take(0) =~= Seq::<ModelRecord>::empty());
        assert(matching_records(cat.take(1), query) =~= matching_records(cat.take(0), query)
            + tail);
    } else {
        lemma_matching_take_step(cat.drop_first(), query, i - 1);
        assert(cat.take(i).drop_first() =~= cat.drop_first().take(i - 1));
        assert(cat.take(i - 1).drop_first() =~= cat.drop_first().take(i - 2));
        assert(matching_records(cat.take(i), query) =~= matching_records(cat.take(i - 1), query)
            + tail);
    }
}

proof fn lemma_sum_take_step(cat: Seq<ModelRecord>, i: int)
    requires
        0 < i <= cat.len(),
    ensures
        sum_sizes(cat.take(i)) == sum_sizes(cat.take(i - 1)) + cat[i - 1].size_bytes,
    decreases i,
{
    if i == 1 {
        assert(cat.take(1).drop_first() =~= Seq::<ModelRecord>::empty());
        assert(cat.take(0) =~= Seq::<ModelRecord>::empty());
    } else {
        lemma_sum_take_step(cat.drop_first(), i - 1);
        assert(cat.take(i).drop_first() =~= cat.drop_first().take(i - 1));
        assert(cat.take(i - 1).drop_first() =~= cat.drop_first().take(i - 2));
        assert(cat.take(i)[0] == cat[0]);
        assert(cat.take(i - 1)[0] == cat[0]);
    }
}

} // verus!
