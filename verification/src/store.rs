//! The key-value store: a mapping from key to value with an optional
//! millisecond time-to-live, evaluated lazily when a key is read.

use crate::resp::{value_eq, value_model, RedisValue, ValueModel};
use vstd::pervasive::VecAdditionalExecFns;
use vstd::prelude::*;

verus! {

/// One stored record: the value, and optionally the pair of its
/// time-to-live in milliseconds and the instant (a millisecond count)
/// it was inserted.
pub struct StoreEntry {
    pub value: RedisValue,
    pub expiry: Option<(i64, u64)>,
}

/// Ghost model of a stored record.
pub struct EntryModel {
    pub value: ValueModel,
    pub expiry: Option<(i64, u64)>,
}

impl View for StoreEntry {
    type V = EntryModel;

    open spec fn view(&self) -> EntryModel {
        EntryModel { value: value_model(self.value), expiry: self.expiry }
    }
}

/// An entry with a nonnegative time-to-live is expired once strictly
/// more than `ttl_ms` milliseconds have elapsed since it was inserted;
/// a clock that has not advanced past the insertion instant has let
/// nothing elapse. A negative time-to-live never expires.
pub open spec fn is_expired(ttl_ms: i64, inserted_ms: u64, now_ms: u64) -> bool {
    ttl_ms >= 0 && now_ms - inserted_ms > ttl_ms
}

/// What reading a key yields: the key was never set, or it is present
/// but expired, or it is live with its value.
#[derive(Debug, PartialEq, Eq)]
pub enum Lookup {
    Absent,
    Expired,
    Found(RedisValue),
}

/// Ghost model of a read's outcome.
pub enum LookupModel {
    Absent,
    Expired,
    Found(ValueModel),
}

impl View for Lookup {
    type V = LookupModel;

    open spec fn view(&self) -> LookupModel {
        match self {
            Lookup::Absent => LookupModel::Absent,
            Lookup::Expired => LookupModel::Expired,
            Lookup::Found(v) => LookupModel::Found(value_model(*v)),
        }
    }
}

/// What reading key `k` of store `m` at instant `now_ms` yields.
pub open spec fn spec_get(
    m: Map<ValueModel, EntryModel>,
    k: ValueModel,
    now_ms: u64,
) -> LookupModel {
    if !m.contains_key(k) {
        LookupModel::Absent
    } else {
        match m[k].expiry {
            Option::None => LookupModel::Found(m[k].value),
            Option::Some((ttl_ms, inserted_ms)) => if is_expired(ttl_ms, inserted_ms, now_ms) {
                LookupModel::Expired
            } else {
                LookupModel::Found(m[k].value)
            },
        }
    }
}

/// The map a sequence of keyed entries denotes; a later entry for the
/// same key would overwrite an earlier one.
pub open spec fn entries_model(s: Seq<(RedisValue, StoreEntry)>) -> Map<ValueModel, EntryModel>
    decreases s.len(),
{
    if s.len() == 0 {
        Map::empty()
    } else {
        entries_model(s.drop_last()).insert(value_model(s.last().0), s.last().1@)
    }
}

/// Setting a key with no expiry and then reading it, at any instant,
/// yields exactly the value set.
pub proof fn lemma_set_then_get(
    m: Map<ValueModel, EntryModel>,
    k: ValueModel,
    v: ValueModel,
    now_ms: u64,
)
    ensures
        spec_get(m.insert(k, EntryModel { value: v, expiry: None }), k, now_ms)
            == LookupModel::Found(v),
{
}

/// A key set with a nonnegative time-to-live reads back its value while
/// no more than `ttl_ms` milliseconds have elapsed, and reads as
/// expired once strictly more have.
pub proof fn lemma_set_with_expiry_then_get(
    m: Map<ValueModel, EntryModel>,
    k: ValueModel,
    v: ValueModel,
    ttl_ms: i64,
    inserted_ms: u64,
    now_ms: u64,
)
    requires
        ttl_ms >= 0,
    ensures
        now_ms - inserted_ms <= ttl_ms ==> spec_get(
            m.insert(k, EntryModel { value: v, expiry: Some((ttl_ms, inserted_ms)) }),
            k,
            now_ms,
        ) == LookupModel::Found(v),
        now_ms - inserted_ms > ttl_ms ==> spec_get(
            m.insert(k, EntryModel { value: v, expiry: Some((ttl_ms, inserted_ms)) }),
            k,
            now_ms,
        ) == LookupModel::Expired,
{
}

/// Re-setting a key fully replaces its prior value and expiry state:
/// whatever entry the key held before, a later plain set makes every
/// read yield the new value, at every instant.
pub proof fn lemma_reset_replaces(
    m: Map<ValueModel, EntryModel>,
    k: ValueModel,
    prior: EntryModel,
    v2: ValueModel,
    now_ms: u64,
)
    ensures
        spec_get(
            m.insert(k, prior).insert(k, EntryModel { value: v2, expiry: None }),
            k,
            now_ms,
        ) == LookupModel::Found(v2),
{
}

/// Writes to distinct keys do not disturb each other: after both, each
/// key reads as if only its own write had happened.
pub proof fn lemma_distinct_keys_independent(
    m: Map<ValueModel, EntryModel>,
    k1: ValueModel,
    e1: EntryModel,
    k2: ValueModel,
    e2: EntryModel,
    now_ms: u64,
)
    requires
        k1 != k2,
    ensures
        spec_get(m.insert(k1, e1).insert(k2, e2), k1, now_ms) == spec_get(
            m.insert(k1, e1),
            k1,
            now_ms,
        ),
        spec_get(m.insert(k1, e1).insert(k2, e2), k2, now_ms) == spec_get(
            m.insert(k2, e2),
            k2,
            now_ms,
        ),
{
}

/// A read reports a key absent exactly when the key was never set, and
/// an absent report is never an expired one: the store itself keeps
/// the two cases apart.
pub proof fn lemma_absent_iff_never_set(m: Map<ValueModel, EntryModel>, k: ValueModel, now_ms: u64)
    ensures
        (spec_get(m, k, now_ms) == LookupModel::Absent) <==> !m.contains_key(k),
        spec_get(m, k, now_ms) != LookupModel::Expired || m.contains_key(k),
{
}

/// The store: every key maps to at most one entry. Expired entries are
/// never swept; they are reported as misses when read.
pub struct Store {
    entries: Vec<(RedisValue, StoreEntry)>,
}

impl View for Store {
    type V = Map<ValueModel, EntryModel>;

    closed spec fn view(&self) -> Map<ValueModel, EntryModel> {
        entries_model(self.entries@)
    }
}

/// Unique keys: no two entries share a key.
pub open spec fn unique_keys(s: Seq<(RedisValue, StoreEntry)>) -> bool {
    forall|i: int, j: int|
        0 <= i < j < s.len() ==> value_model(#[trigger] s[i].0) != value_model(#[trigger] s[j].0)
}

/// A key present in `s` maps, in the denoted map, to the entry stored
/// beside it.
proof fn lemma_entries_model_at(s: Seq<(RedisValue, StoreEntry)>, i: int)
    requires
        unique_keys(s),
        0 <= i < s.len(),
    ensures
        entries_model(s).contains_key(value_model(s[i].0)),
        entries_model(s)[value_model(s[i].0)] == s[i].1@,
    decreases s.len(),
{
    if i == s.len() - 1 {
    } else {
        assert(unique_keys(s.drop_last())) by {
            assert(forall|p: int|
                0 <= p < s.len() - 1 ==> #[trigger] s.drop_last()[p] == s[p]);
        }
        lemma_entries_model_at(s.drop_last(), i);
        assert(s.drop_last()[i] == s[i]);
        assert(value_model(s.last().0) != value_model(s[i].0));
    }
}

/// A key beside no entry of `s` is absent from the denoted map.
proof fn lemma_entries_model_absent(s: Seq<(RedisValue, StoreEntry)>, k: ValueModel)
    requires
        forall|i: int| 0 <= i < s.len() ==> value_model(#[trigger] s[i].0) != k,
    ensures
        !entries_model(s).contains_key(k),
    decreases s.len(),
{
    if s.len() > 0 {
        assert(forall|p: int| 0 <= p < s.len() - 1 ==> #[trigger] s.drop_last()[p] == s[p]);
        lemma_entries_model_absent(s.drop_last(), k);
    }
}

/// Replacing the entry at `i`, keeping a key with the same model,
/// denotes an overwrite of that key.
proof fn lemma_entries_model_update(
    s: Seq<(RedisValue, StoreEntry)>,
    i: int,
    p: (RedisValue, StoreEntry),
)
    requires
        unique_keys(s),
        0 <= i < s.len(),
        value_model(p.0) == value_model(s[i].0),
    ensures
        entries_model(s.update(i, p)) == entries_model(s).insert(value_model(p.0), p.1@),
    decreases s.len(),
{
    let k = value_model(p.0);
    if i == s.len() - 1 {
        assert(s.update(i, p).drop_last() =~= s.drop_last());
        assert(s.update(i, p).last() == p);
        assert(entries_model(s.drop_last()).insert(k, s[i].1@).insert(k, p.1@) =~= entries_model(
            s.drop_last(),
        ).insert(k, p.1@));
    } else {
        assert(forall|q: int| 0 <= q < s.len() - 1 ==> #[trigger] s.drop_last()[q] == s[q]);
        assert(unique_keys(s.drop_last()));
        assert(s.update(i, p).drop_last() =~= s.drop_last().update(i, p));
        assert(s.update(i, p).last() == s.last());
        lemma_entries_model_update(s.drop_last(), i, p);
        let lk = value_model(s.last().0);
        let le = s.last().1@;
        assert(lk != k);
        assert(entries_model(s.drop_last()).insert(k, p.1@).insert(lk, le) =~= entries_model(
            s.drop_last(),
        ).insert(lk, le).insert(k, p.1@));
    }
}

impl Store {
    /// Every key occurs beside at most one entry.
    pub closed spec fn wf(self) -> bool {
        unique_keys(self.entries@)
    }

    /// An empty store.
    pub fn new() -> (r: Store)
        ensures
            r.wf(),
            r@ == Map::<ValueModel, EntryModel>::empty(),
    {
        Store { entries: Vec::new() }
    }

    /// The index of the entry whose key has the model of `key`, if any.
    fn find_index(&self, key: &RedisValue) -> (r: Option<usize>)
        ensures
            match r {
                Option::Some(i) => i < self.entries@.len() && value_model(
                    self.entries@[i as int].0,
                ) == key@,
                Option::None => forall|i: int|
                    0 <= i < self.entries@.len() ==> value_model(#[trigger] self.entries@[i].0)
                        != key@,
            },
    {
        let mut i: usize = 0;
        while i < self.entries.len()
            invariant
                i <= self.entries@.len(),
                forall|j: int|
                    0 <= j < i ==> value_model(#[trigger] self.entries@[j].0) != key@,
            decreases self.entries@.len() - i,
        {
            if value_eq(&self.entries[i].0, key) {
                return Some(i);
            }
            i = i + 1;
        }
        None
    }

    /// Inserts `entry` under `key`, overwriting whatever the key held.
    fn put(&mut self, key: RedisValue, entry: StoreEntry)
        requires
            old(self).wf(),
        ensures
            final(self).wf(),
            final(self)@ == old(self)@.insert(key@, entry@),
    {
        let ghost k = value_model(key);
        match self.find_index(&key) {
            Option::Some(i) => {
                let ghost s0 = self.entries@;
                proof {
                    lemma_entries_model_update(s0, i as int, (key, entry));
                }
                self.entries.set(i, (key, entry));
                proof {
                    assert(unique_keys(self.entries@)) by {
                        assert(forall|p: int|
                            0 <= p < self.entries@.len() ==> value_model(
                                #[trigger] self.entries@[p].0,
                            ) == value_model(s0[p].0));
                    }
                }
            },
            Option::None => {
                proof {
                    lemma_entries_model_absent(self.entries@, k);
                }
                let ghost s0 = self.entries@;
                self.entries.push((key, entry));
                proof {
                    assert(self.entries@.drop_last() =~= s0);
                    assert(unique_keys(self.entries@)) by {
                        assert(forall|p: int|
                            0 <= p < s0.len() ==> #[trigger] self.entries@[p] == s0[p]);
                    }
                }
            },
        }
    }

    /// Inserts or overwrites `key` with `value` and no expiry.
    pub fn set(&mut self, key: RedisValue, value: RedisValue)
        requires
            old(self).wf(),
        ensures
            final(self).wf(),
            final(self)@ == old(self)@.insert(
                key@,
                EntryModel { value: value@, expiry: None },
            ),
    {
        self.put(key, StoreEntry { value, expiry: None });
    }

    /// Inserts or overwrites `key` with `value`, to live for `ttl_ms`
    /// milliseconds from the instant `now_ms`.
    pub fn set_with_expiry(&mut self, key: RedisValue, value: RedisValue, ttl_ms: i64, now_ms: u64)
        requires
            old(self).wf(),
        ensures
            final(self).wf(),
            final(self)@ == old(self)@.insert(
                key@,
                EntryModel { value: value@, expiry: Some((ttl_ms, now_ms)) },
            ),
    {
        self.put(key, StoreEntry { value, expiry: Some((ttl_ms, now_ms)) });
    }

    /// Reads `key` at instant `now_ms`: absent if it was never set,
    /// expired if its time-to-live has lapsed, else its value. An
    /// expired entry stays in the store; only its report changes.
    pub fn get(&self, key: &RedisValue, now_ms: u64) -> (r: Lookup)
        requires
            self.wf(),
        ensures
            r@ == spec_get(self@, key@, now_ms),
    {
        match self.find_index(key) {
            Option::None => {
                proof {
                    lemma_entries_model_absent(self.entries@, key@);
                }
                Lookup::Absent
            },
            Option::Some(i) => {
                proof {
                    lemma_entries_model_at(self.entries@, i as int);
                }
                let entry = &self.entries[i].1;
                match entry.expiry {
                    Option::None => Lookup::Found(entry.value.clone()),
                    Option::Some((ttl_ms, inserted_ms)) => {
                        let elapsed = if now_ms >= inserted_ms {
                            now_ms - inserted_ms
                        } else {
                            0
                        };
                        if ttl_ms >= 0 && elapsed > (ttl_ms as u64) {
                            Lookup::Expired
                        } else {
                            Lookup::Found(entry.value.clone())
                        }
                    },
                }
            },
        }
    }
}

} // verus!
