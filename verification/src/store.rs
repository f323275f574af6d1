//! The key-value store that holds the (short code -> long URL) mappings:
//! a table with per-mapping expiry, a logical clock in seconds, and an
//! atomic create-if-absent write. The table is the store's observable
//! state; transport and connection management stay outside the library.

use vstd::prelude::*;

verus! {

/// A stored mapping as the contracts see it: the long URL text and the
/// instant (on the store's logical clock) at which the mapping expires,
/// `None` when it never expires.
pub type MappingData = (Seq<char>, Option<u64>);

/// Whether a mapping is still live at instant `now`.
pub open spec fn mapping_live(m: MappingData, now: u64) -> bool {
    match m.1 {
        Option::Some(t) => now < t,
        Option::None => true,
    }
}

/// The answer the store gives for `key` at instant `now`: the stored URL
/// while a live mapping holds the key, absence otherwise.
pub open spec fn table_lookup(
    table: Map<Seq<char>, MappingData>,
    now: u64,
    key: Seq<char>,
) -> Option<Seq<char>> {
    if table.contains_key(key) && mapping_live(table[key], now) {
        Option::Some(table[key].0)
    } else {
        Option::None
    }
}

/// The expiry instant of a write issued at `now` with a time-to-live of
/// `ttl` seconds: `now + ttl`, saturating at the end of the clock's range;
/// `None` when no time-to-live is given.
pub open spec fn write_expiry(now: u64, ttl: Option<u64>) -> Option<u64> {
    match ttl {
        Option::Some(t) => if now + t <= u64::MAX {
            Option::Some((now + t) as u64)
        } else {
            Option::Some(u64::MAX)
        },
        Option::None => Option::None,
    }
}

/// The table after a conditional write of `key -> value`, accepted at `now`.
pub open spec fn table_after_write(
    table: Map<Seq<char>, MappingData>,
    now: u64,
    key: Seq<char>,
    value: Seq<char>,
    ttl: Option<u64>,
) -> Map<Seq<char>, MappingData> {
    table.insert(key, (value, write_expiry(now, ttl)))
}

/// The logical clock after `seconds` more seconds, saturating at the end of
/// the clock's range.
pub open spec fn clock_plus(now: u64, seconds: u64) -> u64 {
    if now + seconds <= u64::MAX {
        (now + seconds) as u64
    } else {
        u64::MAX
    }
}

struct StoredMapping {
    key: String,
    value: String,
    expires_at: Option<u64>,
}

/// The service's handle on the key-value store, modelled as the mapping
/// table the store holds together with its logical clock. A mapping is
/// created only through the atomic conditional write `set`; nothing ever
/// overwrites a live mapping.
pub struct RedisService {
    now: u64,
    entries: Vec<StoredMapping>,
}

impl RedisService {
    /// The store's logical clock, in seconds.
    pub closed spec fn clock(self) -> u64 {
        self.now
    }

    /// The mapping table the store holds.
    pub closed spec fn mappings(self) -> Map<Seq<char>, MappingData> {
        Map::new(
            |k: Seq<char>|
                exists|i: int|
                    0 <= i < self.entries@.len() && self.entries@[i].key@ == k,
            |k: Seq<char>|
                {
                    let i = choose|i: int|
                        0 <= i < self.entries@.len() && self.entries@[i].key@ == k;
                    (self.entries@[i].value@, self.entries@[i].expires_at)
                },
        )
    }

    /// Each key holds at most one mapping.
    pub closed spec fn well_formed(self) -> bool {
        forall|i: int, j: int|
            0 <= i < j < self.entries@.len()
                ==> self.entries@[i].key@ != self.entries@[j].key@
    }

    proof fn lemma_key_at(self, i: int)
        requires
            self.well_formed(),
            0 <= i < self.entries@.len(),
        ensures
            self.mappings().contains_key(self.entries@[i].key@),
            self.mappings()[self.entries@[i].key@]
                == (self.entries@[i].value@, self.entries@[i].expires_at),
    {
        let k = self.entries@[i].key@;
        assert(self.mappings().contains_key(k));
        let w = choose|w: int|
            0 <= w < self.entries@.len() && self.entries@[w].key@ == k;
        if w < i {
            assert(self.entries@[w].key@ != self.entries@[i].key@);
        } else if i < w {
            assert(self.entries@[i].key@ != self.entries@[w].key@);
        }
    }

    proof fn lemma_key_absent(self, k: Seq<char>)
        requires
            forall|i: int|
                0 <= i < self.entries@.len() ==> self.entries@[i].key@ != k,
        ensures
            !self.mappings().contains_key(k),
    {
    }

    proof fn lemma_mappings_from_entries(pre: Self, post: Self)
        requires
            pre.well_formed(),
            post.entries@ == pre.entries@,
        ensures
            post.well_formed(),
            post.mappings() == pre.mappings(),
    {
        assert forall|k: Seq<char>| #[trigger] pre.mappings().contains_key(k)
            implies post.mappings().contains_key(k)
                && post.mappings()[k] == pre.mappings()[k] by {
            let i = choose|i: int|
                0 <= i < pre.entries@.len() && pre.entries@[i].key@ == k;
            pre.lemma_key_at(i);
            post.lemma_key_at(i);
        }
        assert forall|k: Seq<char>| #[trigger] post.mappings().contains_key(k)
            implies pre.mappings().contains_key(k) by {
            let i = choose|i: int|
                0 <= i < post.entries@.len() && post.entries@[i].key@ == k;
            pre.lemma_key_at(i);
        }
        assert(post.mappings() =~= pre.mappings());
    }

    proof fn lemma_mappings_after_update(pre: Self, post: Self, j: int)
        requires
            pre.well_formed(),
            0 <= j < pre.entries@.len(),
            post.entries@ == pre.entries@.update(j, post.entries@[j]),
            post.entries@[j].key@ == pre.entries@[j].key@,
        ensures
            post.well_formed(),
            post.mappings() == pre.mappings().insert(
                pre.entries@[j].key@,
                (post.entries@[j].value@, post.entries@[j].expires_at),
            ),
    {
        let k0 = pre.entries@[j].key@;
        assert forall|i: int| 0 <= i < post.entries@.len()
            implies #[trigger] post.entries@[i].key@ == pre.entries@[i].key@ by {
        }
        assert(post.well_formed());
        let target = pre.mappings().insert(
            k0,
            (post.entries@[j].value@, post.entries@[j].expires_at),
        );
        assert forall|k: Seq<char>| #[trigger] post.mappings().contains_key(k)
            implies target.contains_key(k) && post.mappings()[k] == target[k] by {
            let i = choose|i: int|
                0 <= i < post.entries@.len() && post.entries@[i].key@ == k;
            post.lemma_key_at(i);
            if i == j {
                assert(k == k0);
            } else {
                assert(pre.entries@[i].key@ == k);
                pre.lemma_key_at(i);
                assert(k != k0);
            }
        }
        assert forall|k: Seq<char>| #[trigger] target.contains_key(k)
            implies post.mappings().contains_key(k) by {
            if k == k0 {
                assert(post.entries@[j].key@ == k);
            } else {
                let i = choose|i: int|
                    0 <= i < pre.entries@.len() && pre.entries@[i].key@ == k;
                assert(post.entries@[i].key@ == k);
            }
        }
        assert(post.mappings() =~= target);
    }

    proof fn lemma_mappings_after_push(pre: Self, post: Self)
        requires
            pre.well_formed(),
            post.entries@.len() == pre.entries@.len() + 1,
            post.entries@ == pre.entries@.push(post.entries@.last()),
            forall|i: int|
                0 <= i < pre.entries@.len()
                    ==> pre.entries@[i].key@ != post.entries@.last().key@,
        ensures
            post.well_formed(),
            post.mappings() == pre.mappings().insert(
                post.entries@.last().key@,
                (post.entries@.last().value@, post.entries@.last().expires_at),
            ),
    {
        let n = pre.entries@.len() as int;
        let tail = post.entries@.last();
        assert forall|i: int| 0 <= i < n
            implies #[trigger] post.entries@[i].key@ == pre.entries@[i].key@ by {
        }
        assert(post.well_formed());
        let target = pre.mappings().insert(tail.key@, (tail.value@, tail.expires_at));
        assert forall|k: Seq<char>| #[trigger] post.mappings().contains_key(k)
            implies target.contains_key(k) && post.mappings()[k] == target[k] by {
            let i = choose|i: int|
                0 <= i < post.entries@.len() && post.entries@[i].key@ == k;
            post.lemma_key_at(i);
            if i == n {
                assert(k == tail.key@);
            } else {
                assert(pre.entries@[i].key@ == k);
                pre.lemma_key_at(i);
                assert(k != tail.key@);
            }
        }
        assert forall|k: Seq<char>| #[trigger] target.contains_key(k)
            implies post.mappings().contains_key(k) by {
            if k == tail.key@ {
                assert(post.entries@[n].key@ == k);
            } else {
                let i = choose|i: int|
                    0 <= i < pre.entries@.len() && pre.entries@[i].key@ == k;
                assert(post.entries@[i].key@ == k);
            }
        }
        assert(post.mappings() =~= target);
    }

    /// A fresh store: an empty table, the clock at zero.
    pub fn new() -> (s: Self)
        ensures
            s.well_formed(),
            s.clock() == 0,
            s.mappings() == Map::<Seq<char>, MappingData>::empty(),
    {
        let s = RedisService { now: 0, entries: Vec::new() };
        proof {
            assert(s.mappings() =~= Map::<Seq<char>, MappingData>::empty());
        }
        s
    }

    /// Answers the live mapping for `key` at the current instant, or
    /// absence. Absence is an ordinary answer, never an error.
    pub fn get(&self, key: &str) -> (r: Option<String>)
        requires
            self.well_formed(),
        ensures
            r.deep_view() == table_lookup(self.mappings(), self.clock(), key@),
    {
        let key_owned: String = key.to_owned();
        let n = self.entries.len();
        let mut j: usize = 0;
        while j < n
            invariant
                self.well_formed(),
                n == self.entries@.len(),
                j <= n,
                key_owned@ == key@,
                forall|i: int| 0 <= i < j ==> self.entries@[i].key@ != key@,
            decreases n - j,
        {
            let entry = &self.entries[j];
            if entry.key == key_owned {
                proof {
                    self.lemma_key_at(j as int);
                }
                match entry.expires_at {
                    Option::Some(t) => {
                        if self.now < t {
                            return Option::Some(entry.value.clone());
                        } else {
                            return Option::None;
                        }
                    },
                    Option::None => {
                        return Option::Some(entry.value.clone());
                    },
                }
            }
            j = j + 1;
        }
        proof {
            self.lemma_key_absent(key@);
        }
        Option::None
    }

    /// The atomic conditional write: stores `value` under `key`, expiring
    /// `ttl` seconds from now, but only when no live mapping holds the key.
    /// Answers whether it stored; a live mapping is left untouched when it
    /// answers false. This is the sole way a mapping is created, so two
    /// racing writes of one key see exactly one `true` between them.
    pub fn set(&mut self, key: &str, value: &str, ttl: Option<u64>) -> (r: bool)
        requires
            old(self).well_formed(),
        ensures
            final(self).well_formed(),
            final(self).clock() == old(self).clock(),
            r == (table_lookup(old(self).mappings(), old(self).clock(), key@) is None),
            r ==> final(self).mappings() == table_after_write(
                old(self).mappings(),
                old(self).clock(),
                key@,
                value@,
                ttl,
            ),
            !r ==> final(self).mappings() == old(self).mappings(),
    {
        let expires_at: Option<u64> = match ttl {
            Option::Some(t) => {
                if t <= u64::MAX - self.now {
                    Option::Some(self.now + t)
                } else {
                    Option::Some(u64::MAX)
                }
            },
            Option::None => Option::None,
        };
        let key_owned: String = key.to_owned();
        let n = self.entries.len();
        let mut j: usize = 0;
        while j < n
            invariant
                *self == *old(self),
                self.well_formed(),
                n == self.entries@.len(),
                j <= n,
                key_owned@ == key@,
                expires_at == write_expiry(old(self).clock(), ttl),
                forall|i: int| 0 <= i < j ==> self.entries@[i].key@ != key@,
            decreases n - j,
        {
            if self.entries[j].key == key_owned {
                proof {
                    self.lemma_key_at(j as int);
                }
                let live: bool = match self.entries[j].expires_at {
                    Option::Some(t) => self.now < t,
                    Option::None => true,
                };
                if live {
                    return false;
                }
                let fresh_entry = StoredMapping {
                    key: key_owned,
                    value: value.to_owned(),
                    expires_at,
                };
                self.entries.set(j, fresh_entry);
                proof {
                    Self::lemma_mappings_after_update(*old(self), *self, j as int);
                }
                return true;
            }
            j = j + 1;
        }
        proof {
            self.lemma_key_absent(key@);
        }
        let fresh_entry = StoredMapping {
            key: key_owned,
            value: value.to_owned(),
            expires_at,
        };
        self.entries.push(fresh_entry);
        proof {
            Self::lemma_mappings_after_push(*old(self), *self);
        }
        true
    }

    /// Empties the whole table, as test and operations tooling does; the
    /// clock stays where it stands.
    pub fn cleanup(&mut self)
        requires
            old(self).well_formed(),
        ensures
            final(self).well_formed(),
            final(self).clock() == old(self).clock(),
            final(self).mappings() == Map::<Seq<char>, MappingData>::empty(),
    {
        self.entries.clear();
        proof {
            assert(self.mappings() =~= Map::<Seq<char>, MappingData>::empty());
        }
    }

    /// Moves the logical clock forward by `seconds`, saturating at the end
    /// of its range. The table itself is untouched; mappings whose expiry
    /// the clock passes simply stop being answered.
    pub fn advance_clock(&mut self, seconds: u64)
        requires
            old(self).well_formed(),
        ensures
            final(self).well_formed(),
            final(self).mappings() == old(self).mappings(),
            final(self).clock() == clock_plus(old(self).clock(), seconds),
    {
        if seconds <= u64::MAX - self.now {
            self.now = self.now + seconds;
        } else {
            self.now = u64::MAX;
        }
        proof {
            Self::lemma_mappings_from_entries(*old(self), *self);
        }
    }
}

/// A fresh handle on an empty store, as the service obtains one at startup.
pub fn get_redis_service() -> (s: RedisService)
    ensures
        s.well_formed(),
        s.clock() == 0,
        s.mappings() == Map::<Seq<char>, MappingData>::empty(),
{
    RedisService::new()
}

/// Conditional-write exclusivity: with `key` absent from the table, a
/// conditional write of `v1` is accepted; a second conditional write of the
/// same key at the same instant — whatever value `v2` it carries — is
/// refused, leaves the table as it stands, and the table still answers `v1`.
pub proof fn lemma_conditional_write_exclusive(
    table: Map<Seq<char>, MappingData>,
    now: u64,
    key: Seq<char>,
    v1: Seq<char>,
    v2: Seq<char>,
    ttl: Option<u64>,
)
    requires
        table_lookup(table, now, key) is None,
        now < u64::MAX,
        match ttl {
            Option::Some(t) => t >= 1,
            Option::None => true,
        },
    ensures
        ({
            let written = table_after_write(table, now, key, v1, ttl);
            &&& !(table_lookup(written, now, key) is None)
            &&& table_lookup(written, now, key) == Option::Some(v1)
        }),
{
}

/// Expiry: a mapping written at `now` with a time-to-live of one second is
/// answered right away, and is absent at every instant past the
/// time-to-live.
pub proof fn lemma_expiry(
    table: Map<Seq<char>, MappingData>,
    now: u64,
    key: Seq<char>,
    value: Seq<char>,
    later: u64,
)
    requires
        table_lookup(table, now, key) is None,
        now + 1 <= u64::MAX,
        later >= now + 1,
    ensures
        ({
            let written = table_after_write(table, now, key, value, Option::Some(1));
            &&& table_lookup(written, now, key) == Option::Some(value)
            &&& table_lookup(written, later, key) is None
        }),
{
}

} // verus!
