//! The reservation coordinator's lock table and protocol.
//!
//! The backing store offers no transaction spanning "check availability"
//! and "write booking", so concurrent booking attempts for the same
//! schedule and date are serialized through a process-local lock table,
//! keyed by schedule identity and calendar day and holding the opaque
//! client token that began the reservation. The three phases are modeled as
//! functions over the table's map view: `begin` inserts the key if absent
//! and reports a conflict otherwise; `commit` removes the key only when the
//! offered token matches the stored one, keeping a mismatched entry visible
//! for inspection; `abort` removes the key unconditionally and never fails.
//!
//! The table is an injectable value owned by its caller, not a process-wide
//! singleton; one caller guards it with one mutual-exclusion primitive. No
//! lease or timeout exists for an abandoned reservation: a client that
//! begins and never commits nor aborts leaves its slot held until the
//! process restarts. That is a known open point of the design, left as is.

use vstd::prelude::*;

use crate::error::Error;

verus! {

/// The map-view key of a reservation: schedule identity and calendar day.
pub type KeyView = (Seq<char>, int, int, int);

/// What a reservation locks: one schedule on one calendar day.
#[derive(Debug)]
pub struct LockKey {
    pub schedule_id: String,
    pub day: u8,
    pub month: u8,
    pub year: u32,
}

impl View for LockKey {
    type V = KeyView;

    open spec fn view(&self) -> KeyView {
        (self.schedule_id@, self.day as int, self.month as int, self.year as int)
    }
}

/// The pending reservations: each key held at most once, with the client
/// token that holds it.
pub struct LockTable {
    entries: Vec<(LockKey, String)>,
}

/// The map a sequence of entries denotes, first entry winning; with
/// pairwise-distinct keys the order never matters.
pub open spec fn map_of(s: Seq<(LockKey, String)>) -> Map<KeyView, Seq<char>>
    decreases s.len(),
{
    if s.len() == 0 {
        Map::empty()
    } else {
        map_of(s.skip(1)).insert(s[0].0@, s[0].1@)
    }
}

/// The entries hold pairwise-distinct keys.
pub open spec fn distinct_keys(s: Seq<(LockKey, String)>) -> bool {
    forall|i: int, j: int| 0 <= i < j < s.len() ==> (#[trigger] s[i]).0@ != (#[trigger] s[j]).0@
}

/// A key is in the denoted map exactly when some entry holds it.
proof fn lemma_map_of_contains(s: Seq<(LockKey, String)>, kv: KeyView)
    ensures
        map_of(s).dom().contains(kv) <==> exists|i: int|
            0 <= i < s.len() && (#[trigger] s[i]).0@ == kv,
    decreases s.len(),
{
    if s.len() == 0 {
    } else {
        lemma_map_of_contains(s.skip(1), kv);
        if s[0].0@ == kv {
            assert(0 <= 0 < s.len() && s[0].0@ == kv);
        } else {
            if map_of(s).dom().contains(kv) {
                let i = choose|i: int|
                    0 <= i < s.skip(1).len() && (#[trigger] s.skip(1)[i]).0@ == kv;
                assert(s.skip(1)[i] == s[i + 1]);
            }
            if exists|i: int| 0 <= i < s.len() && (#[trigger] s[i]).0@ == kv {
                let i = choose|i: int| 0 <= i < s.len() && (#[trigger] s[i]).0@ == kv;
                assert(i >= 1);
                assert(s.skip(1)[i - 1] == s[i]);
            }
        }
    }
}

/// Dropping the first entry keeps the remaining keys distinct.
proof fn lemma_distinct_skip(s: Seq<(LockKey, String)>)
    requires
        distinct_keys(s),
        s.len() > 0,
    ensures
        distinct_keys(s.skip(1)),
{
    assert forall|i: int, j: int| 0 <= i < j < s.skip(1).len() implies (#[trigger] s.skip(1)[i]).0@
        != (#[trigger] s.skip(1)[j]).0@ by {
        assert(s.skip(1)[i] == s[i + 1]);
        assert(s.skip(1)[j] == s[j + 1]);
    }
}

/// With distinct keys, the denoted map sends each entry's key to its token.
proof fn lemma_map_of_get(s: Seq<(LockKey, String)>, i: int)
    requires
        distinct_keys(s),
        0 <= i < s.len(),
    ensures
        map_of(s).dom().contains(s[i].0@),
        map_of(s)[s[i].0@] == s[i].1@,
    decreases s.len(),
{
    lemma_map_of_contains(s, s[i].0@);
    if i == 0 {
    } else {
        lemma_distinct_skip(s);
        assert(s.skip(1)[i - 1] == s[i]);
        lemma_map_of_get(s.skip(1), i - 1);
        assert(s[i].0@ != s[0].0@);
    }
}

/// Removing entry `i` removes exactly its key from the denoted map.
proof fn lemma_map_of_remove(s: Seq<(LockKey, String)>, i: int)
    requires
        distinct_keys(s),
        0 <= i < s.len(),
    ensures
        map_of(s.remove(i)) =~= map_of(s).remove(s[i].0@),
        distinct_keys(s.remove(i)),
    decreases s.len(),
{
    assert forall|a: int, b: int| 0 <= a < b < s.remove(i).len() implies (#[trigger] s.remove(
        i,
    )[a]).0@ != (#[trigger] s.remove(i)[b]).0@ by {
        let a2: int = if a < i {
            a
        } else {
            a + 1
        };
        let b2: int = if b < i {
            b
        } else {
            b + 1
        };
        assert(s.remove(i)[a] == s[a2]);
        assert(s.remove(i)[b] == s[b2]);
    }
    if i == 0 {
        assert(s.remove(0) =~= s.skip(1));
        lemma_distinct_skip(s);
        lemma_map_of_contains(s.skip(1), s[0].0@);
        assert forall|a: int| 0 <= a < s.skip(1).len() implies (#[trigger] s.skip(1)[a]).0@
            != s[0].0@ by {
            assert(s.skip(1)[a] == s[a + 1]);
        }
        assert(!map_of(s.skip(1)).dom().contains(s[0].0@));
        assert(map_of(s.skip(1)).insert(s[0].0@, s[0].1@).remove(s[0].0@) =~= map_of(s.skip(1)));
    } else {
        lemma_distinct_skip(s);
        lemma_map_of_remove(s.skip(1), i - 1);
        assert(s.skip(1)[i - 1] == s[i]);
        assert(s.remove(i).len() == s.len() - 1);
        assert(s.remove(i)[0] == s[0]);
        assert(s.remove(i).skip(1) =~= s.skip(1).remove(i - 1));
        assert(s[i].0@ != s[0].0@);
        assert(map_of(s.remove(i)) == map_of(s.skip(1).remove(i - 1)).insert(s[0].0@, s[0].1@));
        assert(map_of(s.skip(1).remove(i - 1)) =~= map_of(s.skip(1)).remove(s[i].0@));
        assert(map_of(s.skip(1)).remove(s[i].0@).insert(s[0].0@, s[0].1@) =~= map_of(
            s.skip(1),
        ).insert(s[0].0@, s[0].1@).remove(s[i].0@));
    }
}

impl View for LockTable {
    type V = Map<KeyView, Seq<char>>;

    closed spec fn view(&self) -> Map<KeyView, Seq<char>> {
        map_of(self.entries@)
    }
}

impl LockTable {
    /// The table's entries hold pairwise-distinct keys; every constructor
    /// establishes this and every method preserves it.
    pub closed spec fn wf(&self) -> bool {
        distinct_keys(self.entries@)
    }

    /// An empty lock table: no reservation is pending.
    pub fn new() -> (r: LockTable)
        ensures
            r.wf(),
            r@ =~= Map::<KeyView, Seq<char>>::empty(),
    {
        LockTable { entries: Vec::new() }
    }

    /// The index of the entry holding `key`, if any.
    fn find(&self, key: &LockKey) -> (r: Option<usize>)
        requires
            self.wf(),
        ensures
            r matches Some(i) ==> i < self.entries@.len() && self.entries@[i as int].0@ == key@,
            r is Some <==> self@.dom().contains(key@),
    {
        proof {
            lemma_map_of_contains(self.entries@, key@);
        }
        let n = self.entries.len();
        let mut i: usize = 0;
        while i < n
            invariant
                0 <= i <= n == self.entries@.len(),
                forall|j: int| 0 <= j < i ==> (#[trigger] self.entries@[j]).0@ != key@,
            decreases n - i,
        {
            let entry = &self.entries[i];
            let same = crate::parse::str_eq(entry.0.schedule_id.as_str(), key.schedule_id.as_str())
                && entry.0.day == key.day && entry.0.month == key.month && entry.0.year == key.year;
            if same {
                proof {
                    lemma_map_of_contains(self.entries@, key@);
                    assert(self.entries@[i as int].0@ == key@);
                    assert(exists|j: int|
                        0 <= j < self.entries@.len() && (#[trigger] self.entries@[j]).0@ == key@);
                }
                return Some(i);
            }
            i = i + 1;
        }
        None
    }

    /// Whether a reservation for `key` is pending.
    pub fn contains(&self, key: &LockKey) -> (r: bool)
        requires
            self.wf(),
        ensures
            r == self@.dom().contains(key@),
    {
        self.find(key).is_some()
    }

    /// Insert `key` with `token` if no reservation for `key` is pending;
    /// report whether the insert happened. A pending reservation is left
    /// untouched.
    pub fn try_insert(&mut self, key: LockKey, token: String) -> (r: bool)
        requires
            old(self).wf(),
        ensures
            final(self).wf(),
            r == !old(self)@.dom().contains(key@),
            r ==> final(self)@ =~= old(self)@.insert(key@, token@),
            !r ==> final(self)@ == old(self)@,
    {
        if self.find(&key).is_some() {
            return false;
        }
        let ghost prev = self.entries@;
        let ghost kv = key@;
        let ghost tv = token@;
        self.entries.insert(0, (key, token));
        proof {
            assert(self.entries@.skip(1) =~= prev);
            assert(self.entries@[0].0@ == kv);
            assert(self.entries@[0].1@ == tv);
            assert(map_of(self.entries@) == map_of(prev).insert(kv, tv));
            lemma_map_of_contains(prev, kv);
            assert forall|i: int, j: int| 0 <= i < j < self.entries@.len() implies (
            #[trigger] self.entries@[i]).0@ != (#[trigger] self.entries@[j]).0@ by {
                if i == 0 {
                    assert(self.entries@[j] == prev[j - 1]);
                } else {
                    assert(self.entries@[i] == prev[i - 1]);
                    assert(self.entries@[j] == prev[j - 1]);
                }
            }
        }
        true
    }

    /// Remove the reservation for `key`, whoever holds it, handing back the
    /// stored token. Removing an absent key changes nothing.
    pub fn remove(&mut self, key: &LockKey) -> (r: Option<String>)
        requires
            old(self).wf(),
        ensures
            final(self).wf(),
            r matches Some(t) ==> old(self)@.dom().contains(key@) && t@ == old(self)@[key@],
            r is Some <==> old(self)@.dom().contains(key@),
            final(self)@ =~= old(self)@.remove(key@),
    {
        let found = self.find(key);
        match found {
            Some(i) => {
                proof {
                    lemma_map_of_get(self.entries@, i as int);
                    lemma_map_of_remove(self.entries@, i as int);
                }
                let entry = self.entries.remove(i);
                proof {
                    assert(old(self)@.remove(entry.0@) =~= old(self)@.remove(key@));
                }
                Some(entry.1)
            },
            None => {
                proof {
                    assert(!old(self)@.dom().contains(key@));
                    assert(old(self)@.remove(key@) =~= old(self)@);
                }
                None
            },
        }
    }

    /// The token stored for `key`, if a reservation is pending.
    pub fn stored_token(&self, key: &LockKey) -> (r: Option<&String>)
        requires
            self.wf(),
        ensures
            r matches Some(t) ==> self@.dom().contains(key@) && t@ == self@[key@],
            r is Some <==> self@.dom().contains(key@),
    {
        match self.find(key) {
            Some(i) => {
                proof {
                    lemma_map_of_get(self.entries@, i as int);
                }
                Some(&self.entries[i].1)
            },
            None => None,
        }
    }
}

/// What the lock phase of `begin` does to the table: a pending reservation
/// is a conflict and changes nothing; otherwise the key is inserted with
/// the client's token.
pub open spec fn begin_lock_model(m: Map<KeyView, Seq<char>>, kv: KeyView, token: Seq<char>) -> (
    Result<(), Error>,
    Map<KeyView, Seq<char>>,
) {
    if m.dom().contains(kv) {
        (Err(Error::ReservationInFlight), m)
    } else {
        (Ok(()), m.insert(kv, token))
    }
}

/// What `commit` does to the table: nothing pending is a missing-state
/// error; a token mismatch is a conflict and deliberately keeps the entry
/// in place, so the stale reservation stays visible; a match removes it.
pub open spec fn commit_model(m: Map<KeyView, Seq<char>>, kv: KeyView, token: Seq<char>) -> (
    Result<(), Error>,
    Map<KeyView, Seq<char>>,
) {
    if !m.dom().contains(kv) {
        (Err(Error::ReservationMissing), m)
    } else if m[kv] != token {
        (Err(Error::TokenMismatch), m)
    } else {
        (Ok(()), m.remove(kv))
    }
}

/// What `abort` does to the table: the key is removed whether or not a
/// reservation was pending, and the call never fails.
pub open spec fn abort_model(m: Map<KeyView, Seq<char>>, kv: KeyView) -> Map<KeyView, Seq<char>> {
    m.remove(kv)
}

/// Aborting is idempotent: a second `abort` of the same key is a no-op,
/// and neither call can fail, there being no failure outcome at all.
pub proof fn lemma_abort_idempotent(m: Map<KeyView, Seq<char>>, kv: KeyView)
    ensures
        abort_model(abort_model(m, kv), kv) =~= abort_model(m, kv),
        !abort_model(m, kv).dom().contains(kv),
{
}

/// Mutual exclusion: of two `begin` attempts for the same free key, the
/// first succeeds and holds the key, and the second fails with a conflict,
/// leaving the table exactly as the first left it.
pub proof fn lemma_begin_mutual_exclusion(
    m: Map<KeyView, Seq<char>>,
    kv: KeyView,
    token1: Seq<char>,
    token2: Seq<char>,
)
    requires
        !m.dom().contains(kv),
    ensures
        begin_lock_model(m, kv, token1).0 == Ok::<(), Error>(()),
        begin_lock_model(m, kv, token1).1.dom().contains(kv),
        begin_lock_model(begin_lock_model(m, kv, token1).1, kv, token2).0 == Err::<(), Error>(
            Error::ReservationInFlight,
        ),
        begin_lock_model(begin_lock_model(m, kv, token1).1, kv, token2).1 == begin_lock_model(
            m,
            kv,
            token1,
        ).1,
{
}

/// A commit whose token does not match the one stored on `begin` fails
/// with a token-mismatch conflict and leaves the table unchanged: in
/// particular it never produces a booking to write.
pub proof fn lemma_commit_token_mismatch(
    m: Map<KeyView, Seq<char>>,
    kv: KeyView,
    stored: Seq<char>,
    offered: Seq<char>,
)
    requires
        m.dom().contains(kv),
        m[kv] == stored,
        stored != offered,
    ensures
        commit_model(m, kv, offered).0 == Err::<(), Error>(Error::TokenMismatch),
        commit_model(m, kv, offered).1 == m,
{
}

} // verus!
