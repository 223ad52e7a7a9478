//! A pool of provider credentials that hides per-credential quotas behind
//! one question: which credential may be used now?
//!
//! Credentials are handed out in round-robin order. A credential that the
//! provider reported as exhausted is set aside until the next UTC midnight;
//! one that has used up its budget for the last minute or the last day is
//! passed over until the budget recovers.
//!
//! The behaviour is stated once, as the spec function [`acquire`] on the
//! mathematical state of the pool, and the executable functions are proved
//! to compute it.

use vstd::prelude::*;
use crate::clock::{
    in_calendar, next_day_start, start_of_next_utc_day, utc_now_micros, MICROS_PER_DAY,
    MICROS_PER_MINUTE,
};

verus! {

broadcast use vstd::string::group_string_axioms;

/// Why no credential was handed out.
#[derive(Clone, Copy, Debug, PartialEq, Eq, Structural)]
pub enum KeyError {
    /// The pool was built without credentials.
    NoKeysConfigured,
    /// Every credential is set aside or over its budget right now; the
    /// condition passes with time.
    NoKeyAvailable,
}

impl KeyError {
    /// A sentence for the log.
    pub fn message(&self) -> (text: String)
        ensures
            text@ == match *self {
                KeyError::NoKeysConfigured => "No API keys configured."@,
                KeyError::NoKeyAvailable => "All API keys are currently rate-limited or disabled."@,
            },
    {
        match self {
            KeyError::NoKeysConfigured => "No API keys configured.".to_string(),
            KeyError::NoKeyAvailable => {
                "All API keys are currently rate-limited or disabled.".to_string()
            },
        }
    }
}

/// One credential as the contracts see it.
pub struct KeyState {
    /// The secret.
    pub key: Seq<char>,
    /// The instant at which the credential may be used again, if it was set
    /// aside.
    pub disabled_until: Option<i64>,
    /// The instants at which the credential was handed out, oldest first.
    pub requests: Seq<i64>,
}

/// The pool as the contracts see it.
pub struct PoolState {
    pub keys: Seq<KeyState>,
    /// Position of the credential handed out last.
    pub cursor: int,
    /// Requests allowed per credential within one minute.
    pub rpm_limit: u32,
    /// Requests allowed per credential within one day.
    pub rpd_limit: u32,
}

/// The instants of `times` that lie strictly after `cutoff`, in their order.
pub open spec fn later_than(times: Seq<i64>, cutoff: int) -> Seq<i64>
    decreases times.len(),
{
    if times.len() == 0 {
        Seq::empty()
    } else if times.last() > cutoff {
        later_than(times.drop_last(), cutoff).push(times.last())
    } else {
        later_than(times.drop_last(), cutoff)
    }
}

/// A credential brought up to date at `now`: a cool-down that has run out is
/// lifted, and usage older than a day is forgotten.
pub open spec fn refresh_key(k: KeyState, now: i64) -> KeyState {
    KeyState {
        key: k.key,
        disabled_until: match k.disabled_until {
            Some(until) => if now >= until { None } else { Some(until) },
            None => None,
        },
        requests: later_than(k.requests, now - MICROS_PER_DAY),
    }
}

/// The pool with every credential brought up to date at `now`.
pub open spec fn refresh(s: PoolState, now: i64) -> PoolState {
    PoolState {
        keys: Seq::new(s.keys.len(), |i: int| refresh_key(s.keys[i], now)),
        cursor: s.cursor,
        rpm_limit: s.rpm_limit,
        rpd_limit: s.rpd_limit,
    }
}

/// Whether an up-to-date credential may be handed out at `now`: it is not set
/// aside, it was used fewer than `rpd` times within the last day and fewer
/// than `rpm` times within the last minute.
pub open spec fn key_usable(k: KeyState, now: i64, rpm: u32, rpd: u32) -> bool {
    &&& k.disabled_until is None
    &&& k.requests.len() < rpd
    &&& later_than(k.requests, now - MICROS_PER_MINUTE).len() < rpm
}

/// The position looked at in step `offset` of a scan: `offset + 1` places
/// after the cursor, wrapping round at the end of the pool.
pub open spec fn probe(s: PoolState, offset: int) -> int {
    let p = s.cursor + 1 + offset;
    if p < s.keys.len() {
        p
    } else {
        p - s.keys.len()
    }
}

/// The first usable position met by a scan of the up-to-date pool `s` that
/// has already passed over the first `offset` positions.
pub open spec fn first_usable(s: PoolState, now: i64, offset: int) -> Option<int>
    decreases s.keys.len() - offset,
{
    if offset < 0 || offset >= s.keys.len() {
        None
    } else if key_usable(s.keys[probe(s, offset)], now, s.rpm_limit, s.rpd_limit) {
        Some(probe(s, offset))
    } else {
        first_usable(s, now, offset + 1)
    }
}

/// The pool after position `at` was handed out at `now`.
pub open spec fn record_use(s: PoolState, at: int, now: i64) -> PoolState {
    PoolState {
        keys: s.keys.update(
            at,
            KeyState {
                key: s.keys[at].key,
                disabled_until: s.keys[at].disabled_until,
                requests: s.keys[at].requests.push(now),
            },
        ),
        cursor: at,
        rpm_limit: s.rpm_limit,
        rpd_limit: s.rpd_limit,
    }
}

/// What asking the pool for a credential at `now` does: the pool afterwards,
/// and the secret handed out or the reason why there is none.
pub open spec fn acquire(s: PoolState, now: i64) -> (PoolState, Result<Seq<char>, KeyError>) {
    let fresh = refresh(s, now);
    if s.keys.len() == 0 {
        (fresh, Err(KeyError::NoKeysConfigured))
    } else {
        match first_usable(fresh, now, 0) {
            Some(at) => (record_use(fresh, at, now), Ok(fresh.keys[at].key)),
            None => (fresh, Err(KeyError::NoKeyAvailable)),
        }
    }
}

/// The first position at or after `from` that holds the secret `key`.
pub open spec fn position_of(keys: Seq<KeyState>, key: Seq<char>, from: int) -> Option<int>
    decreases keys.len() - from,
{
    if from < 0 || from >= keys.len() {
        None
    } else if keys[from].key == key {
        Some(from)
    } else {
        position_of(keys, key, from + 1)
    }
}

/// The pool after the first credential with the secret `key` was set aside
/// until `until`. A secret that the pool does not hold changes nothing.
pub open spec fn disable(s: PoolState, key: Seq<char>, until: i64) -> PoolState {
    match position_of(s.keys, key, 0) {
        Some(at) => PoolState {
            keys: s.keys.update(
                at,
                KeyState {
                    key: s.keys[at].key,
                    disabled_until: Some(until),
                    requests: s.keys[at].requests,
                },
            ),
            cursor: s.cursor,
            rpm_limit: s.rpm_limit,
            rpd_limit: s.rpd_limit,
        },
        None => s,
    }
}

/// The cursor points into the pool, or at zero when the pool is empty.
pub open spec fn pool_wf(s: PoolState) -> bool {
    0 <= s.cursor && (s.cursor < s.keys.len() || (s.keys.len() == 0 && s.cursor == 0))
}

/// The pool that `GeminiKeyManager::new` builds from `secrets`.
pub open spec fn initial_pool(secrets: Seq<Seq<char>>, rpm_limit: u32, rpd_limit: u32) -> PoolState {
    PoolState {
        keys: Seq::new(
            secrets.len(),
            |i: int| KeyState { key: secrets[i], disabled_until: None, requests: Seq::empty() },
        ),
        cursor: 0,
        rpm_limit,
        rpd_limit,
    }
}

struct ApiKey {
    key: String,
    disabled_until: Option<i64>,
    requests: Vec<i64>,
}

impl ApiKey {
    spec fn state(&self) -> KeyState {
        KeyState { key: self.key@, disabled_until: self.disabled_until, requests: self.requests@ }
    }
}

/// The credential pool.
pub struct GeminiKeyManager {
    keys: Vec<ApiKey>,
    last_used_key_index: usize,
    rpm_limit: u32,
    rpd_limit: u32,
}

impl View for GeminiKeyManager {
    type V = PoolState;

    closed spec fn view(&self) -> PoolState {
        PoolState {
            keys: Seq::new(self.keys@.len(), |i: int| self.keys@[i].state()),
            cursor: self.last_used_key_index as int,
            rpm_limit: self.rpm_limit,
            rpd_limit: self.rpd_limit,
        }
    }
}

/// The instants of `times` after `cutoff`, where a cutoff below every `i64`
/// is written `None`.
fn prune(times: &Vec<i64>, cutoff: Option<i64>) -> (kept: Vec<i64>)
    ensures
        cutoff matches Some(c) ==> kept@ == later_than(times@, c as int),
        cutoff is None ==> kept@ == times@,
{
    let mut kept: Vec<i64> = Vec::new();
    let mut i: usize = 0;
    while i < times.len()
        invariant
            i <= times.len(),
            cutoff matches Some(c) ==> kept@ == later_than(times@.take(i as int), c as int),
            cutoff is None ==> kept@ == times@.take(i as int),
        decreases times.len() - i,
    {
        let t = times[i];
        let keep = match cutoff {
            Some(c) => t > c,
            None => true,
        };
        proof {
            assert(times@.take(i + 1).drop_last() == times@.take(i as int));
            assert(times@.take(i + 1).last() == t);
        }
        if keep {
            kept.push(t);
        }
        i += 1;
    }
    proof {
        assert(times@.take(times.len() as int) == times@);
    }
    kept
}

/// How many instants of `times` lie after `cutoff`.
fn count_later(times: &Vec<i64>, cutoff: i64) -> (n: usize)
    ensures
        n == later_than(times@, cutoff as int).len(),
{
    let mut n: usize = 0;
    let mut i: usize = 0;
    while i < times.len()
        invariant
            i <= times.len(),
            n <= i,
            n == later_than(times@.take(i as int), cutoff as int).len(),
        decreases times.len() - i,
    {
        proof {
            assert(times@.take(i + 1).drop_last() == times@.take(i as int));
            assert(times@.take(i + 1).last() == times@[i as int]);
        }
        if times[i] > cutoff {
            n += 1;
        }
        i += 1;
    }
    proof {
        assert(times@.take(times.len() as int) == times@);
    }
    n
}

/// With a cutoff below every `i64` nothing is dropped.
proof fn lemma_later_than_all(times: Seq<i64>, cutoff: int)
    requires
        cutoff < i64::MIN,
    ensures
        later_than(times, cutoff) == times,
    decreases times.len(),
{
    if times.len() > 0 {
        lemma_later_than_all(times.drop_last(), cutoff);
        assert(times.drop_last().push(times.last()) == times);
    }
}

impl GeminiKeyManager {
    #[verifier::type_invariant]
    spec fn cursor_in_pool(self) -> bool {
        self.last_used_key_index < self.keys.len() || (self.keys.len() == 0
            && self.last_used_key_index == 0)
    }

    /// A pool of the given secrets, none of them used or set aside, with the
    /// cursor on the first one.
    pub fn new(api_keys: Vec<String>, rpm_limit: u32, rpd_limit: u32) -> (pool: Self)
        ensures
            pool@ == initial_pool(api_keys@.map_values(|k: String| k@), rpm_limit, rpd_limit),
            pool_wf(pool@),
    {
        let mut keys: Vec<ApiKey> = Vec::new();
        let mut i: usize = 0;
        while i < api_keys.len()
            invariant
                i <= api_keys.len(),
                keys@.len() == i,
                forall|j: int|
                    0 <= j < i ==> (#[trigger] keys@[j]).state() == (KeyState {
                        key: api_keys@[j]@,
                        disabled_until: None,
                        requests: Seq::empty(),
                    }),
            decreases api_keys.len() - i,
        {
            keys.push(ApiKey { key: api_keys[i].clone(), disabled_until: None, requests: Vec::new() });
            i += 1;
        }
        let pool = GeminiKeyManager { keys, last_used_key_index: 0, rpm_limit, rpd_limit };
        proof {
            let secrets = api_keys@.map_values(|k: String| k@);
            assert(pool@.keys =~= initial_pool(secrets, rpm_limit, rpd_limit).keys);
        }
        pool
    }

    /// How many credentials the pool holds.
    pub fn len(&self) -> (n: usize)
        ensures
            n == self@.keys.len(),
            pool_wf(self@),
    {
        proof {
            use_type_invariant(self);
        }
        self.keys.len()
    }

    /// Brings every credential up to date at `now`.
    fn refresh_all(&mut self, now: i64)
        ensures
            final(self)@ == refresh(old(self)@, now),
    {
        proof {
            use_type_invariant(&*self);
        }
        let day_ago = now.checked_sub(MICROS_PER_DAY);
        let n = self.keys.len();
        let mut i: usize = 0;
        while i < n
            invariant
                i <= n,
                n == self.keys.len(),
                n == old(self).keys.len(),
                self.cursor_in_pool(),
                self.last_used_key_index == old(self).last_used_key_index,
                self.rpm_limit == old(self).rpm_limit,
                self.rpd_limit == old(self).rpd_limit,
                day_ago == now.checked_sub(MICROS_PER_DAY),
                forall|j: int|
                    0 <= j < i ==> (#[trigger] self.keys@[j]).state() == refresh_key(
                        old(self).keys@[j].state(),
                        now,
                    ),
                forall|j: int| i <= j < n ==> self.keys@[j] == old(self).keys@[j],
            decreases n - i,
        {
            let ghost before = self.keys@[i as int].state();
            let kept = prune(&self.keys[i].requests, day_ago);
            proof {
                if day_ago is None {
                    lemma_later_than_all(before.requests, now - MICROS_PER_DAY);
                }
            }
            let lift = match self.keys[i].disabled_until {
                Some(until) => now >= until,
                None => false,
            };
            if lift {
                self.keys[i].disabled_until = None;
            }
            self.keys[i].requests = kept;
            i += 1;
        }
        proof {
            assert(self@.keys =~= refresh(old(self)@, now).keys);
        }
    }

    /// Whether the up-to-date credential at `at` may be handed out at `now`.
    fn is_usable(&self, at: usize, now: i64) -> (yes: bool)
        requires
            at < self@.keys.len(),
        ensures
            yes == key_usable(self@.keys[at as int], now, self@.rpm_limit, self@.rpd_limit),
    {
        let api_key = &self.keys[at];
        if api_key.disabled_until.is_some() {
            false
        } else if api_key.requests.len() >= self.rpd_limit as usize {
            false
        } else {
            match now.checked_sub(MICROS_PER_MINUTE) {
                Some(minute_ago) => count_later(&api_key.requests, minute_ago)
                    < self.rpm_limit as usize,
                None => {
                    proof {
                        lemma_later_than_all(api_key.requests@, now - MICROS_PER_MINUTE);
                    }
                    api_key.requests.len() < self.rpm_limit as usize
                },
            }
        }
    }

    /// Hands out the next usable credential at the instant `now`, which the
    /// caller has read from a clock.
    ///
    /// The scan starts just after the credential handed out last and takes
    /// the first one that is neither set aside nor over budget; its use is
    /// recorded and the cursor moves to it. Before the scan every credential
    /// is brought up to date, whatever the outcome.
    pub fn get_key_at(&mut self, now: i64) -> (outcome: Result<String, KeyError>)
        ensures
            final(self)@ == acquire(old(self)@, now).0,
            pool_wf(final(self)@),
            match acquire(old(self)@, now).1 {
                Ok(secret) => outcome matches Ok(key) && key@ == secret,
                Err(why) => outcome == Err::<String, KeyError>(why),
            },
    {
        proof {
            use_type_invariant(&*self);
        }
        self.refresh_all(now);
        proof {
            use_type_invariant(&*self);
        }
        let n = self.keys.len();
        if n == 0 {
            return Err(KeyError::NoKeysConfigured);
        }
        let ghost fresh = self@;
        let start = if self.last_used_key_index + 1 < n {
            self.last_used_key_index + 1
        } else {
            0
        };
        let mut i: usize = 0;
        while i < n
            invariant
                i <= n,
                n == self.keys.len(),
                n > 0,
                self.cursor_in_pool(),
                self@ == fresh,
                fresh == refresh(old(self)@, now),
                start < n,
                start as int == probe(fresh, 0),
                fresh.cursor < n,
                first_usable(fresh, now, 0) == first_usable(fresh, now, i as int),
            decreases n - i,
        {
            let at = if i < n - start {
                start + i
            } else {
                i - (n - start)
            };
            assert(at as int == probe(fresh, i as int));
            if self.is_usable(at, now) {
                let key = self.keys[at].key.clone();
                self.keys[at].requests.push(now);
                self.last_used_key_index = at;
                proof {
                    assert(first_usable(fresh, now, 0) == Some(at as int));
                    assert(self@.keys =~= record_use(fresh, at as int, now).keys);
                    assert(self@ == record_use(fresh, at as int, now));
                }
                return Ok(key);
            }
            i += 1;
        }
        Err(KeyError::NoKeyAvailable)
    }

    /// Hands out the next usable credential at the present moment.
    ///
    /// The clock decides which instant that is; whatever it reads, the
    /// outcome is the one that [`GeminiKeyManager::get_key_at`] gives for it.
    pub fn get_key(&mut self) -> (outcome: Result<String, KeyError>)
        ensures
            pool_wf(final(self)@),
            exists|now: i64|
                {
                    &&& 0 <= now
                    &&& in_calendar(now as int)
                    &&& final(self)@ == (#[trigger] acquire(old(self)@, now)).0
                    &&& match acquire(old(self)@, now).1 {
                        Ok(secret) => outcome matches Ok(key) && key@ == secret,
                        Err(why) => outcome == Err::<String, KeyError>(why),
                    }
                },
    {
        let now = utc_now_micros();
        self.get_key_at(now)
    }

    /// Sets the first credential with the secret `key` aside until the UTC
    /// day after the one containing `now` begins. A secret that the pool does
    /// not hold changes nothing; setting aside twice is the same as once.
    pub fn disable_key_at(&mut self, key: &str, now: i64)
        requires
            in_calendar(now as int),
        ensures
            final(self)@ == disable(old(self)@, key@, next_day_start(now as int) as i64),
            pool_wf(final(self)@),
    {
        proof {
            use_type_invariant(&*self);
        }
        let until = match start_of_next_utc_day(now) {
            Some(t) => t,
            None => { return ; },
        };
        let wanted = key.to_string();
        let n = self.keys.len();
        let mut i: usize = 0;
        while i < n
            invariant
                i <= n,
                n == self.keys.len(),
                wanted@ == key@,
                until == next_day_start(now as int),
                *self == *old(self),
                self.cursor_in_pool(),
                position_of(self@.keys, key@, 0) == position_of(self@.keys, key@, i as int),
            decreases n - i,
        {
            if self.keys[i].key == wanted {
                self.keys[i].disabled_until = Some(until);
                proof {
                    assert(position_of(old(self)@.keys, key@, 0) == Some(i as int));
                    assert(self@.keys =~= disable(old(self)@, key@, until).keys);
                    assert(self@ == disable(old(self)@, key@, until));
                }
                return ;
            }
            i += 1;
        }
    }

    /// Sets the first credential with the secret `key` aside until the next
    /// UTC midnight after the present moment.
    pub fn disable_key(&mut self, key: &str)
        ensures
            pool_wf(final(self)@),
            exists|now: i64|
                {
                    &&& 0 <= now
                    &&& in_calendar(now as int)
                    &&& final(self)@ == #[trigger] disable(
                        old(self)@,
                        key@,
                        next_day_start(now as int) as i64,
                    )
                },
    {
        let now = utc_now_micros();
        self.disable_key_at(key, now);
        proof {
            assert(self@ == disable(old(self)@, key@, next_day_start(now as int) as i64));
        }
    }
}

} // verus!
