//! What holds of the credential pool whatever its contents: a credential in
//! its cool-down is never handed out, a cool-down ends at its boundary, and
//! credentials that stay usable are handed out in turn.

use vstd::prelude::*;
use crate::clock::{
    in_calendar, lemma_day_bounds, next_day_start, MICROS_PER_DAY, MICROS_PER_MINUTE,
};
use crate::gemini::key_manager::{
    acquire, disable, first_usable, initial_pool, key_usable, later_than, pool_wf, position_of,
    probe, record_use, refresh, refresh_key, KeyState, PoolState,
};

verus! {

/// A scan that finds a position finds one inside the pool that is usable,
/// and has passed over unusable positions only.
pub proof fn lemma_first_usable(s: PoolState, now: i64, offset: int)
    requires
        pool_wf(s),
        0 <= offset,
    ensures
        match first_usable(s, now, offset) {
            Some(at) => {
                &&& 0 <= at < s.keys.len()
                &&& key_usable(s.keys[at], now, s.rpm_limit, s.rpd_limit)
                &&& exists|step: int|
                    offset <= step < s.keys.len() && at == #[trigger] probe(s, step)
            },
            None => forall|step: int|
                offset <= step < s.keys.len() ==> !key_usable(
                    s.keys[#[trigger] probe(s, step)],
                    now,
                    s.rpm_limit,
                    s.rpd_limit,
                ),
        },
    decreases s.keys.len() - offset,
{
    if offset < s.keys.len() {
        if !key_usable(s.keys[probe(s, offset)], now, s.rpm_limit, s.rpd_limit) {
            lemma_first_usable(s, now, offset + 1);
        }
    }
}

/// Asking for a credential keeps the number of credentials, the limits and
/// the secrets, and leaves the cursor inside the pool.
pub proof fn lemma_acquire_keeps_shape(s: PoolState, now: i64)
    requires
        pool_wf(s),
    ensures
        pool_wf(acquire(s, now).0),
        acquire(s, now).0.keys.len() == s.keys.len(),
        acquire(s, now).0.rpm_limit == s.rpm_limit,
        acquire(s, now).0.rpd_limit == s.rpd_limit,
        forall|i: int|
            0 <= i < s.keys.len() ==> (#[trigger] acquire(s, now).0.keys[i]).key == s.keys[i].key,
{
    lemma_first_usable(refresh(s, now), now, 0);
}

/// A credential is never handed out while its cool-down lasts: the one that
/// `acquire` returns at `now` is the one under the new cursor, and if it had
/// been set aside, then until an instant that `now` has reached. Its usage
/// within the last day and the last minute was below both limits.
pub proof fn lemma_acquired_key_is_enabled(s: PoolState, now: i64)
    requires
        pool_wf(s),
    ensures
        acquire(s, now).1 matches Ok(secret) ==> {
            let at = acquire(s, now).0.cursor;
            &&& 0 <= at < s.keys.len()
            &&& s.keys[at].key == secret
            &&& s.keys[at].disabled_until matches Some(until) ==> until <= now
            &&& key_usable(refresh_key(s.keys[at], now), now, s.rpm_limit, s.rpd_limit)
        },
{
    lemma_first_usable(refresh(s, now), now, 0);
}

/// While a credential is set aside, asking the pool never yields its
/// position.
pub proof fn lemma_disabled_key_is_skipped(s: PoolState, key: Seq<char>, until: i64, now: i64)
    requires
        pool_wf(s),
        now < until,
    ensures
        position_of(s.keys, key, 0) matches Some(at) ==> {
            let set_aside = disable(s, key, until);
            acquire(set_aside, now).1 is Ok ==> acquire(set_aside, now).0.cursor != at
        },
{
    lemma_position_of(s.keys, key, 0);
    lemma_acquired_key_is_enabled(disable(s, key, until), now);
}

/// A position found for a secret lies in the pool and holds that secret.
pub proof fn lemma_position_of(keys: Seq<KeyState>, key: Seq<char>, from: int)
    requires
        0 <= from,
    ensures
        match position_of(keys, key, from) {
            Some(at) => from <= at < keys.len() && keys[at].key == key,
            None => forall|i: int| from <= i < keys.len() ==> (#[trigger] keys[i]).key != key,
        },
    decreases keys.len() - from,
{
    if from < keys.len() && keys[from].key != key {
        lemma_position_of(keys, key, from + 1);
    }
}

/// A cool-down ends at its boundary: a credential set aside at `set_at` is
/// no longer set aside in the pool brought up to date at any instant from
/// the next UTC midnight on, and is handed out again as soon as the scan
/// reaches it within its budget.
pub proof fn lemma_disabled_key_returns(s: PoolState, key: Seq<char>, set_at: i64, now: i64)
    requires
        pool_wf(s),
        in_calendar(set_at as int),
        now >= next_day_start(set_at as int),
    ensures
        set_at < next_day_start(set_at as int) <= i64::MAX,
        position_of(s.keys, key, 0) matches Some(at) ==> {
            let set_aside = disable(s, key, next_day_start(set_at as int) as i64);
            &&& refresh(set_aside, now).keys[at].disabled_until is None
            &&& refresh(set_aside, now).keys[at].requests == refresh(s, now).keys[at].requests
            &&& key_usable(refresh(set_aside, now).keys[at], now, s.rpm_limit, s.rpd_limit) <==> {
                &&& refresh(s, now).keys[at].requests.len() < s.rpd_limit
                &&& crate::gemini::key_manager::later_than(
                    refresh(s, now).keys[at].requests,
                    now - crate::clock::MICROS_PER_MINUTE,
                ).len() < s.rpm_limit
            }
        },
{
    lemma_day_bounds(set_at as int);
    lemma_position_of(s.keys, key, 0);
}

/// Every credential of the pool is usable at `now`.
pub open spec fn all_usable(s: PoolState, now: i64) -> bool {
    forall|i: int|
        0 <= i < s.keys.len() ==> key_usable(
            #[trigger] refresh(s, now).keys[i],
            now,
            s.rpm_limit,
            s.rpd_limit,
        )
}

/// The credential whose turn it is, the one just after the cursor, is
/// usable at `now`.
pub open spec fn next_usable(s: PoolState, now: i64) -> bool {
    s.keys.len() > 0 && key_usable(refresh(s, now).keys[probe(s, 0)], now, s.rpm_limit, s.rpd_limit)
}

/// The pool after the first `calls` of a series of requests made at the
/// instants `times`.
pub open spec fn after_calls(s: PoolState, times: Seq<i64>, calls: int) -> PoolState
    decreases calls,
{
    if calls <= 0 {
        s
    } else {
        acquire(after_calls(s, times, calls - 1), times[calls - 1]).0
    }
}

/// At each request of the series the credential whose turn it is is
/// usable.
pub open spec fn usable_in_turn(s: PoolState, times: Seq<i64>) -> bool {
    forall|k: int|
        0 <= k < times.len() ==> next_usable(#[trigger] after_calls(s, times, k), times[k])
}

/// Every credential is usable at each request of the series.
pub open spec fn always_usable(s: PoolState, times: Seq<i64>) -> bool {
    forall|k: int|
        0 <= k < times.len() ==> all_usable(#[trigger] after_calls(s, times, k), times[k])
}

/// A series throughout which every credential is usable is one in which
/// the credential whose turn it is is usable.
pub proof fn lemma_always_usable_is_usable_in_turn(s: PoolState, times: Seq<i64>)
    requires
        pool_wf(s),
        s.keys.len() > 0,
        always_usable(s, times),
    ensures
        usable_in_turn(s, times),
{
    assert forall|k: int| 0 <= k < times.len() implies next_usable(
        #[trigger] after_calls(s, times, k),
        times[k],
    ) by {
        let before = after_calls(s, times, k);
        lemma_secrets_kept(s, times, k);
        assert(all_usable(before, times[k]));
        assert(key_usable(
            refresh(before, times[k]).keys[probe(before, 0)],
            times[k],
            before.rpm_limit,
            before.rpd_limit,
        ));
    }
}

/// When the credential just after the cursor is usable, it is the one
/// handed out.
pub proof fn lemma_usable_pool_takes_next(s: PoolState, now: i64)
    requires
        pool_wf(s),
        next_usable(s, now),
    ensures
        acquire(s, now).0 == record_use(refresh(s, now), probe(s, 0), now),
        acquire(s, now).1 == Ok::<Seq<char>, crate::gemini::key_manager::KeyError>(
            s.keys[probe(s, 0)].key,
        ),
        acquire(s, now).0.cursor == probe(s, 0),
{
    let fresh = refresh(s, now);
    assert(probe(fresh, 0) == probe(s, 0));
}

/// Credentials that are usable when their turn comes are handed out in
/// turn: the request number `k` of the series yields the credential `k + 1`
/// places after the starting cursor, wrapping round.
pub proof fn lemma_round_robin_order(s: PoolState, times: Seq<i64>, k: int)
    requires
        pool_wf(s),
        s.keys.len() > 0,
        usable_in_turn(s, times),
        0 <= k < times.len(),
        k < s.keys.len(),
    ensures
        pool_wf(after_calls(s, times, k)),
        after_calls(s, times, k).keys.len() == s.keys.len(),
        after_calls(s, times, k + 1).cursor == probe(s, k),
        acquire(after_calls(s, times, k), times[k]).1 == Ok::<
            Seq<char>,
            crate::gemini::key_manager::KeyError,
        >(s.keys[probe(s, k)].key),
    decreases k,
{
    let before = after_calls(s, times, k);
    if k > 0 {
        lemma_round_robin_order(s, times, k - 1);
        let earlier = after_calls(s, times, k - 1);
        lemma_acquire_keeps_shape(earlier, times[k - 1]);
        assert(before.cursor == probe(s, k - 1));
        lemma_secrets_kept(s, times, k);
    }
    assert(next_usable(before, times[k]));
    lemma_usable_pool_takes_next(before, times[k]);
    assert(probe(before, 0) == probe(s, k));
}

/// A series of requests keeps the size of the pool, its limits and its
/// secrets.
pub proof fn lemma_secrets_kept(s: PoolState, times: Seq<i64>, calls: int)
    requires
        pool_wf(s),
    ensures
        pool_wf(after_calls(s, times, calls)),
        after_calls(s, times, calls).keys.len() == s.keys.len(),
        after_calls(s, times, calls).rpm_limit == s.rpm_limit,
        after_calls(s, times, calls).rpd_limit == s.rpd_limit,
        forall|i: int|
            0 <= i < s.keys.len() ==> (#[trigger] after_calls(s, times, calls).keys[i]).key
                == s.keys[i].key,
    decreases calls,
{
    if calls > 0 {
        lemma_secrets_kept(s, times, calls - 1);
        lemma_acquire_keeps_shape(after_calls(s, times, calls - 1), times[calls - 1]);
    }
}

/// Some request of the series yields the position `at`.
pub open spec fn yielded(s: PoolState, times: Seq<i64>, at: int) -> bool {
    exists|k: int| 0 <= k < times.len() && (#[trigger] after_calls(s, times, k + 1)).cursor == at
}

/// Round-robin fairness: with as many requests as there are credentials,
/// each of them usable when its turn comes, every credential is handed out
/// exactly once. Every request succeeds, no two requests yield the same
/// position, and every position is yielded by some request.
pub proof fn lemma_round_robin_fairness(s: PoolState, times: Seq<i64>)
    requires
        pool_wf(s),
        s.keys.len() > 0,
        times.len() == s.keys.len(),
        usable_in_turn(s, times),
    ensures
        forall|k: int|
            0 <= k < times.len() ==> acquire(#[trigger] after_calls(s, times, k), times[k]).1
                is Ok,
        forall|j: int, k: int|
            0 <= j < k < times.len() ==> (#[trigger] after_calls(s, times, j + 1)).cursor != (
            #[trigger] after_calls(s, times, k + 1)).cursor,
        forall|at: int| 0 <= at < s.keys.len() ==> #[trigger] yielded(s, times, at),
{
    let n = s.keys.len() as int;
    assert forall|k: int| 0 <= k < times.len() implies acquire(
        #[trigger] after_calls(s, times, k),
        times[k],
    ).1 is Ok && after_calls(s, times, k + 1).cursor == probe(s, k) by {
        lemma_round_robin_order(s, times, k);
    }
    assert forall|j: int, k: int| 0 <= j < k < times.len() implies (#[trigger] after_calls(
        s,
        times,
        j + 1,
    )).cursor != (#[trigger] after_calls(s, times, k + 1)).cursor by {
        lemma_round_robin_order(s, times, j);
        lemma_round_robin_order(s, times, k);
    }
    assert forall|at: int| 0 <= at < n implies #[trigger] yielded(s, times, at) by {
        let k = if at > s.cursor {
            at - s.cursor - 1
        } else {
            at - s.cursor - 1 + n
        };
        lemma_round_robin_order(s, times, k);
        assert(after_calls(s, times, k + 1).cursor == at);
    }
}

/// A credential that was never handed out or set aside.
pub open spec fn untouched(k: KeyState) -> bool {
    k.disabled_until is None && k.requests.len() == 0
}

/// In a pool of untouched credentials with room for a request in both
/// budgets, the first `calls` requests of a series, whenever they are made,
/// each find the credential whose turn it is usable, and leave untouched the
/// credentials whose turn has not come.
pub proof fn lemma_untouched_pool_serves(s: PoolState, times: Seq<i64>, calls: int)
    requires
        pool_wf(s),
        s.rpm_limit > 0,
        s.rpd_limit > 0,
        forall|i: int| 0 <= i < s.keys.len() ==> untouched(#[trigger] s.keys[i]),
        0 <= calls <= times.len(),
        calls <= s.keys.len(),
    ensures
        forall|k: int|
            0 <= k < calls ==> next_usable(#[trigger] after_calls(s, times, k), times[k]),
        pool_wf(after_calls(s, times, calls)),
        after_calls(s, times, calls).keys.len() == s.keys.len(),
        calls > 0 ==> after_calls(s, times, calls).cursor == probe(s, calls - 1),
        forall|p: int|
            0 <= p < s.keys.len() && (forall|j: int| 0 <= j < calls ==> #[trigger] probe(s, j) != p)
                ==> untouched(#[trigger] after_calls(s, times, calls).keys[p]),
    decreases calls,
{
    if calls > 0 {
        let k = calls - 1;
        lemma_untouched_pool_serves(s, times, k);
        lemma_secrets_kept(s, times, k);
        let before = after_calls(s, times, k);
        let now = times[k];
        let turn = probe(before, 0);
        assert(turn == probe(s, k));
        assert(untouched(before.keys[turn])) by {
            assert forall|j: int| 0 <= j < k implies #[trigger] probe(s, j) != turn by {}
        }
        assert(later_than(before.keys[turn].requests, now - MICROS_PER_DAY).len() == 0);
        assert(later_than(
            refresh(before, now).keys[turn].requests,
            now - MICROS_PER_MINUTE,
        ).len() == 0);
        assert(next_usable(before, now));
        lemma_usable_pool_takes_next(before, now);
        let after = after_calls(s, times, calls);
        assert(after == record_use(refresh(before, now), turn, now));
        assert forall|p: int|
            0 <= p < s.keys.len() && (forall|j: int|
                0 <= j < calls ==> #[trigger] probe(s, j) != p) implies untouched(
            #[trigger] after.keys[p],
        ) by {
            assert(probe(s, k) != p);
            assert forall|j: int| 0 <= j < k implies #[trigger] probe(s, j) != p by {}
            assert(untouched(before.keys[p]));
            assert(later_than(before.keys[p].requests, now - MICROS_PER_DAY).len() == 0);
            assert(after.keys[p] == refresh(before, now).keys[p]);
        }
        assert forall|j: int| 0 <= j < calls implies next_usable(
            #[trigger] after_calls(s, times, j),
            times[j],
        ) by {}
    }
}

/// A new pool is fair from the start: with limits that allow a request, as
/// many requests as there are credentials, whenever they are made, hand out
/// every credential exactly once.
pub proof fn lemma_new_pool_is_fair(
    secrets: Seq<Seq<char>>,
    rpm_limit: u32,
    rpd_limit: u32,
    times: Seq<i64>,
)
    requires
        secrets.len() > 0,
        rpm_limit > 0,
        rpd_limit > 0,
        times.len() == secrets.len(),
    ensures
        usable_in_turn(initial_pool(secrets, rpm_limit, rpd_limit), times),
        forall|k: int|
            0 <= k < times.len() ==> acquire(
                #[trigger] after_calls(initial_pool(secrets, rpm_limit, rpd_limit), times, k),
                times[k],
            ).1 is Ok,
        forall|j: int, k: int|
            0 <= j < k < times.len() ==> (#[trigger] after_calls(
                initial_pool(secrets, rpm_limit, rpd_limit),
                times,
                j + 1,
            )).cursor != (#[trigger] after_calls(
                initial_pool(secrets, rpm_limit, rpd_limit),
                times,
                k + 1,
            )).cursor,
        forall|at: int|
            0 <= at < secrets.len() ==> #[trigger] yielded(
                initial_pool(secrets, rpm_limit, rpd_limit),
                times,
                at,
            ),
{
    let s = initial_pool(secrets, rpm_limit, rpd_limit);
    lemma_untouched_pool_serves(s, times, times.len() as int);
    lemma_round_robin_fairness(s, times);
}

} // verus!
