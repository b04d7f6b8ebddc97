use vstd::prelude::*;
use crate::amount::{U256, lemma_u256_bound, u256_add, u256_full_mul, u256_lt, u256_sub, u512_div};

verus! {

/// The instant of evaluation together with an order's decay window.
#[derive(Clone, Copy, Debug, PartialEq, Eq)]
pub struct DecayInformation {
    pub now: U256,
    pub decay_start_time: U256,
    pub decay_end_time: U256,
}

/// Why a decayed amount could not be computed.
#[derive(Clone, Copy, Debug, PartialEq, Eq)]
pub enum DecayError {
    /// The window ends before it starts, which no valid order has.
    EndTimeBeforeStartTime,
}

/// The amount of a leg at `now`: `s` until `start`, `e` from `end` on, and in between the
/// linear interpolation, truncated toward `s`.
pub open spec fn decay_value(now: nat, start: nat, end: nat, s: nat, e: nat) -> nat {
    if end <= now {
        e
    } else if now <= start {
        s
    } else if e < s {
        (s - (s - e) * (now - start) / (end - start)) as nat
    } else {
        (s + (e - s) * (now - start) / (end - start)) as nat
    }
}

/// The change in amount after `elapsed` of `duration`, for a change `diff` over the whole window.
proof fn lemma_partial_change(diff: nat, elapsed: nat, duration: nat)
    requires
        0 < elapsed < duration,
    ensures
        diff * elapsed / duration <= diff,
{
    assert(diff * elapsed <= diff * duration) by (nonlinear_arith)
        requires
            elapsed < duration,
    ;
    vstd::arithmetic::div_mod::lemma_div_is_ordered(
        (diff * elapsed) as int,
        (diff * duration) as int,
        duration as int,
    );
    vstd::arithmetic::div_mod::lemma_div_by_multiple(diff as int, duration as int);
}

/// Evaluates the amount of one leg of an order at `info.now`.
///
/// Fails exactly when the decay window ends before it starts.
pub fn decay(info: DecayInformation, start_amount: U256, end_amount: U256) -> (r: Result<
    U256,
    DecayError,
>)
    ensures
        r is Err <==> info.decay_end_time.value() < info.decay_start_time.value(),
        r matches Ok(v) ==> v.value() == decay_value(
            info.now.value(),
            info.decay_start_time.value(),
            info.decay_end_time.value(),
            start_amount.value(),
            end_amount.value(),
        ),
{
    let now = info.now;
    let start = info.decay_start_time;
    let end = info.decay_end_time;
    if u256_lt(end, start) {
        Err(DecayError::EndTimeBeforeStartTime)
    } else if !u256_lt(now, end) {
        Ok(end_amount)
    } else if !u256_lt(start, now) {
        Ok(start_amount)
    } else {
        let elapsed = u256_sub(now, start);
        let duration = u256_sub(end, start);
        if u256_lt(end_amount, start_amount) {
            let diff = u256_sub(start_amount, end_amount);
            let part = u512_div(u256_full_mul(diff, elapsed), duration.widen());
            proof {
                lemma_partial_change(diff.value(), elapsed.value(), duration.value());
                lemma_u256_bound(diff);
            }
            match part.narrow() {
                Some(p) => Ok(u256_sub(start_amount, p)),
                None => Err(DecayError::EndTimeBeforeStartTime),
            }
        } else {
            let diff = u256_sub(end_amount, start_amount);
            let part = u512_div(u256_full_mul(diff, elapsed), duration.widen());
            proof {
                lemma_partial_change(diff.value(), elapsed.value(), duration.value());
                lemma_u256_bound(diff);
                lemma_u256_bound(end_amount);
            }
            match part.narrow() {
                Some(p) => Ok(u256_add(start_amount, p)),
                None => Err(DecayError::EndTimeBeforeStartTime),
            }
        }
    }
}

/// At the start of a window of positive length the amount is the start amount.
pub proof fn lemma_decay_at_start(start: nat, end: nat, s: nat, e: nat)
    requires
        start < end,
    ensures
        decay_value(start, start, end, s, e) == s,
{
}

/// At the end of the window the amount is the end amount.
pub proof fn lemma_decay_at_end(start: nat, end: nat, s: nat, e: nat)
    requires
        start <= end,
    ensures
        decay_value(end, start, end, s, e) == e,
{
}

/// A leg whose amounts are equal keeps that amount at every instant.
pub proof fn lemma_decay_constant(now: nat, start: nat, end: nat, s: nat)
    requires
        start <= end,
    ensures
        decay_value(now, start, end, s, s) == s,
{
    if start < now < end {
        assert((s - s) * (now - start) == 0) by (nonlinear_arith);
    }
}

/// The decayed amount stays between the start and end amounts.
pub proof fn lemma_decay_between(now: nat, start: nat, end: nat, s: nat, e: nat)
    requires
        start <= end,
    ensures
        s <= e ==> s <= decay_value(now, start, end, s, e) <= e,
        e <= s ==> e <= decay_value(now, start, end, s, e) <= s,
{
    if start < now < end {
        if e < s {
            lemma_partial_change((s - e) as nat, (now - start) as nat, (end - start) as nat);
        } else {
            lemma_partial_change((e - s) as nat, (now - start) as nat, (end - start) as nat);
        }
    }
}

/// As time moves forward the amount moves from the start amount toward the end amount,
/// never back.
pub proof fn lemma_decay_monotonic(t1: nat, t2: nat, start: nat, end: nat, s: nat, e: nat)
    requires
        start <= end,
        t1 <= t2,
    ensures
        s <= e ==> decay_value(t1, start, end, s, e) <= decay_value(t2, start, end, s, e),
        e <= s ==> decay_value(t2, start, end, s, e) <= decay_value(t1, start, end, s, e),
{
    lemma_decay_between(t1, start, end, s, e);
    lemma_decay_between(t2, start, end, s, e);
    if start < t1 && t2 < end {
        let d = (end - start) as nat;
        let diff: nat = if e < s { (s - e) as nat } else { (e - s) as nat };
        let x1 = (t1 - start) as nat;
        let x2 = (t2 - start) as nat;
        assert(diff * x1 <= diff * x2) by (nonlinear_arith)
            requires
                x1 <= x2,
        ;
        vstd::arithmetic::div_mod::lemma_div_is_ordered((diff * x1) as int, (diff * x2) as int, d as int);
        lemma_partial_change(diff, x2, d);
        if e < s {
            assert(decay_value(t1, start, end, s, e) == s - diff * x1 / d);
            assert(decay_value(t2, start, end, s, e) == s - diff * x2 / d);
        }
    }
}

} // verus!
