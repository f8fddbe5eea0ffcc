//! When a request that failed is sent again. Times are in milliseconds.

use crate::text::{self, parse_decimal};
use vstd::arithmetic::power2::pow2;
use vstd::prelude::*;

verus! {

/// The shortest time between an attempt that failed and the next.
pub const BASE_BACKOFF: u64 = 1000;

/// The longest time between an attempt that failed and the next.
pub const MAX_BACKOFF: u64 = 8000;

/// The longest time, in seconds, for which a provider can put off a request.
pub const MAX_RETRY_AFTER: u64 = 30;

/// The time to wait after the attempt with this number, counted from 0: it doubles from one
/// attempt to the next and is capped.
pub open spec fn backoff(attempt: nat) -> int {
    if BASE_BACKOFF * pow2(attempt) < MAX_BACKOFF {
        BASE_BACKOFF * pow2(attempt)
    } else {
        MAX_BACKOFF as int
    }
}

/// The time to wait after the attempt with this number, counted from 0.
pub fn backoff_delay(attempt: u32) -> (delay: u64)
    ensures
        delay == backoff(attempt as nat),
{
    let mut delay: u64 = BASE_BACKOFF;
    let mut doubled: u32 = 0;
    proof {
        vstd::arithmetic::power2::lemma2_to64();
    }
    while doubled < attempt && delay < MAX_BACKOFF
        invariant
            doubled <= attempt,
            delay == backoff(doubled as nat),
        decreases attempt - doubled,
    {
        proof {
            vstd::arithmetic::power2::lemma_pow2_unfold((doubled + 1) as nat);
        }
        delay = if delay * 2 < MAX_BACKOFF {
            delay * 2
        } else {
            MAX_BACKOFF
        };
        doubled += 1;
    }
    proof {
        if doubled < attempt {
            law_backoff_grows_to_its_cap(doubled as nat, attempt as nat);
        }
    }
    delay
}

/// The time that a request has still to wait, so that `min_gap` lies between it and the slot
/// that the last request reserved.
pub open spec fn wait(last: Option<u64>, now: u64, min_gap: u64) -> int {
    match last {
        Some(last) => if last + min_gap > now {
            last + min_gap - now
        } else {
            0
        },
        None => 0,
    }
}

/// The time that a request has still to wait, by the readings of a clock for the slot that the
/// last request reserved and for now.
pub fn throttle_wait(last: Option<u64>, now: u64, min_gap: u64) -> (delay: u64)
    ensures
        delay == if wait(last, now, min_gap) <= u64::MAX {
            wait(last, now, min_gap)
        } else {
            u64::MAX as int
        },
{
    match last {
        Some(last) => if last >= now {
            (last - now).saturating_add(min_gap)
        } else {
            min_gap.saturating_sub(now - last)
        },
        None => 0,
    }
}

/// Whether a response with this status says that the provider is overloaded, or takes no more
/// requests for a while.
pub open spec fn retryable(status: u16) -> bool {
    status == 429 || status == 503 || status == 529
}

/// Whether a request that was answered with this status is worth to be sent again.
pub fn is_retryable_status(status: u16) -> (worth: bool)
    ensures
        worth == retryable(status),
{
    status == 429 || status == 503 || status == 529
}

/// The seconds that a `Retry-After` header asks for, capped.
pub open spec fn retry_after(header: Seq<char>) -> Option<int> {
    match text::decimal(text::trimmed(header)) {
        Some(seconds) => if seconds > u64::MAX {
            None
        } else if seconds > MAX_RETRY_AFTER {
            Some(MAX_RETRY_AFTER as int)
        } else {
            Some(seconds as int)
        },
        None => None,
    }
}

/// The seconds that a `Retry-After` header asks for, capped; `None` where there is none or it
/// is no whole number.
pub fn parse_retry_after(header: Option<&str>) -> (seconds: Option<u64>)
    ensures
        match header {
            Some(header) => match seconds {
                Some(seconds) => retry_after(header@) == Some(seconds as int),
                None => retry_after(header@) is None,
            },
            None => seconds is None,
        },
{
    match header {
        Some(header) => match parse_decimal(header.trim(), u64::MAX) {
            Some(seconds) => if seconds > MAX_RETRY_AFTER {
                Some(MAX_RETRY_AFTER)
            } else {
                Some(seconds)
            },
            None => None,
        },
        None => None,
    }
}

/// The waits never get shorter from one attempt to the next, and stay between the two bounds.
pub proof fn law_backoff_grows_to_its_cap(attempt: nat, later: nat)
    requires
        attempt <= later,
    ensures
        BASE_BACKOFF <= backoff(attempt) <= backoff(later) <= MAX_BACKOFF,
{
    vstd::arithmetic::power2::lemma2_to64();
    vstd::arithmetic::power2::lemma_pow2_pos(attempt);
    if attempt < later {
        vstd::arithmetic::power2::lemma_pow2_strictly_increases(attempt, later);
    }
}

/// A provider puts off a request by no more than the cap.
pub proof fn law_retry_after_is_capped(header: Seq<char>)
    ensures
        retry_after(header) matches Some(seconds) ==> 0 <= seconds <= MAX_RETRY_AFTER,
{
}

/// Once the wait is over, `min_gap` lies between the request and the slot of the last one.
pub proof fn law_wait_keeps_the_gap(last: u64, now: u64, min_gap: u64)
    ensures
        now + wait(Some(last), now, min_gap) >= last + min_gap,
        wait(Some(last), now, min_gap) > 0 ==> now + wait(Some(last), now, min_gap) == last
            + min_gap,
{
}

/// The waits start at a second and double from one attempt to the next, until they reach eight
/// seconds.
pub proof fn law_backoff_doubles(attempt: nat)
    ensures
        backoff(0) == 1000,
        backoff(attempt + 1) == if 2 * backoff(attempt) < 8000 {
            2 * backoff(attempt)
        } else {
            8000
        },
{
    vstd::arithmetic::power2::lemma2_to64();
    vstd::arithmetic::power2::lemma_pow2_pos(attempt);
    vstd::arithmetic::power2::lemma_pow2_unfold(attempt + 1);
}

/// A wait is never longer than the gap asks for: the first request does not wait, nor does one
/// that comes late enough, and no other waits beyond the gap.
pub proof fn law_wait_is_no_longer_than_the_gap(last: u64, now: u64, min_gap: u64)
    ensures
        wait(None, now, min_gap) == 0,
        wait(Some(last), now, min_gap) >= 0,
        now >= last + min_gap ==> wait(Some(last), now, min_gap) == 0,
        now < last + min_gap ==> wait(Some(last), now, min_gap) == last + min_gap - now,
{
}

/// A request is sent again only for a status that says to come back later.
pub proof fn law_only_overload_is_retried(status: u16)
    ensures
        retryable(status) <==> (status == 429 || status == 503 || status == 529),
{
}

/// A whole number of seconds, with or without white space around it, is taken as it is up to
/// half a minute and capped there. What is no whole number, or one that is out of range, is
/// taken for nothing.
pub proof fn law_retry_after_is_its_number(header: Seq<char>)
    ensures
        match text::decimal(text::trimmed(header)) {
            Some(seconds) => {
                &&& seconds <= 30 ==> retry_after(header) == Some(seconds as int)
                &&& 30 < seconds <= u64::MAX ==> retry_after(header) == Some(30int)
                &&& seconds > u64::MAX ==> retry_after(header) is None
            },
            None => retry_after(header) is None,
        },
{
}

} // verus!
