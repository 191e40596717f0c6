//! The clock, in whole seconds.

use vstd::prelude::*;

use crate::error::{Error, ErrorModel, Fault};
use crate::text::{decimal, push_decimal, push_signed, signed_decimal};

verus! {

broadcast use vstd::string::group_string_axioms;

/// `SystemTime::elapsed` of `UNIX_EPOCH`: the whole seconds that have passed since 1970, or nothing
/// where the system clock stands before that. What the clock shows is left open.
#[verifier::external_body]
fn seconds_since_epoch() -> (r: Option<u64>) {
    std::time::UNIX_EPOCH.elapsed().ok().map(|elapsed| elapsed.as_secs())
}

/// What a reading of the clock means as a point in time.
pub fn point_in_time(reading: Option<u64>) -> (r: Result<i64, Error>)
    ensures
        match reading {
            None => r matches Err(error) && error@ == ErrorModel::ClockBeforeEpoch,
            Some(seconds) => r matches Ok(now) && now == seconds as i64,
        },
{
    match reading {
        None => Err(Fault::ClockBeforeEpoch),
        Some(seconds) => Ok(#[verifier::truncate] (seconds as i64)),
    }
}

/// The current time.
pub fn unix_time() -> (r: Result<i64, Error>)
    ensures
        r matches Err(error) ==> error@ == ErrorModel::ClockBeforeEpoch,
{
    point_in_time(seconds_since_epoch())
}

/// `left - right`, or the nearest number that fits.
pub open spec fn saturating_difference(left: i64, right: i64) -> i64 {
    if left - right > i64::MAX {
        i64::MAX
    } else if left - right < i64::MIN {
        i64::MIN
    } else {
        (left - right) as i64
    }
}

/// `left + right`, or the nearest number that fits.
pub open spec fn saturating_sum(left: i64, right: i64) -> i64 {
    if left + right > i64::MAX {
        i64::MAX
    } else if left + right < i64::MIN {
        i64::MIN
    } else {
        (left + right) as i64
    }
}

/// `left + right`, or the nearest number that fits.
pub fn add_saturating(left: i64, right: i64) -> (r: i64)
    ensures
        r == saturating_sum(left, right),
        i64::MIN <= left + right <= i64::MAX ==> r == left + right,
        left + right > i64::MAX ==> r == i64::MAX,
        left + right < i64::MIN ==> r == i64::MIN,
{
    match left.checked_add(right) {
        Some(sum) => sum,
        None => if right > 0 {
            i64::MAX
        } else {
            i64::MIN
        },
    }
}

/// A remaining time in words: minutes and seconds, or seconds alone below one minute. Of a time
/// that has passed, the seconds beyond whole minutes, with a minus sign.
pub open spec fn remaining_text(expires_at: i64, now: i64) -> Seq<char> {
    let left = saturating_difference(expires_at, now);
    if left >= 60 {
        let seconds = left as int % 60;
        decimal((left as int / 60) as nat) + "m "@ + if seconds < 10 {
            "0"@
        } else {
            ""@
        } + decimal(seconds as nat) + "s"@
    } else if left >= 0 {
        decimal(left as nat) + "s"@
    } else {
        signed_decimal(-(-(left as int) % 60)) + "s"@
    }
}

/// The time that is left until `expires_at`, in words.
pub fn remaining_between(expires_at: i64, now: i64) -> (r: String)
    ensures
        r@ == remaining_text(expires_at, now),
{
    let left: i64 = match expires_at.checked_sub(now) {
        Some(difference) => difference,
        None => if now < 0 {
            i64::MAX
        } else {
            i64::MIN
        },
    };
    let mut out: String = String::new();
    if left >= 60 {
        let seconds: i64 = left % 60;
        push_decimal(&mut out, (left / 60) as u64);
        assert(out@ =~= decimal((left as int / 60) as nat));
        out.append("m ");
        if seconds < 10 {
            out.append("0");
        } else {
            out.append("");
        }
        push_decimal(&mut out, seconds as u64);
        out.append("s");
        assert(out@ =~= remaining_text(expires_at, now));
    } else if left >= 0 {
        push_decimal(&mut out, left as u64);
        assert(out@ =~= decimal(left as nat));
        out.append("s");
    } else {
        let seconds: i64 = if left == i64::MIN {
            -8
        } else {
            -((-left) % 60)
        };
        push_signed(&mut out, seconds);
        assert(out@ =~= signed_decimal(-(-(left as int) % 60)));
        out.append("s");
    }
    out
}

/// The time that is left until `expires_at`, in words.
pub fn remaining_time(expires_at: i64) -> (r: Result<String, Error>)
    ensures
        match r {
            Ok(words) => exists|now: i64| words@ == #[trigger] remaining_text(expires_at, now),
            Err(error) => error@ == ErrorModel::ClockBeforeEpoch,
        },
{
    match unix_time() {
        Ok(now) => Ok(remaining_between(expires_at, now)),
        Err(error) => Err(error),
    }
}

/// Points in time and spans add up as integers do. Only where the sum or the difference fits in no
/// 64 bits, the nearest number that does is taken.
pub proof fn law_time_adds_up(left: i64, right: i64)
    ensures
        i64::MIN <= left + right <= i64::MAX ==> saturating_sum(left, right) == left + right,
        left + right > i64::MAX ==> saturating_sum(left, right) == i64::MAX,
        left + right < i64::MIN ==> saturating_sum(left, right) == i64::MIN,
        i64::MIN <= left - right <= i64::MAX ==> saturating_difference(left, right) == left - right,
        left - right > i64::MAX ==> saturating_difference(left, right) == i64::MAX,
        left - right < i64::MIN ==> saturating_difference(left, right) == i64::MIN,
{
}

proof fn lemma_two_digits(seconds: nat)
    requires
        seconds < 60,
    ensures
        seconds < 10 ==> decimal(seconds) == seq![(48 + seconds % 10) as char] && seconds / 10 == 0,
        seconds >= 10 ==> decimal(seconds) == seq![
            (48 + seconds / 10) as char,
            (48 + seconds % 10) as char,
        ],
{
    if seconds >= 10 {
        assert(decimal(seconds / 10) =~= seq![(48 + seconds / 10) as char]);
        assert(decimal(seconds) =~= seq![
            (48 + seconds / 10) as char,
            (48 + seconds % 10) as char,
        ]);
    } else {
        assert(decimal(seconds) =~= seq![(48 + seconds % 10) as char]);
    }
}

/// Below one minute the words for a remaining time are its seconds and an `s`.
pub proof fn law_remaining_seconds_are_told(expires_at: i64, now: i64)
    requires
        0 <= expires_at - now < 60,
    ensures
        remaining_text(expires_at, now) == decimal((expires_at - now) as nat) + seq!['s'],
{
    reveal_strlit("s");
    assert("s"@ =~= seq!['s']);
}

/// From one minute on the words for a remaining time are its minutes, an `m`, a blank, its seconds
/// beyond those with two digits, and an `s`.
pub proof fn law_remaining_minutes_are_told(
    expires_at: i64,
    now: i64,
    minutes: nat,
    seconds: nat,
)
    requires
        minutes > 0,
        seconds < 60,
        expires_at - now == 60 * minutes + seconds,
        expires_at - now <= i64::MAX,
    ensures
        remaining_text(expires_at, now) == decimal(minutes) + seq![
            'm',
            ' ',
            (48 + seconds / 10) as char,
            (48 + seconds % 10) as char,
            's',
        ],
{
    reveal_strlit("m ");
    reveal_strlit("0");
    reveal_strlit("");
    reveal_strlit("s");
    lemma_two_digits(seconds);
    let left = expires_at - now;
    assert(left / 60 == minutes && left % 60 == seconds);
    assert(remaining_text(expires_at, now) =~= decimal(minutes) + seq![
        'm',
        ' ',
        (48 + seconds / 10) as char,
        (48 + seconds % 10) as char,
        's',
    ]);
}

/// Of a time that is over, the words are the seconds that it is over beyond whole minutes, with a
/// minus sign where there are any.
pub proof fn law_passed_times_are_told(expires_at: i64, now: i64, minutes: nat, seconds: nat)
    requires
        seconds < 60,
        0 < now - expires_at <= i64::MAX,
        now - expires_at == 60 * minutes + seconds,
    ensures
        seconds > 0 ==> remaining_text(expires_at, now) == seq!['-'] + decimal(seconds) + seq!['s'],
        seconds == 0 ==> remaining_text(expires_at, now) == seq!['0', 's'],
{
    reveal_strlit("s");
    let over = now - expires_at;
    assert(over % 60 == seconds);
    assert("s"@ =~= seq!['s']);
    if seconds == 0 {
        assert(decimal(0) =~= seq!['0']);
        assert(remaining_text(expires_at, now) =~= seq!['0', 's']);
    } else {
        assert(remaining_text(expires_at, now) =~= seq!['-'] + decimal(seconds) + seq!['s']);
    }
}

/// A remaining time that fits in no 64 bits is told as the longest one there is, or as the one that
/// is over the longest.
pub proof fn law_immense_times_are_told(expires_at: i64, now: i64)
    ensures
        expires_at - now > i64::MAX ==> remaining_text(expires_at, now) == remaining_text(
            i64::MAX,
            0,
        ),
        now - expires_at > i64::MAX ==> remaining_text(expires_at, now) == seq!['-', '8', 's'],
{
    reveal_strlit("s");
    assert(decimal(8) =~= seq!['8']);
    if now - expires_at > i64::MAX {
        assert(0x8000_0000_0000_0000int % 60 == 8);
        assert(signed_decimal(-8) =~= seq!['-', '8']);
        assert(remaining_text(expires_at, now) =~= seq!['-', '8', 's']);
    }
}

} // verus!
