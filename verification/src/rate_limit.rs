//! How many queries the node sends per second.

use leaky_bucket::RateLimiter;
use vstd::prelude::*;

verus! {

/// Queries per second where nothing else is configured.
pub const DEFAULT_QUERIES_PER_SECOND: usize = 250;

/// How often permits are added, in milliseconds.
pub const REFILL_INTERVAL_MILLIS: u32 = 100;

/// `leaky_bucket::RateLimiter`, a token bucket.
#[verifier::external_type_specification]
#[verifier::external_body]
pub struct ExRateLimiter(leaky_bucket::RateLimiter);

/// How many permits the bucket holds at most.
pub uninterp spec fn bucket_max(limiter: RateLimiter) -> nat;

/// How many permits the bucket held when it was made.
pub uninterp spec fn bucket_initial(limiter: RateLimiter) -> nat;

/// How many permits each refill adds.
pub uninterp spec fn bucket_refill(limiter: RateLimiter) -> nat;

/// How far refills lie apart, in milliseconds.
pub uninterp spec fn bucket_interval_millis(limiter: RateLimiter) -> nat;

/// Whether waiting tasks are served in the order in which they came.
pub uninterp spec fn bucket_is_fair(limiter: RateLimiter) -> bool;

/// A number of permits as the bucket stores it: at most `isize::MAX`.
pub open spec fn stored_permits(n: usize) -> nat {
    if n <= isize::MAX {
        n as nat
    } else {
        isize::MAX as nat
    }
}

/// `RateLimiter::builder`, its setters and `build`: a token bucket with the given
/// settings. The numbers of permits are cut off at `isize::MAX`, and the bucket holds no more than
/// its maximum to begin with. Nothing is said of the permits that it holds later, which
/// change with time.
#[verifier::external_body]
fn build_rate_limiter(
    initial: usize,
    max: usize,
    interval_millis: u32,
    fair: bool,
    refill: usize,
) -> (limiter: RateLimiter)
    requires
        interval_millis > 0,
        refill > 0,
    ensures
        bucket_max(limiter) == stored_permits(max),
        bucket_initial(limiter) == (if initial <= max {
            stored_permits(initial)
        } else {
            stored_permits(max)
        }),
        bucket_refill(limiter) == stored_permits(refill),
        bucket_interval_millis(limiter) == interval_millis,
        bucket_is_fair(limiter) == fair,
{
    RateLimiter::builder()
        .initial(initial)
        .max(max)
        .interval(std::time::Duration::from_millis(interval_millis.into()))
        .fair(fair)
        .refill(refill)
        .build()
}

/// The number that decimal digits, most significant first, stand for.
pub open spec fn digits_value(digits: Seq<char>) -> nat
    decreases digits.len(),
{
    if digits.len() == 0 {
        0
    } else {
        digits_value(digits.drop_last()) * 10 + (digits.last() as nat - '0' as nat) as nat
    }
}

/// The text without a leading plus sign.
pub open spec fn without_plus(text: Seq<char>) -> Seq<char> {
    if text.len() > 0 && text[0] == '+' {
        text.skip(1)
    } else {
        text
    }
}

/// The number that the text is: an optional plus sign and one or more decimal
/// digits, whose value fits.
pub open spec fn decimal_number(text: Seq<char>) -> Option<usize> {
    let digits = without_plus(text);
    if digits.len() > 0 && (forall|i: int|
        0 <= i < digits.len() ==> '0' <= #[trigger] digits[i] <= '9') && digits_value(digits)
        <= usize::MAX {
        Some(digits_value(digits) as usize)
    } else {
        None
    }
}

/// `str::parse` to `usize`: accepts an optional plus sign followed by decimal digits
/// only, and refuses a value that does not fit.
#[verifier::external_body]
fn parse_number(text: &str) -> (n: Option<usize>)
    ensures
        n == decimal_number(text@),
{
    text.parse::<usize>().ok()
}

/// Queries per second as configured, 250 where nothing is configured, and
/// nothing where the configured text is not a number.
pub fn queries_per_second(configured: Option<&str>) -> (rate: Option<usize>)
    ensures
        rate == (match configured {
            Some(text) => decimal_number(text@),
            None => Some(250usize),
        }),
{
    match configured {
        Some(text) => parse_number(text),
        None => Some(DEFAULT_QUERIES_PER_SECOND),
    }
}

/// The limiter for a rate: a tenth of the queries of a second is there at once
/// and is added ten times a second, and unused permits add up to one second's worth.
pub fn make_rate_limiter(queries_per_second: usize) -> (limiter: RateLimiter)
    requires
        queries_per_second >= 10,
    ensures
        bucket_max(limiter) == stored_permits(queries_per_second),
        bucket_initial(limiter) == queries_per_second / 10,
        bucket_refill(limiter) == queries_per_second / 10,
        bucket_interval_millis(limiter) == REFILL_INTERVAL_MILLIS,
        !bucket_is_fair(limiter),
{
    let per_100_ms: usize = queries_per_second / 10;
    build_rate_limiter(per_100_ms, queries_per_second, REFILL_INTERVAL_MILLIS, false, per_100_ms)
}

/// One decimal digit is the number that it stands for, and a further digit behind a number
/// makes it ten times as large and adds to it, as long as that fits.
pub proof fn law_number_grows_by_digits(text: Seq<char>, digit: char)
    requires
        '0' <= digit <= '9',
    ensures
        decimal_number(seq![digit]) == Some((digit as int - '0' as int) as usize),
        decimal_number(text) matches Some(n) ==> {
            let larger = n * 10 + (digit as int - '0' as int);
            decimal_number(text.push(digit)) == (if larger <= usize::MAX {
                Some(larger as usize)
            } else {
                None
            })
        },
{
    reveal_with_fuel(digits_value, 2);
    assert(without_plus(seq![digit]) =~= seq![digit]);
    assert(seq![digit].drop_last() =~= Seq::<char>::empty());
    if decimal_number(text) is Some {
        let (digits, longer) = (without_plus(text), text.push(digit));
        assert(without_plus(longer) =~= digits.push(digit));
        assert(digits.push(digit).drop_last() =~= digits);
        assert forall|i: int| 0 <= i < digits.len() + 1 implies '0' <= #[trigger] digits.push(
            digit,
        )[i] <= '9' by {
            if i < digits.len() {
                assert(digits.push(digit)[i] == digits[i]);
            }
        }
    }
}

/// A plus sign in front of a number without one changes nothing.
pub proof fn law_plus_sign_is_ignored(text: Seq<char>)
    requires
        text.len() > 0,
        text[0] != '+',
    ensures
        decimal_number(seq!['+'] + text) == decimal_number(text),
{
    assert((seq!['+'] + text).skip(1) =~= text);
}

/// Only digits, behind at most one sign in front, are a number, and there must be one.
pub proof fn law_other_text_is_no_number(text: Seq<char>, i: int)
    ensures
        text.len() == 0 ==> decimal_number(text) is None,
        text.len() == 1 && text[0] == '+' ==> decimal_number(text) is None,
        0 <= i < text.len() && !('0' <= text[i] <= '9') && (i > 0 || text[0] != '+')
            ==> decimal_number(text) is None,
{
    if 0 <= i < text.len() && !('0' <= text[i] <= '9') && (i > 0 || text[0] != '+') {
        let digits = without_plus(text);
        if text[0] == '+' {
            assert(digits[i - 1] == text[i]);
        } else {
            assert(digits[i] == text[i]);
        }
    }
}

} // verus!
