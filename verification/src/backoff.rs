//! How bootstrapping is retried.

use backon::ExponentialBuilder;
use vstd::prelude::*;

verus! {

/// `backon::ExponentialBuilder`: the settings of an exponential backoff.
#[verifier::external_type_specification]
#[verifier::external_body]
pub struct ExExponentialBuilder(backon::ExponentialBuilder);

/// The settings of an exponential backoff, but for the factor by which delays grow.
pub ghost struct BackoffSettings {
    /// Whether a random share of the delay is added to it.
    pub jitter: bool,
    pub min_delay_secs: nat,
    pub max_delay_secs: Option<nat>,
    /// After how many attempts it ends.
    pub max_times: Option<nat>,
    /// After how much delay altogether it ends.
    pub total_delay_secs: Option<nat>,
}

/// The settings that the builder holds.
pub uninterp spec fn backoff_settings(backoff: ExponentialBuilder) -> BackoffSettings;

/// The settings that a new builder holds.
pub open spec fn default_settings() -> BackoffSettings {
    BackoffSettings {
        jitter: false,
        min_delay_secs: 1,
        max_delay_secs: Some(60),
        max_times: Some(3),
        total_delay_secs: None,
    }
}

/// `ExponentialBuilder::new`: delays from a second to a minute, three attempts, no jitter
/// and no limit on the total delay. Nothing is said of the factor by which delays grow,
/// which is a floating-point number.
pub assume_specification[ ExponentialBuilder::new ]() -> (backoff: ExponentialBuilder)
    ensures
        backoff_settings(backoff) == default_settings(),
;

/// `ExponentialBuilder::with_jitter`: switches jitter on and leaves the rest.
pub assume_specification[ ExponentialBuilder::with_jitter ](backoff: ExponentialBuilder) -> (r:
    ExponentialBuilder)
    ensures
        backoff_settings(r) == (BackoffSettings { jitter: true, ..backoff_settings(backoff) }),
;

/// `ExponentialBuilder::without_max_times`: takes the limit on attempts away and leaves the rest.
pub assume_specification[ ExponentialBuilder::without_max_times ](backoff: ExponentialBuilder) -> (r:
    ExponentialBuilder)
    ensures
        backoff_settings(r) == (BackoffSettings { max_times: None, ..backoff_settings(backoff) }),
;

/// `ExponentialBuilder::with_max_delay`: sets the longest delay and leaves the rest.
#[verifier::external_body]
fn with_max_delay(backoff: ExponentialBuilder, secs: u64) -> (r: ExponentialBuilder)
    ensures
        backoff_settings(r) == (BackoffSettings {
            max_delay_secs: Some(secs as nat),
            ..backoff_settings(backoff)
        }),
{
    backoff.with_max_delay(std::time::Duration::from_secs(secs))
}

/// `ExponentialBuilder::with_total_delay`: sets the total delay and leaves the rest.
#[verifier::external_body]
fn with_total_delay(backoff: ExponentialBuilder, secs: u64) -> (r: ExponentialBuilder)
    ensures
        backoff_settings(r) == (BackoffSettings {
            total_delay_secs: Some(secs as nat),
            ..backoff_settings(backoff)
        }),
{
    backoff.with_total_delay(Some(std::time::Duration::from_secs(secs)))
}

/// The longest delay between two attempts, in seconds.
pub const BOOTSTRAP_MAX_DELAY_SECS: u64 = 60;

/// How long attempts go on altogether, in seconds: one day.
pub const BOOTSTRAP_TOTAL_DELAY_SECS: u64 = 86400;

/// How bootstrapping from one host is retried: after delays from a second to a minute, with
/// jitter, as often as a day allows.
pub fn bootstrap_backoff() -> (backoff: ExponentialBuilder)
    ensures
        backoff_settings(backoff) == (BackoffSettings {
            jitter: true,
            min_delay_secs: 1,
            max_delay_secs: Some(60),
            max_times: None,
            total_delay_secs: Some(86400),
        }),
{
    let backoff = with_max_delay(ExponentialBuilder::new(), BOOTSTRAP_MAX_DELAY_SECS);
    with_total_delay(backoff.with_jitter(), BOOTSTRAP_TOTAL_DELAY_SECS).without_max_times()
}

} // verus!
