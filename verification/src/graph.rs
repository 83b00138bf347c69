//! Microsoft Graph requests: the endpoint of each cloud and the retry
//! policy for transient failures.

use vstd::prelude::*;
use vstd::arithmetic::power::pow;
use crate::auth::graph_base_of;
use crate::errors::AppError;
use crate::models::CloudEnvironment;

verus! {

/// The Graph API base URL of a cloud.
pub fn graph_base_url(cloud_env: &CloudEnvironment) -> (u: &'static str)
    ensures
        u@ == graph_base_of(*cloud_env),
{
    match cloud_env {
        CloudEnvironment::Global => "https://graph.microsoft.com/v1.0",
        CloudEnvironment::China => "https://microsoftgraph.chinacloudapi.cn/v1.0",
    }
}

/// Retry behaviour on transient failures; delays in milliseconds.
#[derive(Debug, Clone, Copy, PartialEq, Eq, Structural)]
pub struct RetryConfig {
    pub max_attempts: u32,
    pub initial_delay_ms: u64,
    pub backoff_multiplier: u64,
    pub max_delay_ms: u64,
}

impl RetryConfig {
    /// Three attempts, 1 s initial delay doubling each time, at most 30 s.
    pub open spec fn default_spec() -> RetryConfig {
        RetryConfig { max_attempts: 3, initial_delay_ms: 1000, backoff_multiplier: 2, max_delay_ms: 30000 }
    }

    /// The default policy (see `default_spec`).
    pub fn default_config() -> (c: RetryConfig)
        ensures
            c == RetryConfig::default_spec(),
    {
        RetryConfig { max_attempts: 3, initial_delay_ms: 1000, backoff_multiplier: 2, max_delay_ms: 30000 }
    }
}

impl Default for RetryConfig {
    fn default() -> (c: RetryConfig)
        ensures
            c == RetryConfig::default_spec(),
    {
        RetryConfig::default_config()
    }
}

/// The backoff delay before the attempt after `attempt`: the initial delay
/// times `multiplier^attempt`, capped at the maximum delay.
pub open spec fn backoff_delay(cfg: RetryConfig, attempt: nat) -> u64 {
    let product = cfg.initial_delay_ms * pow(cfg.backoff_multiplier as int, attempt);
    if product < cfg.max_delay_ms {
        product as u64
    } else {
        cfg.max_delay_ms
    }
}

/// `initial * m^k` only grows with `k` when `m` is at least one.
proof fn lemma_backoff_grows(initial: nat, m: nat, k: nat, n: nat)
    requires
        m >= 1,
        k <= n,
    ensures
        initial * pow(m as int, k) <= initial * pow(m as int, n),
{
    vstd::arithmetic::power::lemma_pow_increases(m, k, n);
    vstd::arithmetic::mul::lemma_mul_inequality(pow(m as int, k), pow(m as int, n), initial as int);
    vstd::arithmetic::mul::lemma_mul_is_commutative(initial as int, pow(m as int, k));
    vstd::arithmetic::mul::lemma_mul_is_commutative(initial as int, pow(m as int, n));
}

/// One more factor `m` in `initial * m^k`.
proof fn lemma_backoff_step(initial: nat, m: nat, k: nat)
    ensures
        initial * pow(m as int, k + 1) == (initial * pow(m as int, k)) * m,
{
    vstd::arithmetic::power::lemma_pow_adds(m as int, k, 1);
    vstd::arithmetic::power::lemma_pow1(m as int);
    vstd::arithmetic::mul::lemma_mul_is_associative(initial as int, pow(m as int, k), m as int);
}

/// The delay before retrying after `attempt` (see `backoff_delay`).
pub fn calculate_delay(config: &RetryConfig, attempt: u32) -> (ms: u64)
    ensures
        ms == backoff_delay(*config, attempt as nat),
{
    let initial = config.initial_delay_ms;
    let m = config.backoff_multiplier;
    let cap = config.max_delay_ms;
    proof {
        vstd::arithmetic::power::lemma_pow0(m as int);
    }
    if m == 0 && attempt > 0 {
        proof {
            vstd::arithmetic::power::lemma0_pow(attempt as nat);
        }
        return 0;
    }
    let mut d: u64 = initial;
    let mut k: u32 = 0;
    while k < attempt
        invariant
            k <= attempt,
            initial == config.initial_delay_ms,
            m == config.backoff_multiplier,
            cap == config.max_delay_ms,
            attempt > 0 ==> m >= 1,
            d == initial * pow(m as int, k as nat),
        decreases attempt - k,
    {
        proof {
            lemma_backoff_grows(initial as nat, m as nat, k as nat, attempt as nat);
        }
        if d >= cap {
            return cap;
        }
        proof {
            lemma_backoff_step(initial as nat, m as nat, k as nat);
            lemma_backoff_grows(initial as nat, m as nat, (k + 1) as nat, attempt as nat);
        }
        match d.checked_mul(m) {
            Some(v) => {
                d = v;
            },
            None => {
                return cap;
            },
        }
        k = k + 1;
    }
    if d < cap {
        d
    } else {
        cap
    }
}

// ── Retrying a request ──────────────────────────────────────────────────

/// What one attempt of a request came back with.
#[derive(Debug, Clone)]
pub enum AttemptOutcome {
    /// A 2xx response.
    Success,
    /// A response with another status and its body (or `HTTP {status}`
    /// where the body could not be read).
    Status { status_code: u16, body: String },
    /// The request failed before a response; `retryable` for connection
    /// failures and timeouts.
    NetworkError { message: String, retryable: bool },
}

/// What to do after an attempt.
#[derive(Debug, Clone)]
pub enum RetryAction {
    /// Hand the response to the caller.
    Return,
    /// Fail with this error now.
    Fail(AppError),
    /// Wait this many milliseconds, then make the next attempt.
    RetryAfter(u64),
}

/// The decision after attempt `attempt` (counting from 0) of at most
/// `max_attempts`: success returns; 4xx fails at once with the body; a
/// non-retryable network error fails at once; 5xx and retryable network
/// errors become the last error and are retried after the backoff delay,
/// until the attempts run out, when the last error is reported (or a
/// generic one where there was none).
pub open spec fn retry_decision(
    cfg: RetryConfig,
    attempt: nat,
    outcome: AttemptOutcome,
    last_error: Option<AppError>,
) -> (RetryActionView, Option<AppError>) {
    match outcome {
        AttemptOutcome::Success => (RetryActionView::Return, last_error),
        AttemptOutcome::Status { status_code, body } => if 400 <= status_code < 500 {
            (RetryActionView::Fail(AppErrorShape::GraphApi(body@, status_code)), last_error)
        } else {
            let last = if 500 <= status_code < 600 {
                Some(AppError::GraphApi { message: body, status_code })
            } else {
                last_error
            };
            after_transient(cfg, attempt, last)
        },
        AttemptOutcome::NetworkError { message, retryable } => if retryable {
            after_transient(cfg, attempt, Some(AppError::Network { message, retryable: true }))
        } else {
            (RetryActionView::Fail(AppErrorShape::Network(message@, false)), last_error)
        },
    }
}

/// After a transient failure: retry while attempts remain, else give up.
pub open spec fn after_transient(cfg: RetryConfig, attempt: nat, last: Option<AppError>) -> (RetryActionView, Option<AppError>) {
    if attempt + 1 < cfg.max_attempts {
        (RetryActionView::RetryAfter(backoff_delay(cfg, attempt)), last)
    } else {
        match last {
            Some(e) => (RetryActionView::Fail(shape_of(e)), last),
            None => (RetryActionView::Fail(AppErrorShape::Network("request failed after all retry attempts"@, false)), last),
        }
    }
}

/// The decision as text and numbers.
pub enum RetryActionView {
    Return,
    Fail(AppErrorShape),
    RetryAfter(u64),
}

/// The shape of the errors a request fails with.
pub enum AppErrorShape {
    GraphApi(Seq<char>, u16),
    Network(Seq<char>, bool),
    Other,
}

pub open spec fn shape_of(e: AppError) -> AppErrorShape {
    match e {
        AppError::GraphApi { message, status_code } => AppErrorShape::GraphApi(message@, status_code),
        AppError::Network { message, retryable } => AppErrorShape::Network(message@, retryable),
        _ => AppErrorShape::Other,
    }
}

pub open spec fn action_view(a: RetryAction) -> RetryActionView {
    match a {
        RetryAction::Return => RetryActionView::Return,
        RetryAction::Fail(e) => RetryActionView::Fail(shape_of(e)),
        RetryAction::RetryAfter(ms) => RetryActionView::RetryAfter(ms),
    }
}

/// Decides what follows an attempt (see `retry_decision`), updating the
/// last transient error.
pub fn next_retry_action(
    config: &RetryConfig,
    attempt: u32,
    outcome: AttemptOutcome,
    last_error: &mut Option<AppError>,
) -> (a: RetryAction)
    requires
        pow(config.backoff_multiplier as int, attempt as nat) <= u64::MAX,
    ensures
        (action_view(a), *final(last_error)) == retry_decision(*config, attempt as nat, outcome, *old(last_error)),
{
    match outcome {
        AttemptOutcome::Success => RetryAction::Return,
        AttemptOutcome::Status { status_code, body } => {
            if 400 <= status_code && status_code < 500 {
                RetryAction::Fail(AppError::GraphApi { message: body, status_code })
            } else {
                if 500 <= status_code && status_code < 600 {
                    *last_error = Some(AppError::GraphApi { message: body, status_code });
                }
                give_up_or_retry(config, attempt, last_error)
            }
        },
        AttemptOutcome::NetworkError { message, retryable } => {
            if retryable {
                *last_error = Some(AppError::Network { message, retryable: true });
                give_up_or_retry(config, attempt, last_error)
            } else {
                RetryAction::Fail(AppError::Network { message, retryable: false })
            }
        },
    }
}

fn clone_error(e: &AppError) -> (r: AppError)
    ensures
        shape_of(r) == shape_of(*e),
{
    match e {
        AppError::GraphApi { message, status_code } => AppError::GraphApi { message: message.clone(), status_code: *status_code },
        AppError::Network { message, retryable } => AppError::Network { message: message.clone(), retryable: *retryable },
        AppError::Auth { message, cloud_env } => AppError::Auth { message: message.clone(), cloud_env: *cloud_env },
        AppError::FileSystem { message, path } => AppError::FileSystem { message: message.clone(), path: path.clone() },
        AppError::Config { message } => AppError::Config { message: message.clone() },
        AppError::Transfer { message, task_id } => AppError::Transfer { message: message.clone(), task_id: task_id.clone() },
        AppError::Validation { message, field } => AppError::Validation { message: message.clone(), field: field.clone() },
    }
}

fn give_up_or_retry(config: &RetryConfig, attempt: u32, last_error: &mut Option<AppError>) -> (a: RetryAction)
    requires
        pow(config.backoff_multiplier as int, attempt as nat) <= u64::MAX,
    ensures
        *final(last_error) == *old(last_error),
        (action_view(a), *final(last_error)) == after_transient(*config, attempt as nat, *old(last_error)),
{
    if (attempt as u64) + 1 < config.max_attempts as u64 {
        RetryAction::RetryAfter(calculate_delay(config, attempt))
    } else {
        match last_error {
            Some(e) => RetryAction::Fail(clone_error(e)),
            None => RetryAction::Fail(AppError::Network {
                message: "request failed after all retry attempts".to_owned(),
                retryable: false,
            }),
        }
    }
}

/// A client error (4xx) is never retried, whatever the attempt.
pub proof fn lemma_client_errors_fail_at_once(cfg: RetryConfig, attempt: nat, status_code: u16, body: String, last: Option<AppError>)
    requires
        400 <= status_code < 500,
    ensures
        retry_decision(cfg, attempt, AttemptOutcome::Status { status_code, body }, last).0 == RetryActionView::Fail(
            AppErrorShape::GraphApi(body@, status_code),
        ),
{
}

/// The last allowed attempt never asks for another one.
pub proof fn lemma_no_retry_after_last_attempt(cfg: RetryConfig, attempt: nat, outcome: AttemptOutcome, last: Option<AppError>)
    requires
        attempt + 1 >= cfg.max_attempts,
    ensures
        !(retry_decision(cfg, attempt, outcome, last).0 is RetryAfter),
{
}

} // verus!
