//! The relay's auto-reconnect policy: the status reported around each attempt to
//! run the proxy, and, when an attempt ends, whether to stop, give up, or retry
//! after an exponential backoff (1 s, 2 s, 4 s, 8 s, 16 s, then 30 s).

use vstd::prelude::*;
use vstd::string::*;
use crate::text::{decimal_digits, push_char, push_decimal_u64, push_str};

verus! {

/// How many times a failed proxy is restarted before the controller gives up.
pub const MAX_RETRIES: u32 = 10;

/// The longest wait between two attempts, in seconds.
pub const MAX_BACKOFF_SECS: u64 = 30;

/// A status report about the proxy, for the user interface.
#[derive(Clone, Debug)]
pub struct ProxyStatus {
    /// One of `starting`, `running`, `retrying`, `failed`, `stopped`.
    pub state: String,
    pub message: String,
    pub retry_count: u32,
}

/// A status as plain values.
pub struct ProxyStatusView {
    pub state: Seq<char>,
    pub message: Seq<char>,
    pub retry_count: u32,
}

impl View for ProxyStatus {
    type V = ProxyStatusView;

    open spec fn view(&self) -> ProxyStatusView {
        ProxyStatusView { state: self.state@, message: self.message@, retry_count: self.retry_count }
    }
}

/// What to do once an attempt to run the proxy has ended.
pub enum ReconnectStep {
    /// The proxy was cancelled: report and stop.
    Stop(ProxyStatus),
    /// Too many attempts failed: report and stop.
    GiveUp(ProxyStatus),
    /// Report, wait `delay_secs` seconds (stopping if cancelled meanwhile), then try again.
    Retry { delay_secs: u64, status: ProxyStatus },
}

/// Retry bookkeeping for one remote server.
pub struct Reconnector {
    pub host: String,
    pub port: u16,
    /// Consecutive failed attempts so far.
    pub retry_count: u32,
}

/// `2^n`.
pub open spec fn pow2(n: nat) -> nat
    decreases n,
{
    if n == 0 {
        1
    } else {
        2 * pow2((n - 1) as nat)
    }
}

/// The wait before retry number `retry` (counted from 1): one second, doubled on
/// each further retry, at most `MAX_BACKOFF_SECS`.
pub open spec fn backoff_secs(retry: u32) -> u64 {
    let e: nat = if retry <= 1 {
        0
    } else if retry - 1 > 5 {
        5
    } else {
        (retry - 1) as nat
    };
    if pow2(e) > MAX_BACKOFF_SECS {
        MAX_BACKOFF_SECS
    } else {
        pow2(e) as u64
    }
}

/// `host:port`.
pub open spec fn endpoint(host: Seq<char>, port: u16) -> Seq<char> {
    host + seq![':'] + decimal_digits(port as nat)
}

/// The status before an attempt: `starting` for the first one, `retrying` after failures.
pub open spec fn attempt_status(host: Seq<char>, port: u16, retry: u32) -> ProxyStatusView {
    if retry > 0 {
        ProxyStatusView {
            state: "retrying"@,
            message: "Reconnecting to "@ + endpoint(host, port) + " (attempt "@ + decimal_digits(
                retry as nat,
            ) + ")"@,
            retry_count: retry,
        }
    } else {
        ProxyStatusView {
            state: "starting"@,
            message: "Connecting to "@ + endpoint(host, port),
            retry_count: 0,
        }
    }
}

/// The status once the proxy runs.
pub open spec fn running_status(host: Seq<char>, port: u16) -> ProxyStatusView {
    ProxyStatusView {
        state: "running"@,
        message: "Connected to "@ + endpoint(host, port),
        retry_count: 0,
    }
}

/// The status once the proxy has been stopped.
pub open spec fn stopped_status() -> ProxyStatusView {
    ProxyStatusView { state: "stopped"@, message: "Proxy stopped"@, retry_count: 0 }
}

/// The status once the controller gives up after `retry` failures.
pub open spec fn failed_status(retry: u32) -> ProxyStatusView {
    ProxyStatusView {
        state: "failed"@,
        message: "Failed after "@ + decimal_digits(MAX_RETRIES as nat)
            + " retries. Click toggle to retry."@,
        retry_count: retry,
    }
}

/// The status while waiting before retry number `retry`.
pub open spec fn waiting_status(retry: u32) -> ProxyStatusView {
    ProxyStatusView {
        state: "retrying"@,
        message: "Retrying in "@ + decimal_digits(backoff_secs(retry) as nat) + "s (attempt "@
            + decimal_digits(retry as nat) + "/"@ + decimal_digits(MAX_RETRIES as nat) + ")"@,
        retry_count: retry,
    }
}

fn status(state: &str, message: String, retry_count: u32) -> (s: ProxyStatus)
    ensures
        s@ == (ProxyStatusView { state: state@, message: message@, retry_count }),
{
    ProxyStatus { state: String::from_str(state), message, retry_count }
}

fn push_endpoint(s: &mut String, host: &String, port: u16)
    ensures
        final(s)@ == old(s)@ + endpoint(host@, port),
{
    push_str(s, host.as_str());
    push_char(s, ':');
    push_decimal_u64(s, port as u64);
    assert(final(s)@ =~= old(s)@ + endpoint(host@, port));
}

/// The wait before retry number `retry`, in seconds.
pub fn backoff_delay_secs(retry: u32) -> (secs: u64)
    ensures
        secs == backoff_secs(retry),
{
    let e: u32 = if retry <= 1 {
        0
    } else if retry - 1 > 5 {
        5
    } else {
        retry - 1
    };
    let mut p: u64 = 1;
    let mut k: u32 = 0;
    while k < e
        invariant
            e <= 5,
            k <= e,
            p == pow2(k as nat),
            p <= 32,
        decreases e - k,
    {
        p = p * 2;
        k = k + 1;
        proof {
            lemma_pow2_small(k as nat);
        }
    }
    if p > MAX_BACKOFF_SECS {
        MAX_BACKOFF_SECS
    } else {
        p
    }
}

proof fn lemma_pow2_small(n: nat)
    requires
        n <= 5,
    ensures
        pow2(n) <= 32,
        pow2(n) >= 1,
{
    reveal_with_fuel(pow2, 6);
    assert(pow2(0) == 1 && pow2(1) == 2 && pow2(2) == 4 && pow2(3) == 8 && pow2(4) == 16 && pow2(5)
        == 32);
}

impl Reconnector {
    /// A controller for a proxy to `host:port` that has not failed yet.
    pub fn new(host: String, port: u16) -> (r: Reconnector)
        ensures
            r.host@ == host@,
            r.port == port,
            r.retry_count == 0,
    {
        Reconnector { host, port, retry_count: 0 }
    }

    /// Whether the controller can still decide on an attempt's end: at most
    /// `MAX_RETRIES` failures so far.
    pub open spec fn wf(&self) -> bool {
        self.retry_count <= MAX_RETRIES
    }

    /// The status to report before an attempt.
    pub fn attempt_status(&self) -> (s: ProxyStatus)
        ensures
            s@ == attempt_status(self.host@, self.port, self.retry_count),
    {
        if self.retry_count > 0 {
            let mut m = String::from_str("Reconnecting to ");
            push_endpoint(&mut m, &self.host, self.port);
            push_str(&mut m, " (attempt ");
            push_decimal_u64(&mut m, self.retry_count as u64);
            push_str(&mut m, ")");
            let s = status("retrying", m, self.retry_count);
            assert(s@.message =~= attempt_status(self.host@, self.port, self.retry_count).message);
            s
        } else {
            let mut m = String::from_str("Connecting to ");
            push_endpoint(&mut m, &self.host, self.port);
            status("starting", m, 0)
        }
    }

    /// The proxy was spawned: the status to report. Spawning alone does not
    /// count as a successful start, since a proxy that cannot reach its server
    /// dies soon after; failures are forgotten only once the running proxy has
    /// delivered statistics (`on_stats`).
    pub fn on_started(&self) -> (s: ProxyStatus)
        ensures
            s@ == running_status(self.host@, self.port),
    {
        let mut m = String::from_str("Connected to ");
        push_endpoint(&mut m, &self.host, self.port);
        status("running", m, 0)
    }

    /// The running proxy delivered statistics, which confirms the start: earlier
    /// failures are forgotten.
    pub fn on_stats(&mut self)
        ensures
            final(self).retry_count == 0,
            final(self).host == old(self).host,
            final(self).port == old(self).port,
    {
        self.retry_count = 0;
    }

    /// The status to report when the proxy is stopped on request.
    pub fn stopped(&self) -> (s: ProxyStatus)
        ensures
            s@ == stopped_status(),
    {
        status("stopped", String::from_str("Proxy stopped"), 0)
    }

    /// An attempt ended (the proxy died or could not start), `cancelled` telling
    /// whether a stop was requested. A stop request ends the controller; otherwise
    /// the failure is counted, and after more than `MAX_RETRIES` the controller
    /// gives up, else it retries after the backoff.
    pub fn on_attempt_over(&mut self, cancelled: bool) -> (step: ReconnectStep)
        requires
            old(self).wf(),
        ensures
            final(self).host == old(self).host,
            final(self).port == old(self).port,
            cancelled ==> final(self).retry_count == old(self).retry_count,
            !cancelled ==> final(self).retry_count == old(self).retry_count + 1,
            match step {
                ReconnectStep::Stop(s) => cancelled && s@ == stopped_status(),
                ReconnectStep::GiveUp(s) => !cancelled && !retried_after(old(self).retry_count)
                    && s@ == failed_status(final(self).retry_count),
                ReconnectStep::Retry { delay_secs, status } => !cancelled && retried_after(
                    old(self).retry_count,
                ) && delay_secs == backoff_secs(final(self).retry_count) && status@
                    == waiting_status(final(self).retry_count),
            },
    {
        if cancelled {
            return ReconnectStep::Stop(self.stopped());
        }
        self.retry_count = self.retry_count + 1;
        if self.retry_count > MAX_RETRIES {
            let mut m = String::from_str("Failed after ");
            push_decimal_u64(&mut m, MAX_RETRIES as u64);
            push_str(&mut m, " retries. Click toggle to retry.");
            let s = status("failed", m, self.retry_count);
            assert(s@.message =~= failed_status(self.retry_count).message);
            return ReconnectStep::GiveUp(s);
        }
        let delay = backoff_delay_secs(self.retry_count);
        let mut m = String::from_str("Retrying in ");
        push_decimal_u64(&mut m, delay);
        push_str(&mut m, "s (attempt ");
        push_decimal_u64(&mut m, self.retry_count as u64);
        push_str(&mut m, "/");
        push_decimal_u64(&mut m, MAX_RETRIES as u64);
        push_str(&mut m, ")");
        let s = status("retrying", m, self.retry_count);
        assert(s@.message =~= waiting_status(self.retry_count).message);
        ReconnectStep::Retry { delay_secs: delay, status: s }
    }
}

/// The backoff starts at one second, doubles on each retry up to the fifth
/// (16 s), and stays at `MAX_BACKOFF_SECS` from the sixth on; it never decreases.
pub proof fn lemma_backoff_schedule(r1: u32, r2: u32)
    ensures
        1 <= backoff_secs(r1) <= MAX_BACKOFF_SECS,
        1 <= r1 <= 5 ==> backoff_secs(r1) == pow2((r1 - 1) as nat),
        r1 >= 6 ==> backoff_secs(r1) == MAX_BACKOFF_SECS,
        1 <= r1 <= 4 ==> backoff_secs((r1 + 1) as u32) == 2 * backoff_secs(r1),
        1 <= r1 <= r2 ==> backoff_secs(r1) <= backoff_secs(r2),
{
    reveal_with_fuel(pow2, 7);
    assert(pow2(0) == 1 && pow2(1) == 2 && pow2(2) == 4 && pow2(3) == 8 && pow2(4) == 16 && pow2(5)
        == 32);
}

/// Whether a failed attempt after `failures` earlier consecutive failures is
/// retried (rather than given up on), as `on_attempt_over` decides.
pub open spec fn retried_after(failures: u32) -> bool {
    failures + 1 <= MAX_RETRIES
}

/// Between two confirmed starts (`on_stats`) there are at most `MAX_RETRIES`
/// retries: the first `MAX_RETRIES` consecutive failed attempts are retried, the
/// next one is not. An attempt whose proxy was spawned but delivered no
/// statistics before it ended counts as failed.
pub proof fn lemma_retry_limit(failures: u32)
    requires
        failures <= MAX_RETRIES,
    ensures
        retried_after(failures) <==> failures < MAX_RETRIES,
        !retried_after(MAX_RETRIES),
{
}

/// The backoff before each retry: 1 s before the first, then 2, 4, 8 and 16 s,
/// and 30 s from the sixth retry on.
pub proof fn lemma_backoff_values(retry: u32)
    ensures
        retry <= 1 ==> backoff_secs(retry) == 1,
        retry == 2 ==> backoff_secs(retry) == 2,
        retry == 3 ==> backoff_secs(retry) == 4,
        retry == 4 ==> backoff_secs(retry) == 8,
        retry == 5 ==> backoff_secs(retry) == 16,
        retry >= 6 ==> backoff_secs(retry) == 30,
{
    reveal_with_fuel(pow2, 7);
}

} // verus!
