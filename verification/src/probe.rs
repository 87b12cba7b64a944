//! The latency probe: which ports to try, what a round of attempts amounts
//! to, and how a latency is rated.
//!
//! A probe is a plain connection attempt, first to port 443 and then to port
//! 80, each bounded by `PROBE_TIMEOUT_SECS`. The caller makes the attempts;
//! `next_probe` says after each what to do next. The first connection that
//! is established gives the latency. A host that takes none is unreachable,
//! which is a result like any other and never an error.

use vstd::prelude::*;
use vstd::string::*;
use crate::region::{CatalogModel, RegionInfo};
use crate::text::push_name;

verus! {

/// How long one connection attempt may take, in seconds.
pub const PROBE_TIMEOUT_SECS: u64 = 2;

/// The latency that stands for "unreachable".
pub const UNREACHABLE: i64 = -1;

/// How a connection attempt ended.
#[derive(Debug, Clone, Copy, PartialEq, Eq)]
pub enum ConnectOutcome {
    /// The connection was established after this many milliseconds.
    Connected { elapsed_millis: u128 },
    /// The connection was refused or failed otherwise.
    Refused,
    /// The attempt ran into the timeout.
    TimedOut,
}

/// What the prober does next.
#[derive(Debug, Clone, Copy, PartialEq, Eq)]
pub enum ProbeStep {
    /// Try to connect to this port.
    Connect(u16),
    /// The probe is over, with this latency in milliseconds, or `UNREACHABLE`.
    Report(i64),
}

/// The port of attempt number `attempt`: 443 first, then 80, then none.
pub open spec fn port_of(attempt: int) -> Option<u16> {
    if attempt == 0 {
        Some(443u16)
    } else if attempt == 1 {
        Some(80u16)
    } else {
        None
    }
}

/// The latency sample for a connection that took `elapsed_millis`: the
/// number itself, or the largest sample where it is beyond that.
pub open spec fn sample_of(elapsed_millis: u128) -> i64 {
    if elapsed_millis <= i64::MAX {
        elapsed_millis as i64
    } else {
        i64::MAX
    }
}

/// What follows attempt number `attempt` when it ended with `outcome`: the
/// latency where it connected; else the next port; else, with no port left,
/// the report that the host is unreachable.
pub open spec fn probe_step_after(attempt: int, outcome: ConnectOutcome) -> ProbeStep {
    match outcome {
        ConnectOutcome::Connected { elapsed_millis } => ProbeStep::Report(
            sample_of(elapsed_millis),
        ),
        _ => match port_of(attempt + 1) {
            Some(port) => ProbeStep::Connect(port),
            None => ProbeStep::Report(UNREACHABLE),
        },
    }
}

/// The port of attempt number `attempt`, counted from 0.
pub fn probe_port(attempt: usize) -> (port: Option<u16>)
    ensures
        port == port_of(attempt as int),
{
    if attempt == 0 {
        Some(443)
    } else if attempt == 1 {
        Some(80)
    } else {
        None
    }
}

/// How a probe starts: with an attempt on port 443.
pub fn first_probe() -> (step: ProbeStep)
    ensures
        step == ProbeStep::Connect(443),
{
    ProbeStep::Connect(443)
}

/// What follows attempt number `attempt`, counted from 0, when it ended with
/// `outcome`.
pub fn next_probe(attempt: usize, outcome: ConnectOutcome) -> (step: ProbeStep)
    ensures
        step == probe_step_after(attempt as int, outcome),
{
    match outcome {
        ConnectOutcome::Connected { elapsed_millis } => {
            if elapsed_millis <= 0x7fff_ffff_ffff_ffff {
                ProbeStep::Report(elapsed_millis as i64)
            } else {
                ProbeStep::Report(i64::MAX)
            }
        },
        _ => {
            if attempt == 0 {
                ProbeStep::Connect(80)
            } else {
                ProbeStep::Report(UNREACHABLE)
            }
        },
    }
}

/// A host that takes no connection on either port is reported as
/// unreachable after the second attempt, whether it refused or timed out.
pub proof fn lemma_unreachable_after_two(first: ConnectOutcome, second: ConnectOutcome)
    requires
        !(first is Connected),
        !(second is Connected),
    ensures
        probe_step_after(0, first) == ProbeStep::Connect(80),
        probe_step_after(1, second) == ProbeStep::Report(UNREACHABLE),
{
}

/// A probe reports a latency that is not negative, or `UNREACHABLE`.
pub proof fn lemma_sample_range(attempt: int, outcome: ConnectOutcome)
    ensures
        probe_step_after(attempt, outcome) matches ProbeStep::Report(ms) ==> ms >= 0 || ms
            == UNREACHABLE,
{
}

/// How a latency is rated.
#[derive(Debug, Clone, Copy, PartialEq, Eq, Structural)]
pub enum LatencyBand {
    /// No connection.
    Unreachable,
    /// Below 80 ms.
    Good,
    /// From 80 ms, below 130 ms.
    Fair,
    /// From 130 ms, below 250 ms.
    Poor,
    /// 250 ms and more.
    Bad,
}

/// The band of a latency in milliseconds; every negative value stands for
/// "unreachable".
pub open spec fn band_of(ms: i64) -> LatencyBand {
    if ms < 0 {
        LatencyBand::Unreachable
    } else if ms < 80 {
        LatencyBand::Good
    } else if ms < 130 {
        LatencyBand::Fair
    } else if ms < 250 {
        LatencyBand::Poor
    } else {
        LatencyBand::Bad
    }
}

impl LatencyBand {
    /// The name of the colour in which a latency of this band is shown.
    pub open spec fn color_text(self) -> Seq<char> {
        match self {
            LatencyBand::Unreachable => "gray"@,
            LatencyBand::Good => "green"@,
            LatencyBand::Fair => "orange"@,
            LatencyBand::Poor => "crimson"@,
            LatencyBand::Bad => "purple"@,
        }
    }

    /// The name of the colour in which a latency of this band is shown.
    pub fn color(self) -> (name: &'static str)
        ensures
            name@ == self.color_text(),
    {
        match self {
            LatencyBand::Unreachable => "gray",
            LatencyBand::Good => "green",
            LatencyBand::Fair => "orange",
            LatencyBand::Poor => "crimson",
            LatencyBand::Bad => "purple",
        }
    }
}

/// The band of a latency in milliseconds.
pub fn latency_band(ms: i64) -> (band: LatencyBand)
    ensures
        band == band_of(ms),
{
    if ms < 0 {
        LatencyBand::Unreachable
    } else if ms < 80 {
        LatencyBand::Good
    } else if ms < 130 {
        LatencyBand::Fair
    } else if ms < 250 {
        LatencyBand::Poor
    } else {
        LatencyBand::Bad
    }
}

/// The name of the colour in which a latency in milliseconds is shown.
pub fn get_color_for_latency(ms: i64) -> (name: &'static str)
    ensures
        name@ == band_of(ms).color_text(),
{
    latency_band(ms).color()
}

/// The character of a decimal digit.
pub open spec fn digit_text(d: int) -> Seq<char> {
    if d == 0 {
        "0"@
    } else if d == 1 {
        "1"@
    } else if d == 2 {
        "2"@
    } else if d == 3 {
        "3"@
    } else if d == 4 {
        "4"@
    } else if d == 5 {
        "5"@
    } else if d == 6 {
        "6"@
    } else if d == 7 {
        "7"@
    } else if d == 8 {
        "8"@
    } else {
        "9"@
    }
}

/// A number in decimal digits, without leading zeros.
pub open spec fn decimal_text(n: nat) -> Seq<char>
    decreases n,
{
    if n < 10 {
        digit_text(n as int)
    } else {
        decimal_text(n / 10) + digit_text((n % 10) as int)
    }
}

/// How a latency in milliseconds is shown: the number and its unit, or
/// "disconnected" for every negative value.
pub open spec fn latency_text(ms: i64) -> Seq<char> {
    if ms < 0 {
        "disconnected"@
    } else {
        decimal_text(ms as nat) + " ms"@
    }
}

fn digit(d: u8) -> (text: &'static str)
    requires
        d < 10,
    ensures
        text@ == digit_text(d as int),
{
    if d == 0 {
        "0"
    } else if d == 1 {
        "1"
    } else if d == 2 {
        "2"
    } else if d == 3 {
        "3"
    } else if d == 4 {
        "4"
    } else if d == 5 {
        "5"
    } else if d == 6 {
        "6"
    } else if d == 7 {
        "7"
    } else if d == 8 {
        "8"
    } else {
        "9"
    }
}

/// How a latency in milliseconds is shown.
pub fn latency_label(ms: i64) -> (label: String)
    ensures
        label@ == latency_text(ms),
{
    if ms < 0 {
        return "disconnected".to_string();
    }
    let mut digits: Vec<u8> = Vec::new();
    let mut rest: i64 = ms;
    while rest >= 10
        invariant
            0 <= rest <= ms,
            forall|k: int| 0 <= k < digits.len() ==> digits[k] < 10,
            decimal_text(ms as nat) == decimal_text(rest as nat) + tail_text(digits@),
        decreases rest,
    {
        let ghost before = digits@;
        let d = (rest % 10) as u8;
        digits.push(d);
        proof {
            assert(digits@.drop_last() =~= before);
        }
        rest = rest / 10;
    }
    let mut label = String::new();
    label.append(digit(rest as u8));
    let mut k: usize = digits.len();
    proof {
        assert(digits@.subrange(0, k as int) =~= digits@);
    }
    while k > 0
        invariant
            k <= digits.len(),
            0 <= rest < 10,
            forall|m: int| 0 <= m < digits.len() ==> digits[m] < 10,
            label@ + tail_text(digits@.subrange(0, k as int)) == decimal_text(rest as nat)
                + tail_text(digits@),
        decreases k,
    {
        k -= 1;
        let ghost upto = digits@.subrange(0, k + 1);
        proof {
            assert(upto.drop_last() =~= digits@.subrange(0, k as int));
        }
        label.append(digit(digits[k]));
    }
    label.append(" ms");
    label
}

/// The digits in `later`, last first: the text of digits that were taken off
/// the end of a number one by one.
pub open spec fn tail_text(later: Seq<u8>) -> Seq<char>
    decreases later.len(),
{
    if later.len() == 0 {
        Seq::empty()
    } else {
        digit_text(later.last() as int) + tail_text(later.drop_last())
    }
}

/// The hosts to probe among the first `n` regions: the first hostname of
/// every region that has one, in catalog order.
pub open spec fn primary_hosts(catalog: CatalogModel, n: int) -> Seq<Seq<char>>
    decreases n,
{
    if n <= 0 {
        Seq::empty()
    } else if catalog[n - 1].1.hosts.len() > 0 {
        primary_hosts(catalog, n - 1).push(catalog[n - 1].1.hosts[0])
    } else {
        primary_hosts(catalog, n - 1)
    }
}

/// The names of the regions probed among the first `n`: those that have a
/// hostname, in catalog order.
pub open spec fn probed_regions(catalog: CatalogModel, n: int) -> Seq<Seq<char>>
    decreases n,
{
    if n <= 0 {
        Seq::empty()
    } else if catalog[n - 1].1.hosts.len() > 0 {
        probed_regions(catalog, n - 1).push(catalog[n - 1].0)
    } else {
        probed_regions(catalog, n - 1)
    }
}

/// What one probe cycle probes: for every region that has a hostname, its
/// name and its first hostname. The two lists run in parallel.
pub fn probe_targets(regions: &Vec<(String, RegionInfo)>) -> (targets: (Vec<String>, Vec<String>))
    ensures
        targets.0.deep_view() == probed_regions(regions.deep_view(), regions.len() as int),
        targets.1.deep_view() == primary_hosts(regions.deep_view(), regions.len() as int),
{
    let ghost catalog = regions.deep_view();
    let mut names: Vec<String> = Vec::new();
    let mut hosts: Vec<String> = Vec::new();
    let mut i: usize = 0;
    while i < regions.len()
        invariant
            i <= regions.len(),
            catalog == regions.deep_view(),
            names.deep_view() == probed_regions(catalog, i as int),
            hosts.deep_view() == primary_hosts(catalog, i as int),
        decreases regions.len() - i,
    {
        if regions[i].1.hosts.len() > 0 {
            push_name(&mut names, &regions[i].0);
            push_name(&mut hosts, &regions[i].1.hosts[0]);
        }
        i += 1;
    }
    (names, hosts)
}

} // verus!
