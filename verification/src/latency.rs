//! Input latency capture against a pinned device lane, nearest-rank p95
//! gates, and the analog aim-assist pull.
use vstd::prelude::*;
use vstd::multiset::Multiset;
use vstd::relations::{sorted_by, total_ordering};

use crate::arith::{clamp_int, tdiv};
use crate::failure::{concat, decimal, spec_decimal, text};
use crate::feel::{Analog, AimAssistContract};
use crate::units::YawMd;

verus! {

broadcast use {vstd::seq_lib::group_to_multiset_ensures, vstd::multiset::group_multiset_axioms};

/// Pinned first-title wired-controller / reference-display lane.
#[derive(Copy, Clone, PartialEq, Eq, Hash, Debug)]
pub struct DeviceLane {
    /// Stable lane id.
    pub id: &'static str,
    /// Device poll rate.
    pub polling_hz: u16,
    /// Reference display refresh.
    pub display_hz: u16,
    /// Authoritative tick length, microseconds (30 Hz adventure).
    pub sim_tick_us: u32,
    /// Input sample → local presentation p95, microseconds.
    pub present_p95_us: u32,
    /// Extra microseconds allowed on top of one sim tick for authority p95.
    pub extra_authority_us: u32,
}

/// The authority cap of a lane: one tick plus the extra allowance,
/// saturating at `u32::MAX`.
pub open spec fn spec_authority_cap(lane: DeviceLane) -> u32 {
    if lane.sim_tick_us + lane.extra_authority_us > u32::MAX {
        u32::MAX
    } else {
        (lane.sim_tick_us + lane.extra_authority_us) as u32
    }
}

impl DeviceLane {
    /// First-title wired controller on the pinned 1080p60 reference display.
    pub fn first_title_wired() -> (r: DeviceLane)
        ensures
            r.id@ == "first-title-wired-controller"@,
            r.polling_hz == 125,
            r.display_hz == 60,
            r.sim_tick_us == 33_333,
            r.present_p95_us == 25_000,
            r.extra_authority_us == 8_000,
    {
        DeviceLane {
            id: "first-title-wired-controller",
            polling_hz: 125,
            display_hz: 60,
            sim_tick_us: 33_333,
            present_p95_us: 25_000,
            extra_authority_us: 8_000,
        }
    }

    /// Input sample → authoritative response p95 cap.
    pub fn authority_p95_us(self) -> (r: u32)
        ensures
            r == spec_authority_cap(self),
    {
        self.sim_tick_us.saturating_add(self.extra_authority_us)
    }
}

/// One captured latency triple. Timestamps are caller-supplied microseconds.
#[derive(Copy, Clone, PartialEq, Eq, Structural, Hash, Debug)]
pub struct LatencySample {
    /// Device sample time.
    pub sample_us: u64,
    /// Mapper produced the intent.
    pub intent_us: u64,
    /// Local presentation responded.
    pub present_us: u64,
    /// Kernel admitted the packet (or equivalent authority edge).
    pub admit_us: u64,
}

/// `a - b`, or zero when `b` is later.
pub open spec fn sat_gap(a: u64, b: u64) -> u64 {
    if a >= b {
        (a - b) as u64
    } else {
        0
    }
}

/// Sample → presentation.
pub open spec fn present_gap(s: LatencySample) -> u64 {
    sat_gap(s.present_us, s.sample_us)
}

/// Sample → authority.
pub open spec fn authority_gap(s: LatencySample) -> u64 {
    sat_gap(s.admit_us, s.sample_us)
}

impl LatencySample {
    /// Sample → presentation, saturating at zero.
    pub fn present_latency_us(self) -> (r: u64)
        ensures
            r == present_gap(self),
    {
        self.present_us.saturating_sub(self.sample_us)
    }

    /// Sample → authority, saturating at zero.
    pub fn authority_latency_us(self) -> (r: u64)
        ensures
            r == authority_gap(self),
    {
        self.admit_us.saturating_sub(self.sample_us)
    }
}

/// The order on measured values.
pub open spec fn u64_leq() -> spec_fn(u64, u64) -> bool {
    |a: u64, b: u64| a <= b
}

/// The values in ascending order.
pub open spec fn ascending(v: Seq<u64>) -> Seq<u64> {
    v.sort_by(u64_leq())
}

/// Nearest-rank index of the 95th percentile among `n > 0` values:
/// `ceil(0.95 n) - 1`, kept inside `0..n`.
pub open spec fn rank_index(n: int) -> int {
    let c = (n * 95 + 99) / 100;
    let k = if c >= 1 { c - 1 } else { 0 };
    if k < n - 1 {
        k
    } else {
        n - 1
    }
}

/// Nearest-rank p95 of the values, or 0 when there are none.
pub open spec fn p95_of(v: Seq<u64>) -> u64 {
    if v.len() == 0 {
        0
    } else {
        ascending(v)[rank_index(v.len() as int)]
    }
}

/// Presentation latencies in capture order.
pub open spec fn present_values(s: Seq<LatencySample>) -> Seq<u64> {
    Seq::new(s.len(), |i: int| present_gap(s[i]))
}

/// Authority latencies in capture order.
pub open spec fn authority_values(s: Seq<LatencySample>) -> Seq<u64> {
    Seq::new(s.len(), |i: int| authority_gap(s[i]))
}

proof fn lemma_u64_leq_total()
    ensures
        total_ordering(u64_leq()),
{
}

/// Two ascending sequences holding the same values are the same sequence.
proof fn lemma_ascending_unique(a: Seq<u64>, b: Seq<u64>)
    requires
        sorted_by(a, u64_leq()),
        sorted_by(b, u64_leq()),
        a.to_multiset() == b.to_multiset(),
    ensures
        a == b,
    decreases a.len(),
{
    assert(a.len() == a.to_multiset().len());
    assert(b.len() == b.to_multiset().len());
    if a.len() == 0 {
        assert(a =~= b);
    } else {
        let x = a[0];
        let y = b[0];
        assert(a.contains(x));
        assert(a.to_multiset().count(x) > 0);
        assert(b.contains(x));
        let j = choose|j: int| 0 <= j < b.len() && b[j] == x;
        if j > 0 {
            assert(u64_leq()(b[0], b[j]));
        }
        assert(y <= x);
        assert(b.contains(y));
        assert(b.to_multiset().count(y) > 0);
        assert(a.to_multiset().count(y) > 0);
        assert(a.contains(y));
        let k = choose|k: int| 0 <= k < a.len() && a[k] == y;
        if k > 0 {
            assert(u64_leq()(a[0], a[k]));
        }
        assert(x == y);
        let a1 = a.drop_first();
        let b1 = b.drop_first();
        assert(a1.to_multiset() =~= a.to_multiset().remove(x)) by {
            assert(a.remove(0) =~= a1);
        }
        assert(b1.to_multiset() =~= b.to_multiset().remove(x)) by {
            assert(b.remove(0) =~= b1);
        }
        assert forall|i: int, j: int| 0 <= i < j < a1.len() implies #[trigger] u64_leq()(a1[i], a1[j]) by {
            assert(u64_leq()(a[i + 1], a[j + 1]));
        }
        assert forall|i: int, j: int| 0 <= i < j < b1.len() implies #[trigger] u64_leq()(b1[i], b1[j]) by {
            assert(u64_leq()(b[i + 1], b[j + 1]));
        }
        lemma_ascending_unique(a1, b1);
        assert(a =~= b) by {
            assert forall|i: int| 0 <= i < a.len() implies a[i] == b[i] by {
                if i > 0 {
                    assert(a[i] == a1[i - 1]);
                    assert(b[i] == b1[i - 1]);
                }
            }
        }
    }
}

/// The values of `v`, ascending.
fn sort_values(v: &Vec<u64>) -> (r: Vec<u64>)
    ensures
        r@ == ascending(v@),
{
    let mut out: Vec<u64> = Vec::new();
    let mut i: usize = 0;
    while i < v.len()
        invariant
            0 <= i <= v@.len(),
            sorted_by(out@, u64_leq()),
            out@.to_multiset() == v@.take(i as int).to_multiset(),
        decreases v@.len() - i,
    {
        let x = v[i];
        let mut p: usize = 0;
        while p < out.len() && out[p] <= x
            invariant
                0 <= p <= out@.len(),
                forall|k: int| 0 <= k < p ==> out@[k] <= x,
            decreases out@.len() - p,
        {
            p = p + 1;
        }
        let ghost before = out@;
        out.insert(p, x);
        proof {
            assert(p < before.len() ==> x < before[p as int]);
            assert forall|a: int, b: int| 0 <= a < b < out@.len() implies #[trigger] u64_leq()(
                out@[a],
                out@[b],
            ) by {
                if b < p {
                    assert(u64_leq()(before[a], before[b]));
                } else if a > p {
                    assert(u64_leq()(before[a - 1], before[b - 1]));
                } else if a == p {
                    if b - 1 > p {
                        assert(u64_leq()(before[p as int], before[b - 1]));
                    }
                } else {
                    assert(a < p);
                }
            }
            assert(out@.remove(p as int) =~= before);
            assert(out@[p as int] == x);
            assert(out@.to_multiset() =~= before.to_multiset().insert(x)) by {
                assert(out@.contains(x));
                assert(out@.to_multiset().count(x) > 0);
            }
            assert(v@.take(i as int + 1) =~= v@.take(i as int).push(x));
        }
        i = i + 1;
    }
    proof {
        assert(v@.take(v@.len() as int) =~= v@);
        lemma_u64_leq_total();
        v@.lemma_sort_by_ensures(u64_leq());
        lemma_ascending_unique(out@, ascending(v@));
    }
    out
}

/// Why a feel/latency gate failed.
#[derive(Clone, PartialEq, Eq, Structural, Debug)]
pub enum FeelGate {
    /// No samples were recorded.
    NoSamples,
    /// Presentation p95 missed the lane.
    PresentP95 {
        /// Observed microseconds.
        us: u64,
        /// Lane cap.
        cap: u32,
    },
    /// Authority p95 missed the lane.
    AuthorityP95 {
        /// Observed microseconds.
        us: u64,
        /// Lane cap.
        cap: u32,
    },
    /// Pending buffer exceeded the authored window (unexplained queue).
    UnexplainedQueue {
        /// Authored buffer ticks.
        authored: u8,
        /// Observed pending age in ticks.
        pending_age: u8,
    },
}

impl FeelGate {
    /// Message text for this failure.
    pub open spec fn spec_text(&self) -> Seq<char> {
        match *self {
            FeelGate::NoSamples => "feel gate has no latency samples"@,
            FeelGate::PresentP95 { us, cap } => "presentation p95 "@ + spec_decimal(us as nat)
                + "us exceeds "@ + spec_decimal(cap as nat) + "us"@,
            FeelGate::AuthorityP95 { us, cap } => "authority p95 "@ + spec_decimal(us as nat)
                + "us exceeds "@ + spec_decimal(cap as nat) + "us"@,
            FeelGate::UnexplainedQueue { authored, pending_age } => "input queue age "@
                + spec_decimal(pending_age as nat) + " exceeds authored buffer "@ + spec_decimal(
                authored as nat,
            ),
        }
    }

    /// Message text for this failure, one line.
    pub fn to_text(&self) -> (r: String)
        ensures
            r@ == self.spec_text(),
    {
        match *self {
            FeelGate::NoSamples => text("feel gate has no latency samples"),
            FeelGate::PresentP95 { us, cap } => {
                let a = concat("presentation p95 ", decimal(us).as_str());
                let b = concat(a.as_str(), "us exceeds ");
                let c = concat(b.as_str(), decimal(cap as u64).as_str());
                concat(c.as_str(), "us")
            },
            FeelGate::AuthorityP95 { us, cap } => {
                let a = concat("authority p95 ", decimal(us).as_str());
                let b = concat(a.as_str(), "us exceeds ");
                let c = concat(b.as_str(), decimal(cap as u64).as_str());
                concat(c.as_str(), "us")
            },
            FeelGate::UnexplainedQueue { authored, pending_age } => {
                let a = concat("input queue age ", decimal(pending_age as u64).as_str());
                let b = concat(a.as_str(), " exceeds authored buffer ");
                concat(b.as_str(), decimal(authored as u64).as_str())
            },
        }
    }
}

/// What the latency gate answers for these samples against `lane`.
pub open spec fn spec_meets(s: Seq<LatencySample>, lane: DeviceLane) -> Result<(), FeelGate> {
    let present = p95_of(present_values(s));
    let authority = p95_of(authority_values(s));
    if s.len() == 0 {
        Err(FeelGate::NoSamples)
    } else if present > lane.present_p95_us {
        Err(FeelGate::PresentP95 { us: present, cap: lane.present_p95_us })
    } else if authority > spec_authority_cap(lane) {
        Err(FeelGate::AuthorityP95 { us: authority, cap: spec_authority_cap(lane) })
    } else {
        Ok(())
    }
}

/// Ordered latency log. p95 is nearest-rank on the sorted samples.
#[derive(Clone, Debug)]
pub struct LatencyLog {
    samples: Vec<LatencySample>,
}

impl View for LatencyLog {
    type V = Seq<LatencySample>;

    closed spec fn view(&self) -> Seq<LatencySample> {
        self.samples@
    }
}

impl Default for LatencyLog {
    fn default() -> (r: LatencyLog)
        ensures
            r@ == Seq::<LatencySample>::empty(),
    {
        LatencyLog { samples: Vec::new() }
    }
}

impl LatencyLog {
    /// Empty log.
    pub fn new() -> (r: LatencyLog)
        ensures
            r@ == Seq::<LatencySample>::empty(),
    {
        LatencyLog { samples: Vec::new() }
    }

    /// Append one measured triple.
    pub fn push(&mut self, sample: LatencySample)
        ensures
            final(self)@ == old(self)@.push(sample),
    {
        self.samples.push(sample);
    }

    /// Recorded samples, capture order.
    pub fn samples(&self) -> (r: &[LatencySample])
        ensures
            r@ == self@,
    {
        self.samples.as_slice()
    }

    /// Nearest-rank p95 of `f` over the samples, or 0 when empty.
    pub fn p95_us(&self, f: impl Fn(LatencySample) -> u64) -> (r: u64)
        requires
            forall|s: LatencySample| #[trigger] f.requires((s,)),
        ensures
            exists|v: Seq<u64>|
                {
                    &&& v.len() == self@.len()
                    &&& forall|i: int| 0 <= i < v.len() ==> #[trigger] f.ensures((self@[i],), v[i])
                    &&& r == p95_of(v)
                },
    {
        let n = self.samples.len();
        let mut v: Vec<u64> = Vec::new();
        let mut i: usize = 0;
        while i < n
            invariant
                n == self@.len(),
                0 <= i <= n,
                v@.len() == i,
                forall|s: LatencySample| #[trigger] f.requires((s,)),
                forall|k: int| 0 <= k < i ==> #[trigger] f.ensures((self@[k],), v@[k]),
            decreases n - i,
        {
            let x = f(self.samples[i]);
            v.push(x);
            i = i + 1;
        }
        if n == 0 {
            assert(p95_of(v@) == 0);
            return 0;
        }
        let sorted = sort_values(&v);
        let c: u128 = (n as u128 * 95 + 99) / 100;
        let k: u128 = if c >= 1 {
            c - 1
        } else {
            0
        };
        let idx: usize = if k < (n - 1) as u128 {
            k as usize
        } else {
            n - 1
        };
        proof {
            lemma_u64_leq_total();
            v@.lemma_sort_by_ensures(u64_leq());
            assert(sorted@.len() == v@.len()) by {
                assert(sorted@.len() == sorted@.to_multiset().len());
                assert(v@.len() == v@.to_multiset().len());
            }
            assert(idx == rank_index(n as int));
        }
        let r = sorted[idx];
        assert(r == p95_of(v@));
        r
    }

    /// Fail closed against `lane`: no samples, then presentation p95 over
    /// its cap, then authority p95 over one tick plus the allowance.
    pub fn meets(&self, lane: DeviceLane) -> (r: Result<(), FeelGate>)
        ensures
            r == spec_meets(self@, lane),
    {
        if self.samples.len() == 0 {
            return Err(FeelGate::NoSamples);
        }
        let present = self.p95_us(LatencySample::present_latency_us);
        proof {
            let v = choose|v: Seq<u64>|
                {
                    &&& v.len() == self@.len()
                    &&& forall|i: int|
                        0 <= i < v.len() ==> #[trigger] call_ensures(
                            LatencySample::present_latency_us,
                            (self@[i],),
                            v[i],
                        )
                    &&& present == p95_of(v)
                };
            assert(v =~= present_values(self@)) by {
                assert forall|i: int| 0 <= i < v.len() implies v[i] == present_values(self@)[i] by {
                    assert(call_ensures(LatencySample::present_latency_us, (self@[i],), v[i]));
                }
            }
        }
        if present > lane.present_p95_us as u64 {
            return Err(FeelGate::PresentP95 { us: present, cap: lane.present_p95_us });
        }
        let authority = self.p95_us(LatencySample::authority_latency_us);
        proof {
            let v = choose|v: Seq<u64>|
                {
                    &&& v.len() == self@.len()
                    &&& forall|i: int|
                        0 <= i < v.len() ==> #[trigger] call_ensures(
                            LatencySample::authority_latency_us,
                            (self@[i],),
                            v[i],
                        )
                    &&& authority == p95_of(v)
                };
            assert(v =~= authority_values(self@)) by {
                assert forall|i: int| 0 <= i < v.len() implies v[i] == authority_values(self@)[i] by {
                    assert(call_ensures(LatencySample::authority_latency_us, (self@[i],), v[i]));
                }
            }
        }
        let cap = lane.authority_p95_us();
        if authority > cap as u64 {
            return Err(FeelGate::AuthorityP95 { us: authority, cap });
        }
        Ok(())
    }
}

/// The look pull of an assist on a yaw error: nothing outside the cone or
/// with no magnet; else `error * magnet / 1000` (toward zero), limited to
/// the correction cap and taken as an `i32`.
pub open spec fn spec_pull(yaw_error_md: i32, c: AimAssistContract) -> Option<i32> {
    let abs_err = if yaw_error_md < 0 { -yaw_error_md } else { yaw_error_md as int };
    if abs_err > c.cone_md || c.magnet_permille == 0 {
        None
    } else {
        let pull = tdiv(yaw_error_md * c.magnet_permille, 1000);
        Some(clamp_int(pull, -(c.max_correction_md as int), c.max_correction_md as int) as i32)
    }
}

/// Pull analog look toward a target yaw error. Never writes a projection.
pub fn apply_aim_assist(analog: Analog, yaw_error_md: i32, contract: AimAssistContract) -> (r: Analog)
    ensures
        match spec_pull(yaw_error_md, contract) {
            None => r == analog,
            Some(p) => r == (Analog { look_yaw: YawMd(analog.look_yaw.0.wrapping_add(p)), ..analog }),
        },
{
    let abs_err: u32 = if yaw_error_md < 0 {
        (-(yaw_error_md as i64)) as u32
    } else {
        yaw_error_md as u32
    };
    if abs_err > contract.cone_md || contract.magnet_permille == 0 {
        return analog;
    }
    assert(-0x8000_0000 * 65535 <= yaw_error_md * contract.magnet_permille <= 0x8000_0000 * 65535)
        by (nonlinear_arith)
        requires
            -0x8000_0000 <= yaw_error_md < 0x8000_0000,
            0 <= contract.magnet_permille <= 65535,
    {
    }
    let prod: i64 = yaw_error_md as i64 * contract.magnet_permille as i64;
    let pull: i64 = prod / 1000;
    proof {
        assert(pull == tdiv(prod as int, 1000));
    }
    let m: i64 = contract.max_correction_md as i64;
    let c: i64 = if pull < -m {
        -m
    } else if pull > m {
        m
    } else {
        pull
    };
    let capped: i32 = #[verifier::truncate] (c as i32);
    Analog { look_yaw: analog.look_yaw.wrapping_add(YawMd(capped)), ..analog }
}

} // verus!
