//! The feel layer around a device mapper: bounded input buffer, coyote
//! time, cancel/combo windows, hold-to-toggle, response curves and aim
//! assist, applied to what the bind table mapped for one sample.
use vstd::prelude::*;

use crate::feel::{
    camera_fault, curve_fault, feel_fault, feel_valid, pairs_fault, spec_apply, spindle_contract, windows_fault, Analog, FeelContract, TickWindow};
use crate::ir_error::IrError;
use crate::latency::{apply_aim_assist, spec_pull, FeelGate};
use crate::names::Verb;
use crate::units::{Tick, YawMd};

verus! {

/// What the feel layer reads of one device sample.
#[derive(Copy, Clone, PartialEq, Eq, Structural, Debug)]
pub struct FeelSample {
    /// Authoritative tick of the sample.
    pub tick: Tick,
    /// The actor stands on support this tick.
    pub grounded: bool,
    /// Raw stick X.
    pub stick_x: i16,
    /// Raw stick Z (forward).
    pub stick_z: i16,
    /// Signed yaw error to the assist target, millidegrees.
    pub aim_yaw_error_md: i32,
}

/// The verb and analog fields of an intent: as the bind table mapped them
/// for a sample, and as the feel layer returns them.
#[derive(Copy, Clone, PartialEq, Eq, Structural, Debug)]
pub struct MappedIntent {
    /// Verb.
    pub verb: Verb,
    /// Analog fields.
    pub analog: Analog,
}

/// Move, look and steer are continuous; every other verb is a discrete press.
pub open spec fn discrete(v: Verb) -> bool {
    !(v == Verb::Move || v == Verb::Look || v == Verb::Steer)
}

/// `a - b` on ticks, or zero when `b` is later.
pub open spec fn tick_gap(a: u64, b: u64) -> int {
    if a >= b {
        a - b
    } else {
        0
    }
}

/// The feel layer's state between samples.
pub struct FeelState {
    /// Buffered discrete presses, oldest first: (tick, verb).
    pub pending: Seq<(u64, Verb)>,
    /// Last tick on support.
    pub last_grounded: Option<u64>,
    /// Tick the current action started.
    pub action_start: Option<u64>,
    /// A held discrete press was already emitted.
    pub toggle_down: bool,
}

/// Coyote time: within the authored ticks of the last support.
pub open spec fn spec_coyote(c: FeelContract, last_grounded: Option<u64>, now: u64) -> bool {
    match last_grounded {
        Some(at) => tick_gap(now, at) <= c.coyote_ticks,
        None => false,
    }
}

/// Window `w` admits `verb` at `elapsed`.
pub open spec fn window_hit(w: TickWindow, verb: Verb, elapsed: u8) -> bool {
    w.verb == verb && w.start <= elapsed && elapsed <= w.end
}

/// Some window of the list admits `verb` at `elapsed`.
pub open spec fn any_window(ws: Seq<TickWindow>, verb: Verb, elapsed: u8) -> bool {
    exists|i: int| 0 <= i < ws.len() && #[trigger] window_hit(ws[i], verb, elapsed)
}

/// A window admits the verb now: always before an action starts; else a
/// cancel or combo window for it, or the action's first tick.
pub open spec fn spec_window_allows(c: FeelContract, verb: Verb, elapsed: Option<u8>) -> bool {
    match elapsed {
        None => true,
        Some(e) => any_window(c.cancel_windows@, verb, e) || any_window(c.combo_windows@, verb, e) || e == 0,
    }
}

/// Grounded actions need support now or coyote time; everything else may fire.
pub open spec fn spec_allowed_now(c: FeelContract, last_grounded: Option<u64>, verb: Verb, now: u64) -> bool {
    if verb == Verb::Use || verb == Verb::Open || verb == Verb::Carry || verb == Verb::Drop {
        spec_coyote(c, last_grounded, now) || last_grounded == Some(now)
    } else {
        true
    }
}

/// Ticks since the action started, saturated at 255.
pub open spec fn spec_elapsed(action_start: Option<u64>, now: u64) -> Option<u8> {
    match action_start {
        None => None,
        Some(s) => Some(if tick_gap(now, s) > 255 { 255u8 } else { tick_gap(now, s) as u8 }),
    }
}

/// The pending entry `i` may be released now.
pub open spec fn releasable(c: FeelContract, st: FeelState, now: u64, i: int) -> bool {
    spec_window_allows(c, st.pending[i].1, spec_elapsed(st.action_start, now)) && spec_allowed_now(
        c,
        st.last_grounded,
        st.pending[i].1,
        now,
    )
}

/// The first releasable pending entry at or after `k`.
pub open spec fn first_release(c: FeelContract, st: FeelState, now: u64, k: int) -> Option<int>
    decreases st.pending.len() - k,
{
    if k < 0 || k >= st.pending.len() {
        None
    } else if releasable(c, st, now, k) {
        Some(k)
    } else {
        first_release(c, st, now, k + 1)
    }
}

/// The verb after hold-to-toggle, and the new toggle state.
pub open spec fn spec_toggle(verb: Verb, down: bool) -> (Verb, bool) {
    if discrete(verb) && !down {
        (verb, true)
    } else if discrete(verb) && down {
        (Verb::Look, true)
    } else {
        (verb, false)
    }
}

/// Analog after the curves (accel when the stick moves, decel at rest,
/// applied to the raw sticks) and the optional assist.
pub open spec fn spec_analog(c: FeelContract, s: FeelSample, a: Analog) -> Analog {
    let curve = if s.stick_x == 0 && s.stick_z == 0 {
        c.decel_curve.knots@
    } else {
        c.accel_curve.knots@
    };
    let curved = Analog {
        stick_x: spec_apply(curve, s.stick_x as int) as i16,
        stick_z: spec_apply(curve, s.stick_z as int) as i16,
        ..a
    };
    match c.aim_assist {
        None => curved,
        Some(assist) => match spec_pull(s.aim_yaw_error_md, assist) {
            None => curved,
            Some(p) => Analog { look_yaw: YawMd(curved.look_yaw.0.wrapping_add(p)), ..curved },
        },
    }
}

/// One sample through the feel layer: record support, fail on a buffered
/// press older than the authored buffer, shape the analog, apply
/// hold-to-toggle, buffer a discrete press, then release the first
/// buffered press that a window and support admit (starting the action),
/// or hold the press back as move/look.
pub open spec fn spec_map(c: FeelContract, st: FeelState, s: FeelSample, m: MappedIntent) -> (FeelState, Result<MappedIntent, FeelGate>) {
    let now = s.tick.0;
    let st1 = FeelState { last_grounded: if s.grounded { Some(now) } else { st.last_grounded }, ..st };
    if st1.pending.len() > 0 && tick_gap(now, st1.pending[0].0) > c.input_buffer_ticks {
        let age = tick_gap(now, st1.pending[0].0);
        (st1, Err(FeelGate::UnexplainedQueue {
            authored: c.input_buffer_ticks,
            pending_age: if age > 255 { 255u8 } else { age as u8 },
        }))
    } else {
        let analog = spec_analog(c, s, m.analog);
        let toggled = if c.accessibility.hold_to_toggle {
            spec_toggle(m.verb, st1.toggle_down)
        } else {
            (m.verb, st1.toggle_down)
        };
        let verb = toggled.0;
        let d = discrete(verb);
        let st2 = FeelState {
            pending: if d { st1.pending.push((now, verb)) } else { st1.pending },
            toggle_down: toggled.1,
            ..st1
        };
        match first_release(c, st2, now, 0) {
            Some(i) => (
                FeelState {
                    pending: st2.pending.remove(i),
                    action_start: if st2.action_start is None { Some(now) } else { st2.action_start },
                    ..st2
                },
                Ok(MappedIntent { verb: st2.pending[i].1, analog }),
            ),
            None => (
                st2,
                Ok(MappedIntent {
                    verb: if d {
                        if s.stick_x != 0 || s.stick_z != 0 {
                            Verb::Move
                        } else {
                            Verb::Look
                        }
                    } else {
                        verb
                    },
                    analog,
                }),
            ),
        }
    }
}

/// Mapper that applies a [`FeelContract`] around a device mapper.
pub struct FeelMapper {
    contract: FeelContract,
    pending: Vec<(Tick, Verb)>,
    last_grounded: Option<Tick>,
    action_start: Option<Tick>,
    toggle_down: bool,
}

/// Ticks of a pending buffer.
pub open spec fn pending_view(p: Seq<(Tick, Verb)>) -> Seq<(u64, Verb)> {
    p.map_values(|e: (Tick, Verb)| (e.0.0, e.1))
}

/// The tick held in an optional tick.
pub open spec fn opt_tick(t: Option<Tick>) -> Option<u64> {
    match t {
        Some(x) => Some(x.0),
        None => None,
    }
}

fn is_discrete(v: Verb) -> (r: bool)
    ensures
        r == discrete(v),
{
    !(v == Verb::Move || v == Verb::Look || v == Verb::Steer)
}

fn tick_gap_exec(a: u64, b: u64) -> (r: u64)
    ensures
        r == tick_gap(a, b),
{
    a.saturating_sub(b)
}

fn window_in(ws: &Vec<TickWindow>, verb: Verb, e: u8) -> (r: bool)
    ensures
        r == any_window(ws@, verb, e),
{
    let mut i: usize = 0;
    while i < ws.len()
        invariant
            0 <= i <= ws@.len(),
            forall|j: int| 0 <= j < i ==> !#[trigger] window_hit(ws@[j], verb, e),
        decreases ws@.len() - i,
    {
        let w = ws[i];
        if w.verb == verb && w.contains(e) {
            assert(window_hit(ws@[i as int], verb, e));
            return true;
        }
        i = i + 1;
    }
    false
}

impl FeelMapper {
    /// The feel state.
    pub closed spec fn state(&self) -> FeelState {
        FeelState {
            pending: pending_view(self.pending@),
            last_grounded: opt_tick(self.last_grounded),
            action_start: opt_tick(self.action_start),
            toggle_down: self.toggle_down,
        }
    }

    /// The contract in use (spec).
    pub closed spec fn spec_contract(&self) -> FeelContract {
        self.contract
    }

    /// Wrap `contract` with an empty buffer, validating it first.
    pub fn new(contract: FeelContract) -> (r: Result<FeelMapper, IrError>)
        ensures
            r is Ok <==> feel_valid(contract),
            r matches Ok(m) ==> m.spec_contract() == contract && m.state().pending.len() == 0
                && m.state().last_grounded is None && m.state().action_start is None
                && !m.state().toggle_down,
    {
        match contract.validate() {
            Err(e) => Err(e),
            Ok(()) => {
                let m = FeelMapper {
                    contract,
                    pending: Vec::new(),
                    last_grounded: None,
                    action_start: None,
                    toggle_down: false,
                };
                assert(pending_view(m.pending@) =~= Seq::<(u64, Verb)>::empty());
                Ok(m)
            },
        }
    }

    /// The Spindle Use suite over an empty buffer.
    pub fn spindle() -> (r: Result<FeelMapper, IrError>)
        ensures
            r is Ok,
            r matches Ok(m) ==> m.state().pending.len() == 0 && m.state().last_grounded is None
                && m.state().action_start is None && !m.state().toggle_down && spindle_contract(
                m.spec_contract(),
            ),
    {
        let c = FeelContract::spindle_use();
        proof {
            let ws = c.cancel_windows@ + c.combo_windows@;
            assert(ws.len() == 2);
            assert(ws[0] == TickWindow { start: 0, end: 3, verb: Verb::Drop });
            assert(ws[1] == TickWindow { start: 4, end: 8, verb: Verb::Use });
            reveal_with_fuel(windows_fault, 3);
            assert(windows_fault(ws, ws.len()) is None);
            let k = c.accel_curve.knots@;
            reveal_with_fuel(pairs_fault, 2);
            assert(pairs_fault(k, 1) is None);
            assert(curve_fault(k) is None);
            assert(curve_fault(c.decel_curve.knots@) is None);
            assert(camera_fault(c.camera) is None);
            assert(feel_fault(c) is None);
            assert(c.action@.len() > 0) by {
                reveal_strlit("use");
            }
            assert(c.haptics@.len() > 0) by {
                reveal_strlit("hit");
            }
        }
        FeelMapper::new(c)
    }

    /// Contract in use.
    pub fn contract(&self) -> (r: &FeelContract)
        ensures
            *r == self.spec_contract(),
    {
        &self.contract
    }

    /// Pending discrete presses, oldest first.
    pub fn pending(&self) -> (r: Vec<(Tick, Verb)>)
        ensures
            pending_view(r@) == self.state().pending,
    {
        let mut out: Vec<(Tick, Verb)> = Vec::new();
        let mut i: usize = 0;
        while i < self.pending.len()
            invariant
                0 <= i <= self.pending@.len(),
                out@ == self.pending@.take(i as int),
            decreases self.pending@.len() - i,
        {
            let e = self.pending[i];
            out.push(e);
            i = i + 1;
            assert(out@ =~= self.pending@.take(i as int));
        }
        assert(self.pending@.take(self.pending@.len() as int) =~= self.pending@);
        out
    }

    fn coyote(&self, now: Tick) -> (r: bool)
        ensures
            r == spec_coyote(self.contract, opt_tick(self.last_grounded), now.0),
    {
        match self.last_grounded {
            Some(at) => tick_gap_exec(now.0, at.0) <= self.contract.coyote_ticks as u64,
            None => false,
        }
    }

    fn window_allows(&self, verb: Verb, elapsed: Option<u8>) -> (r: bool)
        ensures
            r == spec_window_allows(self.contract, verb, elapsed),
    {
        match elapsed {
            None => true,
            Some(e) => {
                if window_in(&self.contract.cancel_windows, verb, e) {
                    return true;
                }
                if window_in(&self.contract.combo_windows, verb, e) {
                    return true;
                }
                e == 0
            },
        }
    }

    fn verb_allowed_now(&self, verb: Verb, now: Tick) -> (r: bool)
        ensures
            r == spec_allowed_now(self.contract, opt_tick(self.last_grounded), verb, now.0),
    {
        if verb == Verb::Move || verb == Verb::Look || verb == Verb::Steer {
            return true;
        }
        if verb == Verb::Use || verb == Verb::Open || verb == Verb::Carry || verb == Verb::Drop {
            let grounded_now = match self.last_grounded {
                Some(at) => at.0 == now.0,
                None => false,
            };
            return self.coyote(now) || grounded_now;
        }
        true
    }

    fn elapsed(&self, now: Tick) -> (r: Option<u8>)
        ensures
            r == spec_elapsed(opt_tick(self.action_start), now.0),
    {
        match self.action_start {
            None => None,
            Some(start) => {
                let g = tick_gap_exec(now.0, start.0);
                Some(if g > 255 {
                    255u8
                } else {
                    g as u8
                })
            },
        }
    }

    fn release(&mut self, now: Tick) -> (r: Option<Verb>)
        ensures
            final(self).contract == old(self).contract,
            final(self).last_grounded == old(self).last_grounded,
            final(self).toggle_down == old(self).toggle_down,
            match first_release(old(self).contract, old(self).state(), now.0, 0) {
                Some(i) => r == Some(old(self).state().pending[i].1) && final(self).state().pending
                    == old(self).state().pending.remove(i) && final(self).action_start
                    == old(self).action_start,
                None => r is None && final(self).pending@ == old(self).pending@
                    && final(self).action_start == old(self).action_start,
            },
    {
        let ghost st = self.state();
        let elapsed = self.elapsed(now);
        let mut i: usize = 0;
        while i < self.pending.len()
            invariant
                0 <= i <= self.pending@.len(),
                self.contract == old(self).contract,
                self.last_grounded == old(self).last_grounded,
                self.action_start == old(self).action_start,
                self.toggle_down == old(self).toggle_down,
                self.pending@ == old(self).pending@,
                st == old(self).state(),
                st == self.state(),
                elapsed == spec_elapsed(st.action_start, now.0),
                first_release(self.contract, st, now.0, 0) == first_release(self.contract, st, now.0, i as int),
            decreases self.pending@.len() - i,
        {
            let verb = self.pending[i].1;
            assert(st.pending[i as int].1 == verb);
            if self.window_allows(verb, elapsed) && self.verb_allowed_now(verb, now) {
                let ghost before = self.pending@;
                let e = self.pending.remove(i);
                proof {
                    assert(pending_view(self.pending@) =~= pending_view(before).remove(i as int));
                }
                return Some(e.1);
            }
            i = i + 1;
        }
        None
    }

    /// Map one sample whose bind-table mapping is `mapped`. Curves, buffer,
    /// coyote, cancel/combo windows, hold-to-toggle and aim assist apply.
    /// The bind table itself belongs to the input crate's root, which is not
    /// part of this build, so its mapping arrives as `mapped`.
    pub fn map(&mut self, sample: &FeelSample, mapped: MappedIntent) -> (r: Result<MappedIntent, FeelGate>)
        ensures
            final(self).spec_contract() == old(self).spec_contract(),
            (final(self).state(), r) == spec_map(old(self).spec_contract(), old(self).state(), *sample, mapped),
    {
        let now = sample.tick;
        if sample.grounded {
            self.last_grounded = Some(now);
        }
        if self.pending.len() > 0 {
            let at = self.pending[0].0;
            let age = tick_gap_exec(now.0, at.0);
            if age > self.contract.input_buffer_ticks as u64 {
                return Err(FeelGate::UnexplainedQueue {
                    authored: self.contract.input_buffer_ticks,
                    pending_age: if age > 255 {
                        255u8
                    } else {
                        age as u8
                    },
                });
            }
        }
        let mut analog = mapped.analog;
        if sample.stick_x == 0 && sample.stick_z == 0 {
            analog.stick_x = self.contract.decel_curve.apply_i16(sample.stick_x);
            analog.stick_z = self.contract.decel_curve.apply_i16(sample.stick_z);
        } else {
            analog.stick_x = self.contract.accel_curve.apply_i16(sample.stick_x);
            analog.stick_z = self.contract.accel_curve.apply_i16(sample.stick_z);
        }
        let mut verb = mapped.verb;
        if self.contract.accessibility.hold_to_toggle {
            let held = is_discrete(verb);
            if held && !self.toggle_down {
                self.toggle_down = true;
            } else if held && self.toggle_down {
                verb = Verb::Look;
            } else {
                self.toggle_down = false;
            }
        }
        if let Some(assist) = self.contract.aim_assist {
            analog = apply_aim_assist(analog, sample.aim_yaw_error_md, assist);
        }
        let d = is_discrete(verb);
        if d {
            let ghost before = self.pending@;
            self.pending.push((now, verb));
            proof {
                assert(pending_view(self.pending@) =~= pending_view(before).push((now.0, verb)));
            }
        }
        match self.release(now) {
            Some(v) => {
                if self.action_start.is_none() {
                    self.action_start = Some(now);
                }
                Ok(MappedIntent { verb: v, analog })
            },
            None => {
                let out = if d {
                    if sample.stick_x != 0 || sample.stick_z != 0 {
                        Verb::Move
                    } else {
                        Verb::Look
                    }
                } else {
                    verb
                };
                Ok(MappedIntent { verb: out, analog })
            },
        }
    }
}

} // verus!
