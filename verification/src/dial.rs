//! Executable dial state machine.
//!
//! [`DialState`] consumes one input event or one wall-clock tick at a time
//! and returns the effects the step decided on: how many haptic triggers to
//! fire, which volume values to emit, and whether a `click` semantic event
//! goes to the batcher. Every transition is proved equal to its model in
//! [`crate::model`].

use vstd::prelude::*;

use crate::model::{
    DialMode, DialModel, ReduceOutcome, abs_of, clamp_volume, click_spec, ema_next, init_spec,
    lemma_click_wf, lemma_init_wf, lemma_reduce_props, lemma_reset_wf, lemma_rotate_wf,
    lemma_threshold_range, lemma_tick_wf, reduce, reset_spec, rotate_spec, should_emit,
    threshold_for, tick_spec,
};

verus! {

/// Ghost image of an optional millisecond timestamp.
pub open spec fn time_view(t: Option<u64>) -> Option<int> {
    match t {
        Option::None => Option::None,
        Option::Some(ms) => Option::Some(ms as int),
    }
}

impl DialMode {
    /// Human-readable name of the mode.
    pub fn as_str(&self) -> (s: &'static str)
        ensures
            *self is Idle ==> s@ == "idle"@,
            *self is Active ==> s@ == "active"@,
            *self is Backlash ==> s@ == "backlash"@,
    {
        match self {
            DialMode::Idle => "idle",
            DialMode::Active => "active",
            DialMode::Backlash => "backlash",
        }
    }
}

/// The dial's tracking state. Times are milliseconds on a monotone clock
/// supplied by the caller.
pub struct DialState {
    pub mode: DialMode,
    pub last_event_at: Option<u64>,
    pub volume: i32,
    pub raw_accumulator: i64,
    pub smoothed_magnitude: i64,
    pub last_print_at: Option<u64>,
    pub last_printed_volume: i32,
    pub clicking: bool,
    pub click_started_at: Option<u64>,
    pub last_raw_direction: i32,
    pub consistent_direction_count: u32,
    pub pre_backlash_direction: i32,
    pub backlash_accumulator: i64,
}

impl View for DialState {
    type V = DialModel;

    open spec fn view(&self) -> DialModel {
        DialModel {
            mode: self.mode,
            last_event_at: time_view(self.last_event_at),
            volume: self.volume as int,
            raw_accumulator: self.raw_accumulator as int,
            smoothed_magnitude: self.smoothed_magnitude as int,
            last_print_at: time_view(self.last_print_at),
            last_printed_volume: self.last_printed_volume as int,
            clicking: self.clicking,
            click_started_at: time_view(self.click_started_at),
            last_raw_direction: self.last_raw_direction as int,
            consistent_direction_count: self.consistent_direction_count as int,
            pre_backlash_direction: self.pre_backlash_direction as int,
            backlash_accumulator: self.backlash_accumulator as int,
        }
    }
}

/// Effects decided by one rotation step.
pub struct RotateEffects {
    /// Haptic triggers to fire.
    pub feedback: u64,
    /// Volume values to publish, in order.
    pub emissions: Vec<i32>,
}

/// Effects decided by one button step.
pub struct ClickEffects {
    /// Haptic triggers to fire.
    pub feedback: u64,
    /// Whether one `click` semantic event goes to the batcher.
    pub click_emitted: bool,
}

/// Effects decided by one wall-clock tick.
pub struct TickEffects {
    /// Whether the idle timeout reset the dial.
    pub idle_reset: bool,
    /// Whether a stuck click was force-aborted (a non-fatal anomaly worth
    /// logging; no `click` event is emitted for it).
    pub click_aborted: bool,
}

/// Raw units of rotation per volume notch for a given smoothed magnitude.
fn notch_threshold(smoothed: i64) -> (t: i64)
    requires
        0 <= smoothed,
    ensures
        t == threshold_for(smoothed as int),
        200 <= t <= 600,
{
    proof {
        lemma_threshold_range(smoothed as int);
    }
    if smoothed <= 1000 {
        200
    } else if smoothed < 2000 {
        200 + (smoothed - 1000) / 5
    } else if smoothed < 22000 {
        400 + (smoothed - 2000) / 100
    } else {
        600
    }
}

/// Scalar results of one notch-conversion pass.
struct NotchResult {
    volume: i32,
    raw: i64,
    last_printed: i32,
    last_print_at: Option<u64>,
    feedback: u64,
    emissions: Vec<i32>,
}

/// Convert pending rotation into volume notches, mirroring
/// [`crate::model::reduce`].
#[verifier::loop_isolation(false)]
fn reduce_notches(volume: i32, raw: i64, threshold: i64, last_printed: i32, last_print_at: Option<u64>, now: u64) -> (r: NotchResult)
    requires
        0 <= volume <= 100,
        0 <= last_printed <= 100,
        volume as int / 10 == last_printed as int / 10,
        200 <= threshold <= 600,
        abs_of(raw as int) <= 0x1_0000_0000_0000,
    ensures
        ({
            let m = reduce(
                volume as int,
                raw as int,
                threshold as int,
                last_printed as int,
                time_view(last_print_at),
                now as int,
            );
            &&& r.volume as int == m.volume
            &&& r.raw as int == m.raw
            &&& r.last_printed as int == m.last_printed_volume
            &&& time_view(r.last_print_at) == m.last_print_at
            &&& r.feedback as int == m.feedback
            &&& r.emissions@.map_values(|v: i32| v as int) == m.emissions
        }),
        r.feedback as int <= abs_of(raw as int),
{
    let ghost raw0: int = raw as int;
    let ghost m_total: ReduceOutcome = reduce(
        volume as int,
        raw as int,
        threshold as int,
        last_printed as int,
        time_view(last_print_at),
        now as int,
    );
    let mut volume = volume;
    let mut raw = raw;
    let mut lp = last_printed;
    let mut lpa = last_print_at;
    let mut feedback: u64 = 0;
    let mut emissions: Vec<i32> = Vec::new();
    assert(emissions@.map_values(|v: i32| v as int) =~= Seq::<int>::empty());
    while raw >= threshold || raw <= -threshold
        invariant
            0 <= volume <= 100,
            0 <= lp <= 100,
            volume as int / 10 == lp as int / 10,
            abs_of(raw as int) <= abs_of(raw0),
            feedback as int <= abs_of(raw0) - abs_of(raw as int),
            ({
                let m = reduce(
                    volume as int,
                    raw as int,
                    threshold as int,
                    lp as int,
                    time_view(lpa),
                    now as int,
                );
                &&& m_total.volume == m.volume
                &&& m_total.raw == m.raw
                &&& m_total.last_printed_volume == m.last_printed_volume
                &&& m_total.last_print_at == m.last_print_at
                &&& m_total.feedback == feedback + m.feedback
                &&& m_total.emissions == emissions@.map_values(|v: i32| v as int) + m.emissions
            }),
        decreases abs_of(raw as int),
    {
        let ghost m_here = reduce(
            volume as int,
            raw as int,
            threshold as int,
            lp as int,
            time_view(lpa),
            now as int,
        );
        proof {
            lemma_reduce_props(
                volume as int,
                raw as int,
                threshold as int,
                lp as int,
                time_view(lpa),
                now as int,
            );
        }
        let dir: i32 = if raw > 0 {
            1
        } else {
            -1
        };
        if raw > 0 {
            raw = raw - threshold;
        } else {
            raw = raw + threshold;
        }
        let unclamped: i32 = volume + dir;
        if unclamped < 0 || unclamped > 100 {
            feedback = feedback + 1;
        }
        volume = if unclamped < 0 {
            0
        } else if unclamped > 100 {
            100
        } else {
            unclamped
        };
        let crossed = volume / 10 != lp / 10;
        let changed = volume != lp;
        let timely = match lpa {
            Option::None => true,
            Option::Some(t) => now >= t && now - t >= crate::EMIT_INTERVAL_MS,
        };
        assert((crossed || (changed && timely)) == should_emit(
            volume as int,
            lp as int,
            time_view(lpa),
            now as int,
        ));
        let ghost emissions_before = emissions@;
        if crossed || (changed && timely) {
            emissions.push(volume);
            lpa = Option::Some(now);
            lp = volume;
            assert(emissions@.map_values(|v: i32| v as int) =~= emissions_before.map_values(
                |v: i32| v as int,
            ) + seq![volume as int]);
        } else {
            assert(emissions_before.map_values(|v: i32| v as int) + Seq::<int>::empty()
                =~= emissions_before.map_values(|v: i32| v as int));
        }
        proof {
            let m_next = reduce(
                volume as int,
                raw as int,
                threshold as int,
                lp as int,
                time_view(lpa),
                now as int,
            );
            assert(m_here.emissions == (if emissions@.len() > emissions_before.len() {
                seq![volume as int]
            } else {
                Seq::<int>::empty()
            }) + m_next.emissions);
            assert(m_total.emissions =~= emissions@.map_values(|v: i32| v as int)
                + m_next.emissions);
        }
    }
    NotchResult { volume, raw, last_printed: lp, last_print_at: lpa, feedback, emissions }
}

impl DialState {
    /// Well-formedness of the dial state.
    pub open spec fn wf(&self) -> bool {
        crate::model::wf(self@)
    }

    /// A freshly started dial: idle, volume 50, nothing pending.
    pub fn new() -> (s: Self)
        ensures
            s@ == init_spec(),
            s.wf(),
    {
        proof {
            lemma_init_wf();
        }
        DialState {
            mode: DialMode::Idle,
            last_event_at: Option::None,
            volume: 50,
            raw_accumulator: 0,
            smoothed_magnitude: 0,
            last_print_at: Option::None,
            last_printed_volume: 50,
            clicking: false,
            click_started_at: Option::None,
            last_raw_direction: 0,
            consistent_direction_count: 0,
            pre_backlash_direction: 0,
            backlash_accumulator: 0,
        }
    }

    /// Full reset to `Idle`, as after an idle timeout or a lost device:
    /// rotation, direction, backlash and click state are cleared; volume,
    /// smoothed magnitude and emission bookkeeping persist.
    pub fn reset_to_idle(&mut self)
        requires
            old(self).wf(),
        ensures
            final(self)@ == reset_spec(old(self)@),
            final(self).wf(),
    {
        proof {
            lemma_reset_wf(old(self)@);
        }
        self.mode = DialMode::Idle;
        self.raw_accumulator = 0;
        self.last_raw_direction = 0;
        self.consistent_direction_count = 0;
        self.pre_backlash_direction = 0;
        self.backlash_accumulator = 0;
        self.clicking = false;
        self.click_started_at = Option::None;
    }

    /// Process one `Rotate(delta)` event arriving at `now`.
    pub fn on_rotate(&mut self, delta: i32, now: u64) -> (fx: RotateEffects)
        requires
            old(self).wf(),
        ensures
            final(self).wf(),
            final(self)@ == rotate_spec(old(self)@, delta as int, now as int).post,
            fx.feedback as int == rotate_spec(old(self)@, delta as int, now as int).feedback,
            fx.emissions@.map_values(|v: i32| v as int) == rotate_spec(
                old(self)@,
                delta as int,
                now as int,
            ).emissions,
    {
        proof {
            lemma_rotate_wf(old(self)@, delta as int, now as int);
        }
        let mut feedback: u64 = 0;
        if self.mode == DialMode::Idle {
            self.mode = DialMode::Active;
            feedback = 1;
        }
        self.last_event_at = Option::Some(now);
        if self.clicking {
            let fx = RotateEffects { feedback, emissions: Vec::new() };
            assert(fx.emissions@.map_values(|v: i32| v as int) =~= Seq::<int>::empty());
            return fx;
        }
        let direction: i32 = if delta > 0 {
            1
        } else if delta < 0 {
            -1
        } else {
            0
        };
        if direction != 0 && self.last_raw_direction != 0 && direction != self.last_raw_direction {
            if self.mode != DialMode::Backlash {
                self.pre_backlash_direction = self.last_raw_direction;
            }
            self.mode = DialMode::Backlash;
            self.consistent_direction_count = 1;
            self.raw_accumulator = 0;
            self.backlash_accumulator = delta as i64;
            self.last_raw_direction = direction;
        } else if direction == self.last_raw_direction {
            if self.consistent_direction_count < u32::MAX {
                self.consistent_direction_count = self.consistent_direction_count + 1;
            }
            if self.mode == DialMode::Backlash {
                self.backlash_accumulator = self.backlash_accumulator + delta as i64;
            }
        } else {
            self.last_raw_direction = direction;
        }
        let magnitude: i64 = if delta >= 0 {
            delta as i64
        } else {
            -(delta as i64)
        };
        self.smoothed_magnitude = (3000 * magnitude + 7 * self.smoothed_magnitude) / 10;
        assert(self@.smoothed_magnitude == ema_next(
            old(self)@.smoothed_magnitude,
            abs_of(delta as int),
        ));
        if self.mode == DialMode::Backlash {
            if direction == self.pre_backlash_direction && self.consistent_direction_count
                >= crate::BACKLASH_CANCEL_THRESHOLD {
                self.mode = DialMode::Active;
                self.raw_accumulator = self.backlash_accumulator;
            } else if self.consistent_direction_count >= crate::BACKLASH_THRESHOLD {
                self.mode = DialMode::Active;
                self.raw_accumulator = self.backlash_accumulator;
                feedback = feedback + 1;
            } else {
                let fx = RotateEffects { feedback, emissions: Vec::new() };
                assert(fx.emissions@.map_values(|v: i32| v as int) =~= Seq::<int>::empty());
                return fx;
            }
        } else {
            self.raw_accumulator = self.raw_accumulator + delta as i64;
        }
        let threshold = notch_threshold(self.smoothed_magnitude);
        let r = reduce_notches(
            self.volume,
            self.raw_accumulator,
            threshold,
            self.last_printed_volume,
            self.last_print_at,
            now,
        );
        self.volume = r.volume;
        self.raw_accumulator = r.raw;
        self.last_printed_volume = r.last_printed;
        self.last_print_at = r.last_print_at;
        RotateEffects { feedback: feedback + r.feedback, emissions: r.emissions }
    }

    /// Process one `Click(pressed)` event arriving at `now`.
    pub fn on_click(&mut self, pressed: bool, now: u64) -> (fx: ClickEffects)
        requires
            old(self).wf(),
        ensures
            final(self).wf(),
            final(self)@ == click_spec(old(self)@, pressed, now as int).post,
            fx.feedback as int == click_spec(old(self)@, pressed, now as int).feedback,
            fx.click_emitted == click_spec(old(self)@, pressed, now as int).click_emitted,
    {
        proof {
            lemma_click_wf(old(self)@, pressed, now as int);
        }
        let mut feedback: u64 = 0;
        if self.mode == DialMode::Idle {
            self.mode = DialMode::Active;
            feedback = 1;
        }
        self.last_event_at = Option::Some(now);
        if pressed {
            self.clicking = true;
            self.click_started_at = Option::Some(now);
            ClickEffects { feedback, click_emitted: false }
        } else if self.clicking {
            self.clicking = false;
            self.click_started_at = Option::None;
            ClickEffects { feedback, click_emitted: true }
        } else {
            ClickEffects { feedback, click_emitted: false }
        }
    }

    /// Process one wall-clock tick at `now`: apply the idle timeout and the
    /// click timeout.
    pub fn on_tick(&mut self, now: u64) -> (fx: TickEffects)
        requires
            old(self).wf(),
        ensures
            final(self).wf(),
            final(self)@ == tick_spec(old(self)@, now as int),
            fx.idle_reset == (!(old(self)@.mode is Idle) && crate::model::idle_expired(
                old(self)@,
                now as int,
            )),
            fx.click_aborted == ({
                let s1 = if !(old(self)@.mode is Idle) && crate::model::idle_expired(
                    old(self)@,
                    now as int,
                ) {
                    reset_spec(old(self)@)
                } else {
                    old(self)@
                };
                s1.clicking && crate::model::click_expired(s1, now as int)
            }),
    {
        proof {
            lemma_tick_wf(old(self)@, now as int);
        }
        let mut idle_reset = false;
        let is_idle = self.mode == DialMode::Idle;
        if !is_idle {
            let expired = match self.last_event_at {
                Option::None => false,
                Option::Some(t) => now >= t && now - t >= crate::IDLE_TIMEOUT_MS,
            };
            if expired {
                self.reset_to_idle();
                idle_reset = true;
            }
        }
        let mut click_aborted = false;
        if self.clicking {
            let expired = match self.click_started_at {
                Option::None => false,
                Option::Some(t) => now >= t && now - t >= crate::CLICK_TIMEOUT_MS,
            };
            if expired {
                self.clicking = false;
                self.click_started_at = Option::None;
                self.raw_accumulator = 0;
                click_aborted = true;
            }
        }
        TickEffects { idle_reset, click_aborted }
    }

    /// Apply a remotely set volume. It is honoured only while the dial is
    /// idle, so that it never fights a gesture in progress.
    pub fn apply_remote_volume(&mut self, volume: i32)
        requires
            old(self).wf(),
        ensures
            final(self).wf(),
            old(self)@.mode is Idle ==> final(self)@ == (DialModel {
                volume: clamp_volume(volume as int),
                last_printed_volume: clamp_volume(volume as int),
                ..old(self)@
            }),
            !(old(self)@.mode is Idle) ==> final(self)@ == old(self)@,
    {
        if self.mode == DialMode::Idle {
            let clamped = if volume < 0 {
                0
            } else if volume > 100 {
                100
            } else {
                volume
            };
            self.volume = clamped;
            self.last_printed_volume = clamped;
        }
    }
}

} // verus!
