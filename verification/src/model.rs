//! Mathematical model of the dial state machine.
//!
//! Every executable transition of [`crate::dial::DialState`] is specified as
//! a function over [`DialModel`], a ghost image of the state with unbounded
//! integers. The laws in [`crate::laws`] are stated and proved over these
//! functions.

use vstd::prelude::*;

verus! {

/// Tracking mode of the dial.
///
/// `Idle`: no recent input. `Active`: normal notch tracking. `Backlash`: a
/// direction reversal was seen and is being held back until it is either
/// confirmed as a real gesture or cancelled as mechanical noise.
#[derive(Clone, Copy, PartialEq, Eq, Structural, Debug)]
pub enum DialMode {
    Idle,
    Active,
    Backlash,
}

/// Ghost image of the dial state. Times are in milliseconds.
pub ghost struct DialModel {
    pub mode: DialMode,
    /// Arrival time of the most recent input event.
    pub last_event_at: Option<int>,
    /// Output level, always in `[0, 100]`.
    pub volume: int,
    /// Sub-notch rotation pending conversion to volume, in raw units.
    pub raw_accumulator: int,
    /// Exponential moving average of per-event rotation magnitude,
    /// scaled by 1000.
    pub smoothed_magnitude: int,
    /// Time of the most recent volume emission.
    pub last_print_at: Option<int>,
    /// Volume value of the most recent volume emission.
    pub last_printed_volume: int,
    /// Whether the button is currently held.
    pub clicking: bool,
    /// Time the current button hold began.
    pub click_started_at: Option<int>,
    /// Sign of the most recent rotation delta: -1, 0 or 1.
    pub last_raw_direction: int,
    /// Consecutive events seen in the same direction.
    pub consistent_direction_count: int,
    /// Direction held before entering `Backlash`.
    pub pre_backlash_direction: int,
    /// Rotation buffered while in `Backlash`.
    pub backlash_accumulator: int,
}

/// What one rotation step decides on besides the new state.
pub ghost struct RotateOutcome {
    pub post: DialModel,
    /// Number of haptic triggers fired by this step.
    pub feedback: int,
    /// Volume values emitted by this step, in order.
    pub emissions: Seq<int>,
}

/// What one button step decides on besides the new state.
pub ghost struct ClickOutcome {
    pub post: DialModel,
    /// Number of haptic triggers fired by this step.
    pub feedback: int,
    /// Whether a `click` semantic event is handed to the batcher.
    pub click_emitted: bool,
}

/// Result of converting accumulated rotation into volume notches.
pub ghost struct ReduceOutcome {
    pub volume: int,
    pub raw: int,
    pub last_print_at: Option<int>,
    pub last_printed_volume: int,
    /// Boundary bumps fired while converting.
    pub feedback: int,
    /// Volume values emitted while converting, in order.
    pub emissions: Seq<int>,
}

/// Sign of a rotation delta: -1, 0 or 1.
pub open spec fn sign_of(d: int) -> int {
    if d > 0 {
        1
    } else if d < 0 {
        -1
    } else {
        0
    }
}

/// Magnitude of a rotation delta.
pub open spec fn abs_of(d: int) -> int {
    if d >= 0 {
        d
    } else {
        -d
    }
}

/// Milliseconds elapsed from `t` to `now`, saturating at zero if the clock
/// ran backwards.
pub open spec fn elapsed_ms(t: int, now: int) -> int {
    if now >= t {
        now - t
    } else {
        0
    }
}

/// Clamp a volume level to `[0, 100]`.
pub open spec fn clamp_volume(v: int) -> int {
    if v < 0 {
        0
    } else if v > 100 {
        100
    } else {
        v
    }
}

/// Increment a direction-run counter, saturating at the width of the
/// executable counter.
pub open spec fn saturating_inc(c: int) -> int {
    if c < 0xffff_ffff {
        c + 1
    } else {
        c
    }
}

/// Largest value the smoothed magnitude can reach: 1000 times the largest
/// per-event magnitude.
pub open spec fn smoothed_cap() -> int {
    1000int * 0x8000_0000int
}

/// One step of the exponentially weighted moving average of rotation
/// magnitude, with weight 0.3 on the new sample, in fixed-point arithmetic
/// scaled by 1000.
pub open spec fn ema_next(smoothed: int, magnitude: int) -> int {
    (3000 * magnitude + 7 * smoothed) / 10
}

/// Raw units of rotation per volume notch, as a function of the smoothed
/// magnitude (scaled by 1000): a two-segment piecewise-linear curve through
/// 200 at magnitude 1, 400 at magnitude 2 and 600 at magnitude 22, clamped
/// to `[200, 600]`.
pub open spec fn threshold_for(smoothed: int) -> int {
    if smoothed <= 1000 {
        200
    } else if smoothed < 2000 {
        200 + (smoothed - 1000) / 5
    } else if smoothed < 22000 {
        400 + (smoothed - 2000) / 100
    } else {
        600
    }
}

/// The emission-suppression rule: a volume update is emitted only if the
/// volume crossed a multiple of 10, or it differs from the last emitted
/// value and enough time passed since the last emission.
pub open spec fn should_emit(current: int, last_printed: int, last_print_at: Option<int>, now: int) -> bool {
    let crossed = current / 10 != last_printed / 10;
    let changed = current != last_printed;
    let timely = match last_print_at {
        Option::None => true,
        Option::Some(t) => elapsed_ms(t, now) >= crate::EMIT_INTERVAL_MS,
    };
    crossed || (changed && timely)
}

/// Convert accumulated rotation into volume notches: while a threshold's
/// worth of raw units is pending, move the volume by one, fire a boundary
/// bump if the unclamped move would leave `[0, 100]`, and emit the new
/// volume subject to [`should_emit`].
pub open spec fn reduce(volume: int, raw: int, threshold: int, last_printed: int, last_print_at: Option<int>, now: int) -> ReduceOutcome
    decreases abs_of(raw),
{
    if threshold <= 0 || abs_of(raw) < threshold {
        ReduceOutcome {
            volume,
            raw,
            last_print_at,
            last_printed_volume: last_printed,
            feedback: 0,
            emissions: Seq::empty(),
        }
    } else {
        let dir: int = if raw > 0 {
            1
        } else {
            -1
        };
        let raw2 = if raw > 0 {
            raw - threshold
        } else {
            raw + threshold
        };
        let unclamped = volume + dir;
        let bump: int = if unclamped < 0 || unclamped > 100 {
            1
        } else {
            0
        };
        let v2 = clamp_volume(unclamped);
        let emit = should_emit(v2, last_printed, last_print_at, now);
        let lp2 = if emit {
            v2
        } else {
            last_printed
        };
        let lpa2 = if emit {
            Option::Some(now)
        } else {
            last_print_at
        };
        let here: Seq<int> = if emit {
            seq![v2]
        } else {
            Seq::empty()
        };
        let rest = reduce(v2, raw2, threshold, lp2, lpa2, now);
        ReduceOutcome {
            volume: rest.volume,
            raw: rest.raw,
            last_print_at: rest.last_print_at,
            last_printed_volume: rest.last_printed_volume,
            feedback: bump + rest.feedback,
            emissions: here + rest.emissions,
        }
    }
}

/// A haptic trigger is fired when an event wakes the dial from `Idle`.
pub open spec fn wake_feedback(s: DialModel) -> int {
    if s.mode is Idle {
        1
    } else {
        0
    }
}

/// Every input event wakes the dial and stamps the event time.
pub open spec fn awaken(s: DialModel, now: int) -> DialModel {
    DialModel {
        mode: if s.mode is Idle {
            DialMode::Active
        } else {
            s.mode
        },
        last_event_at: Option::Some(now),
        ..s
    }
}

/// Direction bookkeeping of one rotation event: a reversal against a known
/// direction enters `Backlash`, discards the pending accumulator and starts
/// buffering; a same-direction event extends the run and, in `Backlash`,
/// keeps buffering.
pub open spec fn track_direction(s: DialModel, delta: int) -> DialModel {
    let dir = sign_of(delta);
    let last = s.last_raw_direction;
    if dir != 0 && last != 0 && dir != last {
        DialModel {
            mode: DialMode::Backlash,
            pre_backlash_direction: if s.mode is Backlash {
                s.pre_backlash_direction
            } else {
                last
            },
            consistent_direction_count: 1,
            raw_accumulator: 0,
            backlash_accumulator: delta,
            last_raw_direction: dir,
            ..s
        }
    } else if dir == last {
        DialModel {
            consistent_direction_count: saturating_inc(s.consistent_direction_count),
            backlash_accumulator: if s.mode is Backlash {
                s.backlash_accumulator + delta
            } else {
                s.backlash_accumulator
            },
            ..s
        }
    } else {
        DialModel { last_raw_direction: dir, ..s }
    }
}

/// Run the notch conversion on a state whose accumulator is settled, and
/// fold its outcome into the step's outcome.
pub open spec fn finish_rotate(s: DialModel, feedback: int, now: int) -> RotateOutcome {
    let threshold = threshold_for(s.smoothed_magnitude);
    let r = reduce(
        s.volume,
        s.raw_accumulator,
        threshold,
        s.last_printed_volume,
        s.last_print_at,
        now,
    );
    RotateOutcome {
        post: DialModel {
            volume: r.volume,
            raw_accumulator: r.raw,
            last_print_at: r.last_print_at,
            last_printed_volume: r.last_printed_volume,
            ..s
        },
        feedback: feedback + r.feedback,
        emissions: r.emissions,
    }
}

/// One `Rotate(delta)` event at time `now`.
///
/// While the button is held the rotation is ignored entirely. Otherwise the
/// direction bookkeeping runs, the smoothed magnitude absorbs the event,
/// and then: a suspected reversal that returned to the original direction
/// for [`crate::BACKLASH_CANCEL_THRESHOLD`] events is cancelled silently
/// and its buffer transferred; one sustained for
/// [`crate::BACKLASH_THRESHOLD`] events is confirmed with one haptic
/// trigger and its buffer transferred; an unresolved reversal keeps the
/// event buffered; and outside `Backlash` the delta joins the accumulator.
/// Any transferred or extended accumulator is then converted to notches.
pub open spec fn rotate_spec(s: DialModel, delta: int, now: int) -> RotateOutcome {
    let fb = wake_feedback(s);
    let s0 = awaken(s, now);
    if s0.clicking {
        RotateOutcome { post: s0, feedback: fb, emissions: Seq::empty() }
    } else {
        let s1 = track_direction(s0, delta);
        let s2 = DialModel {
            smoothed_magnitude: ema_next(s1.smoothed_magnitude, abs_of(delta)),
            ..s1
        };
        if s2.mode is Backlash {
            if sign_of(delta) == s2.pre_backlash_direction && s2.consistent_direction_count
                >= crate::BACKLASH_CANCEL_THRESHOLD {
                let s3 = DialModel {
                    mode: DialMode::Active,
                    raw_accumulator: s2.backlash_accumulator,
                    ..s2
                };
                finish_rotate(s3, fb, now)
            } else if s2.consistent_direction_count >= crate::BACKLASH_THRESHOLD {
                let s3 = DialModel {
                    mode: DialMode::Active,
                    raw_accumulator: s2.backlash_accumulator,
                    ..s2
                };
                finish_rotate(s3, fb + 1, now)
            } else {
                RotateOutcome { post: s2, feedback: fb, emissions: Seq::empty() }
            }
        } else {
            let s3 = DialModel { raw_accumulator: s2.raw_accumulator + delta, ..s2 };
            finish_rotate(s3, fb, now)
        }
    }
}

/// One `Click(pressed)` event at time `now`. A press starts a hold; a
/// release that ends a hold emits one `click` semantic event.
pub open spec fn click_spec(s: DialModel, pressed: bool, now: int) -> ClickOutcome {
    let fb = wake_feedback(s);
    let s0 = awaken(s, now);
    if pressed {
        ClickOutcome {
            post: DialModel { clicking: true, click_started_at: Option::Some(now), ..s0 },
            feedback: fb,
            click_emitted: false,
        }
    } else if s0.clicking {
        ClickOutcome {
            post: DialModel { clicking: false, click_started_at: Option::None, ..s0 },
            feedback: fb,
            click_emitted: true,
        }
    } else {
        ClickOutcome { post: s0, feedback: fb, click_emitted: false }
    }
}

/// Full reset to `Idle`: rotation, direction, backlash and click state are
/// cleared; volume, smoothed magnitude and emission bookkeeping persist.
pub open spec fn reset_spec(s: DialModel) -> DialModel {
    DialModel {
        mode: DialMode::Idle,
        raw_accumulator: 0,
        last_raw_direction: 0,
        consistent_direction_count: 0,
        pre_backlash_direction: 0,
        backlash_accumulator: 0,
        clicking: false,
        click_started_at: Option::None,
        ..s
    }
}

/// Whether the idle timeout has run out at `now`.
pub open spec fn idle_expired(s: DialModel, now: int) -> bool {
    match s.last_event_at {
        Option::None => false,
        Option::Some(t) => elapsed_ms(t, now) >= crate::IDLE_TIMEOUT_MS,
    }
}

/// Whether a held click has outlived its timeout at `now`.
pub open spec fn click_expired(s: DialModel, now: int) -> bool {
    match s.click_started_at {
        Option::None => false,
        Option::Some(t) => elapsed_ms(t, now) >= crate::CLICK_TIMEOUT_MS,
    }
}

/// One wall-clock tick at time `now`: a dial that saw no event for
/// [`crate::IDLE_TIMEOUT_MS`] resets to `Idle`, and a click held past
/// [`crate::CLICK_TIMEOUT_MS`] is force-aborted — the hold ends, pending
/// rotation is discarded, and no `click` event is emitted.
pub open spec fn tick_spec(s: DialModel, now: int) -> DialModel {
    let s1 = if !(s.mode is Idle) && idle_expired(s, now) {
        reset_spec(s)
    } else {
        s
    };
    if s1.clicking && click_expired(s1, now) {
        DialModel {
            clicking: false,
            click_started_at: Option::None,
            raw_accumulator: 0,
            ..s1
        }
    } else {
        s1
    }
}

/// The state a freshly started (or freshly reconnected) dial begins in.
pub open spec fn init_spec() -> DialModel {
    DialModel {
        mode: DialMode::Idle,
        last_event_at: Option::None,
        volume: 50,
        raw_accumulator: 0,
        smoothed_magnitude: 0,
        last_print_at: Option::None,
        last_printed_volume: 50,
        clicking: false,
        click_started_at: Option::None,
        last_raw_direction: 0,
        consistent_direction_count: 0,
        pre_backlash_direction: 0,
        backlash_accumulator: 0,
    }
}

/// Well-formedness of a dial state. Established by [`init_spec`] and
/// preserved by every transition.
pub open spec fn wf(s: DialModel) -> bool {
    &&& 0 <= s.volume <= 100
    &&& 0 <= s.last_printed_volume <= 100
    &&& s.volume / 10 == s.last_printed_volume / 10
    &&& 0 <= s.smoothed_magnitude <= smoothed_cap()
    &&& -1 <= s.last_raw_direction <= 1
    &&& -1 <= s.pre_backlash_direction <= 1
    &&& 0 <= s.consistent_direction_count <= 0xffff_ffff
    &&& abs_of(s.raw_accumulator) < threshold_for(s.smoothed_magnitude)
    &&& s.clicking ==> s.click_started_at is Some
    &&& s.mode is Backlash ==> {
        &&& s.raw_accumulator == 0
        &&& s.pre_backlash_direction != 0
        &&& 1 <= s.consistent_direction_count < crate::BACKLASH_THRESHOLD
        &&& abs_of(s.backlash_accumulator) <= s.consistent_direction_count * 0x8000_0000
    }
}

/// The notch threshold always lies in `[200, 600]`.
pub proof fn lemma_threshold_range(smoothed: int)
    ensures
        200 <= threshold_for(smoothed) <= 600,
{
    if smoothed <= 1000 {
    } else if smoothed < 2000 {
        assert(0 <= (smoothed - 1000) / 5 <= 199) by {
            vstd::arithmetic::div_mod::lemma_div_pos_is_pos(smoothed - 1000, 5);
            vstd::arithmetic::div_mod::lemma_div_is_ordered(smoothed - 1000, 999, 5);
        }
    } else if smoothed < 22000 {
        assert(0 <= (smoothed - 2000) / 100 <= 199) by {
            vstd::arithmetic::div_mod::lemma_div_pos_is_pos(smoothed - 2000, 100);
            vstd::arithmetic::div_mod::lemma_div_is_ordered(smoothed - 2000, 19999, 100);
        }
    } else {
    }
}

/// The smoothed magnitude stays within `[0, smoothed_cap()]` as long as
/// each absorbed magnitude fits one raw event.
pub proof fn lemma_ema_bounds(smoothed: int, magnitude: int)
    requires
        0 <= smoothed <= smoothed_cap(),
        0 <= magnitude <= 0x8000_0000,
    ensures
        0 <= ema_next(smoothed, magnitude) <= smoothed_cap(),
{
    let num = 3000 * magnitude + 7 * smoothed;
    assert(0 <= num <= 10 * smoothed_cap());
    assert(0 <= num / 10 <= smoothed_cap()) by {
        vstd::arithmetic::div_mod::lemma_div_pos_is_pos(num, 10);
        vstd::arithmetic::div_mod::lemma_div_is_ordered(num, 10 * smoothed_cap(), 10);
        vstd::arithmetic::div_mod::lemma_div_multiples_vanish(smoothed_cap(), 10);
    }
}

/// Notch conversion keeps the volume and the emission bookkeeping in
/// range, leaves less than one threshold of rotation pending, and fires at
/// most one boundary bump per raw unit consumed.
pub proof fn lemma_reduce_props(volume: int, raw: int, threshold: int, last_printed: int, last_print_at: Option<int>, now: int)
    requires
        0 < threshold,
        0 <= volume <= 100,
        0 <= last_printed <= 100,
        volume / 10 == last_printed / 10,
    ensures
        ({
            let r = reduce(volume, raw, threshold, last_printed, last_print_at, now);
            &&& 0 <= r.volume <= 100
            &&& 0 <= r.last_printed_volume <= 100
            &&& r.volume / 10 == r.last_printed_volume / 10
            &&& abs_of(r.raw) < threshold
            &&& 0 <= r.feedback <= abs_of(raw)
        }),
    decreases abs_of(raw),
{
    if threshold <= 0 || abs_of(raw) < threshold {
    } else {
        let dir: int = if raw > 0 {
            1
        } else {
            -1
        };
        let raw2 = if raw > 0 {
            raw - threshold
        } else {
            raw + threshold
        };
        let unclamped = volume + dir;
        let v2 = clamp_volume(unclamped);
        let emit = should_emit(v2, last_printed, last_print_at, now);
        let lp2 = if emit {
            v2
        } else {
            last_printed
        };
        let lpa2 = if emit {
            Option::Some(now)
        } else {
            last_print_at
        };
        lemma_reduce_props(v2, raw2, threshold, lp2, lpa2, now);
    }
}

/// One rotation step preserves well-formedness, for any delta that fits a
/// raw input event.
pub proof fn lemma_rotate_wf(s: DialModel, delta: int, now: int)
    requires
        wf(s),
        -0x8000_0000 <= delta < 0x8000_0000,
    ensures
        wf(rotate_spec(s, delta, now).post),
{
    let s0 = awaken(s, now);
    if s0.clicking {
    } else {
        let s1 = track_direction(s0, delta);
        let s2 = DialModel {
            smoothed_magnitude: ema_next(s1.smoothed_magnitude, abs_of(delta)),
            ..s1
        };
        lemma_ema_bounds(s1.smoothed_magnitude, abs_of(delta));
        lemma_threshold_range(s2.smoothed_magnitude);
        lemma_threshold_range(s.smoothed_magnitude);
        if s2.mode is Backlash {
            if sign_of(delta) == s2.pre_backlash_direction && s2.consistent_direction_count
                >= crate::BACKLASH_CANCEL_THRESHOLD {
                let s3 = DialModel {
                    mode: DialMode::Active,
                    raw_accumulator: s2.backlash_accumulator,
                    ..s2
                };
                assert(abs_of(s3.raw_accumulator) <= 25 * 0x8000_0000);
                lemma_reduce_props(
                    s3.volume,
                    s3.raw_accumulator,
                    threshold_for(s3.smoothed_magnitude),
                    s3.last_printed_volume,
                    s3.last_print_at,
                    now,
                );
            } else if s2.consistent_direction_count >= crate::BACKLASH_THRESHOLD {
                let s3 = DialModel {
                    mode: DialMode::Active,
                    raw_accumulator: s2.backlash_accumulator,
                    ..s2
                };
                lemma_reduce_props(
                    s3.volume,
                    s3.raw_accumulator,
                    threshold_for(s3.smoothed_magnitude),
                    s3.last_printed_volume,
                    s3.last_print_at,
                    now,
                );
            } else {
            }
        } else {
            let s3 = DialModel { raw_accumulator: s2.raw_accumulator + delta, ..s2 };
            lemma_reduce_props(
                s3.volume,
                s3.raw_accumulator,
                threshold_for(s3.smoothed_magnitude),
                s3.last_printed_volume,
                s3.last_print_at,
                now,
            );
        }
    }
}

/// One button step preserves well-formedness.
pub proof fn lemma_click_wf(s: DialModel, pressed: bool, now: int)
    requires
        wf(s),
    ensures
        wf(click_spec(s, pressed, now).post),
{
}

/// One wall-clock tick preserves well-formedness.
pub proof fn lemma_tick_wf(s: DialModel, now: int)
    requires
        wf(s),
    ensures
        wf(tick_spec(s, now)),
{
    lemma_threshold_range(s.smoothed_magnitude);
}

/// A full reset preserves well-formedness.
pub proof fn lemma_reset_wf(s: DialModel)
    requires
        wf(s),
    ensures
        wf(reset_spec(s)),
{
    lemma_threshold_range(s.smoothed_magnitude);
}

/// The initial state is well-formed.
pub proof fn lemma_init_wf()
    ensures
        wf(init_spec()),
{
}

} // verus!
