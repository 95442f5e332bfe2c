//! The library's laws: properties of whole event streams, proved over the
//! model in [`crate::model`].

use vstd::prelude::*;

use crate::model::{
    DialModel, abs_of, click_expired, ema_next, idle_expired, lemma_rotate_wf,
    lemma_threshold_range, reduce, rotate_spec, should_emit, sign_of, threshold_for, tick_spec,
    wf,
};

verus! {

/// Accumulated outcome of running a stream of rotation events.
pub ghost struct RunOutcome {
    pub post: DialModel,
    /// Total haptic triggers fired over the stream.
    pub feedback: int,
    /// All volume values emitted over the stream, in order.
    pub emissions: Seq<int>,
}

/// Run a stream of `(delta, time)` rotation events through the dial, first
/// event first.
pub open spec fn run_rotates(s: DialModel, evs: Seq<(int, int)>) -> RunOutcome
    decreases evs.len(),
{
    if evs.len() == 0 {
        RunOutcome { post: s, feedback: 0, emissions: Seq::empty() }
    } else {
        let first = rotate_spec(s, evs[0].0, evs[0].1);
        let rest = run_rotates(first.post, evs.drop_first());
        RunOutcome {
            post: rest.post,
            feedback: first.feedback + rest.feedback,
            emissions: first.emissions + rest.emissions,
        }
    }
}

/// Sum of the deltas of a stream of rotation events.
pub open spec fn sum_deltas(evs: Seq<(int, int)>) -> int
    decreases evs.len(),
{
    if evs.len() == 0 {
        0
    } else {
        evs[0].0 + sum_deltas(evs.drop_first())
    }
}

/// Running a stream equals running its first `k` events and then the rest
/// from where they left off.
pub proof fn lemma_run_split(s: DialModel, evs: Seq<(int, int)>, k: int)
    requires
        0 <= k <= evs.len(),
    ensures
        ({
            let a = run_rotates(s, evs.take(k));
            let b = run_rotates(a.post, evs.skip(k));
            &&& run_rotates(s, evs).post == b.post
            &&& run_rotates(s, evs).feedback == a.feedback + b.feedback
            &&& run_rotates(s, evs).emissions == a.emissions + b.emissions
        }),
    decreases k,
{
    let a = run_rotates(s, evs.take(k));
    let b = run_rotates(a.post, evs.skip(k));
    if k == 0 {
        assert(evs.take(0) =~= Seq::<(int, int)>::empty());
        assert(evs.skip(0) =~= evs);
        assert(a.emissions + b.emissions =~= run_rotates(s, evs).emissions);
    } else {
        let first = rotate_spec(s, evs[0].0, evs[0].1);
        assert(evs.take(k)[0] == evs[0]);
        assert(evs.take(k).drop_first() =~= evs.drop_first().take(k - 1));
        assert(evs.skip(k) =~= evs.drop_first().skip(k - 1));
        lemma_run_split(first.post, evs.drop_first(), k - 1);
        let a1 = run_rotates(first.post, evs.drop_first().take(k - 1));
        assert(a.post == a1.post);
        assert(a.emissions =~= first.emissions + a1.emissions);
        assert(run_rotates(s, evs).emissions =~= a.emissions + b.emissions);
    }
}

/// Well-formedness is preserved over any stream of raw rotation events.
pub proof fn lemma_run_rotates_wf(s: DialModel, evs: Seq<(int, int)>)
    requires
        wf(s),
        forall|i: int| 0 <= i < evs.len() ==> -0x8000_0000 <= (#[trigger] evs[i]).0 < 0x8000_0000,
    ensures
        wf(run_rotates(s, evs).post),
    decreases evs.len(),
{
    if evs.len() > 0 {
        lemma_rotate_wf(s, evs[0].0, evs[0].1);
        lemma_run_rotates_wf(rotate_spec(s, evs[0].0, evs[0].1).post, evs.drop_first());
    }
}

/// Volume bound: over any stream of rotation events, the volume lies in
/// `[0, 100]` at every point in time.
pub proof fn lemma_volume_always_bounded(s: DialModel, evs: Seq<(int, int)>)
    requires
        wf(s),
        forall|i: int| 0 <= i < evs.len() ==> -0x8000_0000 <= (#[trigger] evs[i]).0 < 0x8000_0000,
    ensures
        forall|k: int|
            0 <= k <= evs.len() ==> 0 <= run_rotates(s, #[trigger] evs.take(k)).post.volume <= 100,
{
    assert forall|k: int|
        0 <= k <= evs.len() implies 0 <= run_rotates(s, #[trigger] evs.take(k)).post.volume
        <= 100 by {
        assert(forall|i: int|
            0 <= i < evs.take(k).len() ==> -0x8000_0000 <= (#[trigger] evs.take(k)[i]).0
                < 0x8000_0000);
        lemma_run_rotates_wf(s, evs.take(k));
    }
}

/// Click suppression: while the button is held, a rotation event changes
/// neither the volume nor the pending accumulator, and emits nothing.
pub proof fn lemma_click_suppression(s: DialModel, delta: int, now: int)
    requires
        s.clicking,
    ensures
        rotate_spec(s, delta, now).post.volume == s.volume,
        rotate_spec(s, delta, now).post.raw_accumulator == s.raw_accumulator,
        rotate_spec(s, delta, now).emissions == Seq::<int>::empty(),
{
}

/// Idle reset: once the idle timeout has run out, a tick resets the dial
/// to `Idle`, clears the pending rotation and all direction tracking, and
/// leaves the volume unchanged.
pub proof fn lemma_idle_reset(s: DialModel, now: int)
    requires
        !(s.mode is Idle),
        idle_expired(s, now),
    ensures
        tick_spec(s, now).mode is Idle,
        tick_spec(s, now).raw_accumulator == 0,
        tick_spec(s, now).last_raw_direction == 0,
        tick_spec(s, now).consistent_direction_count == 0,
        tick_spec(s, now).pre_backlash_direction == 0,
        tick_spec(s, now).backlash_accumulator == 0,
        tick_spec(s, now).volume == s.volume,
{
}

/// Click timeout: a click held past its timeout is force-aborted by the
/// next tick — the hold ends and pending rotation is discarded. A tick
/// never emits a `click` semantic event, so the aborted gesture emits
/// nothing.
pub proof fn lemma_click_timeout(s: DialModel, now: int)
    requires
        s.clicking,
        click_expired(s, now),
    ensures
        !tick_spec(s, now).clicking,
        tick_spec(s, now).raw_accumulator == 0,
{
}

/// Feeding a run of same-direction events to a dial in `Backlash` keeps it
/// buffering: nothing is emitted, no feedback fires, and the buffer grows
/// by exactly the sum of the deltas — as long as the run stays short of the
/// applicable exit threshold.
pub proof fn lemma_backlash_buffering(s: DialModel, evs: Seq<(int, int)>, q: int)
    requires
        s.mode is Backlash,
        !s.clicking,
        q == s.last_raw_direction,
        q == 1 || q == -1,
        0 <= s.consistent_direction_count,
        forall|i: int| 0 <= i < evs.len() ==> sign_of((#[trigger] evs[i]).0) == q,
        if q == s.pre_backlash_direction {
            s.consistent_direction_count + evs.len() < crate::BACKLASH_CANCEL_THRESHOLD
        } else {
            s.consistent_direction_count + evs.len() < crate::BACKLASH_THRESHOLD
        },
    ensures
        ({
            let r = run_rotates(s, evs);
            &&& r.post.mode is Backlash
            &&& r.post.consistent_direction_count == s.consistent_direction_count + evs.len()
            &&& r.post.backlash_accumulator == s.backlash_accumulator + sum_deltas(evs)
            &&& r.post.pre_backlash_direction == s.pre_backlash_direction
            &&& r.post.last_raw_direction == q
            &&& r.post.clicking == s.clicking
            &&& r.post.volume == s.volume
            &&& r.post.raw_accumulator == s.raw_accumulator
            &&& r.post.last_printed_volume == s.last_printed_volume
            &&& r.post.last_print_at == s.last_print_at
            &&& r.feedback == 0
            &&& r.emissions == Seq::<int>::empty()
        }),
    decreases evs.len(),
{
    if evs.len() == 0 {
    } else {
        let d = evs[0].0;
        let t = evs[0].1;
        let first = rotate_spec(s, d, t);
        assert(sign_of(d) == q);
        let rest = run_rotates(first.post, evs.drop_first());
        lemma_backlash_buffering(first.post, evs.drop_first(), q);
        assert(run_rotates(s, evs).emissions =~= Seq::<int>::empty());
    }
}

/// Running an empty stream changes nothing.
proof fn lemma_run_empty(s: DialModel)
    ensures
        run_rotates(s, Seq::<(int, int)>::empty()).post == s,
        run_rotates(s, Seq::<(int, int)>::empty()).feedback == 0,
        run_rotates(s, Seq::<(int, int)>::empty()).emissions == Seq::<int>::empty(),
{
}

/// Running a one-event stream is one rotation step.
proof fn lemma_run_singleton(s: DialModel, evs: Seq<(int, int)>)
    requires
        evs.len() == 1,
    ensures
        ({
            let r = rotate_spec(s, evs[0].0, evs[0].1);
            &&& run_rotates(s, evs).post == r.post
            &&& run_rotates(s, evs).feedback == r.feedback
            &&& run_rotates(s, evs).emissions == r.emissions
        }),
{
    let r = rotate_spec(s, evs[0].0, evs[0].1);
    assert(evs.drop_first() =~= Seq::<(int, int)>::empty());
    lemma_run_empty(r.post);
    assert(run_rotates(s, evs).emissions =~= r.emissions);
}

/// The sum of a one-event stream is its delta.
proof fn lemma_sum_singleton(evs: Seq<(int, int)>)
    requires
        evs.len() == 1,
    ensures
        sum_deltas(evs) == evs[0].0,
{
    assert(evs.drop_first() =~= Seq::<(int, int)>::empty());
    assert(sum_deltas(evs.drop_first()) == 0);
}

/// The sum of a stream's deltas splits at any point.
pub proof fn lemma_sum_split(evs: Seq<(int, int)>, k: int)
    requires
        0 <= k <= evs.len(),
    ensures
        sum_deltas(evs) == sum_deltas(evs.take(k)) + sum_deltas(evs.skip(k)),
    decreases k,
{
    if k == 0 {
        assert(evs.take(0) =~= Seq::<(int, int)>::empty());
        assert(evs.skip(0) =~= evs);
    } else {
        assert(evs.take(k)[0] == evs[0]);
        assert(evs.take(k).drop_first() =~= evs.drop_first().take(k - 1));
        assert(evs.skip(k) =~= evs.drop_first().skip(k - 1));
        lemma_sum_split(evs.drop_first(), k - 1);
    }
}

/// Backlash confirmation: from normal tracking, a reversal sustained for
/// [`crate::BACKLASH_THRESHOLD`] consecutive events produces exactly one
/// haptic trigger, at the moment of confirmation, and transfers the whole
/// buffered rotation — none of it is lost. The bound on the buffered sum
/// keeps the transfer below one notch, so that it lands in the
/// accumulator unconverted.
pub proof fn lemma_backlash_confirm(s: DialModel, evs: Seq<(int, int)>, p: int)
    requires
        s.mode is Active,
        !s.clicking,
        p == s.last_raw_direction,
        p == 1 || p == -1,
        evs.len() == crate::BACKLASH_THRESHOLD,
        forall|i: int| 0 <= i < evs.len() ==> sign_of((#[trigger] evs[i]).0) == -p,
        abs_of(sum_deltas(evs)) < 200,
    ensures
        ({
            let r = run_rotates(s, evs);
            &&& r.post.mode is Active
            &&& r.post.raw_accumulator == sum_deltas(evs)
            &&& r.feedback == 1
            &&& run_rotates(s, evs.take(evs.len() - 1)).feedback == 0
        }),
{
    let n = evs.len() as int;
    let d0 = evs[0].0;
    let first = rotate_spec(s, d0, evs[0].1);
    assert(sign_of(d0) == -p);
    // The first event is a reversal: it enters `Backlash` and starts the
    // buffer.
    assert(first.post.mode is Backlash);
    assert(first.post.consistent_direction_count == 1);
    assert(first.post.backlash_accumulator == d0);
    assert(first.post.pre_backlash_direction == p);
    assert(first.post.last_raw_direction == -p);
    assert(!first.post.clicking);
    assert(first.feedback == 0);
    // Events 2 .. n-1 keep buffering.
    let middle = evs.drop_first().take(n - 2);
    let tail = evs.drop_first().skip(n - 2);
    assert(forall|i: int| 0 <= i < middle.len() ==> sign_of((#[trigger] middle[i]).0) == -p);
    lemma_backlash_buffering(first.post, middle, -p);
    let mid = run_rotates(first.post, middle);
    assert(mid.post.mode is Backlash);
    assert(mid.post.consistent_direction_count == n - 1);
    assert(mid.post.backlash_accumulator == d0 + sum_deltas(middle));
    // The final event reaches the confirmation threshold and transfers the
    // buffer, whose sum is below any notch threshold.
    assert(tail.len() == 1);
    assert(tail[0] == evs[n - 1]);
    let dl = tail[0].0;
    assert(sign_of(dl) == -p);
    let last = rotate_spec(mid.post, dl, tail[0].1);
    lemma_threshold_range(ema_next(mid.post.smoothed_magnitude, abs_of(dl)));
    assert(evs.drop_first() =~= evs.skip(1));
    lemma_sum_split(evs, 1);
    lemma_sum_split(evs.drop_first(), n - 2);
    assert(sum_deltas(evs.take(1)) == d0) by {
        assert(evs.take(1)[0] == evs[0]);
        assert(evs.take(1).drop_first() =~= Seq::<(int, int)>::empty());
    }
    lemma_sum_singleton(tail);
    assert(sum_deltas(tail) == dl);
    assert(mid.post.backlash_accumulator + dl == sum_deltas(evs));
    assert(last.post.mode is Active);
    assert(last.post.raw_accumulator == sum_deltas(evs));
    assert(last.feedback == 1);
    // Stitch the three segments together.
    lemma_run_split(s, evs, 1);
    assert(evs.take(1)[0] == evs[0]);
    lemma_run_split(first.post, evs.drop_first(), n - 2);
    lemma_run_singleton(mid.post, tail);
    assert(run_rotates(mid.post, tail).post == last.post);
    assert(run_rotates(mid.post, tail).feedback == last.feedback);
    // Prefix feedback: everything before the confirming event is silent.
    lemma_run_split(s, evs.take(n - 1), 1);
    assert(evs.take(n - 1).take(1) =~= evs.take(1));
    assert(evs.take(n - 1).skip(1) =~= middle);
    assert(evs.take(n - 1)[0] == evs[0]);
}

/// Backlash cancellation: a reversal held for up to 24 events and then
/// followed by [`crate::BACKLASH_CANCEL_THRESHOLD`] consecutive events
/// back in the original direction is dismissed as noise: no haptic
/// trigger fires, nothing is emitted, and the rotation buffered since the
/// return — whose sum is kept below one notch — is transferred whole into
/// the accumulator.
pub proof fn lemma_backlash_cancel(s: DialModel, noise: Seq<(int, int)>, ret: Seq<(int, int)>, p: int)
    requires
        s.mode is Active,
        !s.clicking,
        p == s.last_raw_direction,
        p == 1 || p == -1,
        1 <= noise.len() < crate::BACKLASH_THRESHOLD,
        forall|i: int| 0 <= i < noise.len() ==> sign_of((#[trigger] noise[i]).0) == -p,
        ret.len() == crate::BACKLASH_CANCEL_THRESHOLD,
        forall|i: int| 0 <= i < ret.len() ==> sign_of((#[trigger] ret[i]).0) == p,
        abs_of(sum_deltas(ret)) < 200,
    ensures
        ({
            let r = run_rotates(s, noise + ret);
            &&& r.post.mode is Active
            &&& r.post.raw_accumulator == sum_deltas(ret)
            &&& r.post.volume == s.volume
            &&& r.feedback == 0
            &&& r.emissions == Seq::<int>::empty()
        }),
{
    let evs = noise + ret;
    let nn = noise.len() as int;
    // Segment one: the reversal enters `Backlash` and buffers.
    let d0 = noise[0].0;
    let first = rotate_spec(s, d0, noise[0].1);
    assert(evs[0] == noise[0]);
    assert(sign_of(d0) == -p);
    assert(first.post.mode is Backlash);
    assert(first.post.consistent_direction_count == 1);
    assert(first.post.pre_backlash_direction == p);
    assert(first.post.last_raw_direction == -p);
    assert(first.post.volume == s.volume);
    assert(first.feedback == 0);
    let noise_rest = noise.drop_first();
    assert(forall|i: int|
        0 <= i < noise_rest.len() ==> sign_of((#[trigger] noise_rest[i]).0) == -p);
    lemma_backlash_buffering(first.post, noise_rest, -p);
    let after_noise = run_rotates(first.post, noise_rest);
    assert(after_noise.post.mode is Backlash);
    assert(after_noise.post.consistent_direction_count == nn);
    assert(after_noise.post.pre_backlash_direction == p);
    assert(after_noise.post.last_raw_direction == -p);
    assert(after_noise.post.volume == s.volume);
    // Segment two: the first return event is itself a reversal inside
    // `Backlash`: the buffer restarts with it, the count restarts at one,
    // and the remembered original direction stays.
    let r0 = ret[0].0;
    let back = rotate_spec(after_noise.post, r0, ret[0].1);
    assert(sign_of(r0) == p);
    assert(back.post.mode is Backlash);
    assert(back.post.consistent_direction_count == 1);
    assert(back.post.backlash_accumulator == r0);
    assert(back.post.pre_backlash_direction == p);
    assert(back.post.last_raw_direction == p);
    assert(back.post.volume == s.volume);
    assert(back.feedback == 0);
    // Segment three: three more return events keep buffering, short of the
    // cancel threshold.
    let ret_mid = ret.drop_first().take(ret.len() - 2);
    let ret_tail = ret.drop_first().skip(ret.len() - 2);
    assert(forall|i: int| 0 <= i < ret_mid.len() ==> sign_of((#[trigger] ret_mid[i]).0) == p);
    lemma_backlash_buffering(back.post, ret_mid, p);
    let mid = run_rotates(back.post, ret_mid);
    assert(mid.post.mode is Backlash);
    assert(mid.post.consistent_direction_count == ret.len() - 1);
    assert(mid.post.backlash_accumulator == r0 + sum_deltas(ret_mid));
    // Segment four: the final return event reaches the cancel threshold
    // and silently transfers the buffer.
    assert(ret_tail.len() == 1);
    assert(ret_tail[0] == ret[ret.len() - 1]);
    let rl = ret_tail[0].0;
    assert(sign_of(rl) == p);
    let last = rotate_spec(mid.post, rl, ret_tail[0].1);
    lemma_threshold_range(ema_next(mid.post.smoothed_magnitude, abs_of(rl)));
    lemma_sum_split(ret, 1);
    lemma_sum_split(ret.drop_first(), ret.len() - 2);
    assert(sum_deltas(ret.take(1)) == r0) by {
        assert(ret.take(1)[0] == ret[0]);
        assert(ret.take(1).drop_first() =~= Seq::<(int, int)>::empty());
    }
    lemma_sum_singleton(ret_tail);
    assert(sum_deltas(ret_tail) == rl);
    assert(ret.drop_first() =~= ret.skip(1));
    assert(mid.post.backlash_accumulator + rl == sum_deltas(ret));
    assert(last.post.mode is Active);
    assert(last.post.raw_accumulator == sum_deltas(ret));
    assert(last.post.volume == s.volume);
    assert(last.feedback == 0);
    assert(last.emissions == Seq::<int>::empty());
    // Stitch the segments together.
    lemma_run_split(s, evs, nn);
    assert(evs.take(nn) =~= noise);
    assert(evs.skip(nn) =~= ret);
    lemma_run_split(s, noise, 1);
    assert(noise.take(1)[0] == noise[0]);
    assert(noise.skip(1) =~= noise_rest);
    lemma_run_split(after_noise.post, ret, 1);
    assert(ret.take(1)[0] == ret[0]);
    lemma_run_split(back.post, ret.drop_first(), ret.len() - 2);
    lemma_run_singleton(mid.post, ret_tail);
    assert(run_rotates(mid.post, ret_tail).post == last.post);
    assert(run_rotates(mid.post, ret_tail).feedback == last.feedback);
    assert(run_rotates(s, evs).emissions =~= Seq::<int>::empty());
}

/// Emission rate, inside the notch converter: while less than
/// [`crate::EMIT_INTERVAL_MS`] has passed since the previous emission,
/// every emitted volume crosses a decade boundary away from the value
/// emitted just before it.
pub proof fn lemma_reduce_rate_limited(volume: int, raw: int, threshold: int, last_printed: int, t: int, now: int)
    requires
        0 < threshold,
        crate::model::elapsed_ms(t, now) < crate::EMIT_INTERVAL_MS,
    ensures
        ({
            let r = reduce(volume, raw, threshold, last_printed, Option::Some(t), now);
            forall|i: int|
                0 <= i < r.emissions.len() ==> (#[trigger] r.emissions[i]) / 10 != (if i == 0 {
                    last_printed
                } else {
                    r.emissions[i - 1]
                }) / 10
        }),
    decreases abs_of(raw),
{
    let r = reduce(volume, raw, threshold, last_printed, Option::Some(t), now);
    if threshold <= 0 || abs_of(raw) < threshold {
    } else {
        let dir: int = if raw > 0 {
            1
        } else {
            -1
        };
        let raw2 = if raw > 0 {
            raw - threshold
        } else {
            raw + threshold
        };
        let v2 = crate::model::clamp_volume(volume + dir);
        let emit = should_emit(v2, last_printed, Option::Some(t), now);
        if emit {
            // Too soon after the previous emission, so the emission must be
            // a decade crossing.
            assert(v2 / 10 != last_printed / 10);
            lemma_reduce_rate_limited(v2, raw2, threshold, v2, now, now);
            let rest = reduce(v2, raw2, threshold, v2, Option::Some(now), now);
            assert(r.emissions =~= seq![v2] + rest.emissions);
            assert forall|i: int|
                0 <= i < r.emissions.len() implies (#[trigger] r.emissions[i]) / 10 != (if i == 0 {
                last_printed
            } else {
                r.emissions[i - 1]
            }) / 10 by {
                if i > 0 {
                    assert(r.emissions[i] == rest.emissions[i - 1]);
                    if i == 1 {
                        assert(r.emissions[0] == v2);
                    } else {
                        assert(r.emissions[i - 1] == rest.emissions[i - 2]);
                    }
                }
            }
        } else {
            lemma_reduce_rate_limited(v2, raw2, threshold, last_printed, t, now);
            let rest = reduce(v2, raw2, threshold, last_printed, Option::Some(t), now);
            assert(r.emissions =~= rest.emissions);
        }
    }
}

/// Emission rate, per event: a rotation arriving less than
/// [`crate::EMIT_INTERVAL_MS`] after the previous emission emits only
/// decade crossings, each away from the value emitted just before it.
/// Decade crossings themselves are never held back: by well-formedness
/// ([`crate::model::wf`]), the last emitted value always shares the
/// volume's decade, so a crossing is emitted the moment it happens.
pub proof fn lemma_rotate_rate_limited(s: DialModel, delta: int, now: int, t: int)
    requires
        s.last_print_at == Option::Some(t),
        crate::model::elapsed_ms(t, now) < crate::EMIT_INTERVAL_MS,
    ensures
        ({
            let r = rotate_spec(s, delta, now);
            forall|i: int|
                0 <= i < r.emissions.len() ==> (#[trigger] r.emissions[i]) / 10 != (if i == 0 {
                    s.last_printed_volume
                } else {
                    r.emissions[i - 1]
                }) / 10
        }),
{
    let s0 = crate::model::awaken(s, now);
    if s0.clicking {
    } else {
        let s1 = crate::model::track_direction(s0, delta);
        let s2 = DialModel { smoothed_magnitude: ema_next(s1.smoothed_magnitude, abs_of(delta)), ..s1 };
        lemma_threshold_range(s2.smoothed_magnitude);
        if s2.mode is Backlash {
            if sign_of(delta) == s2.pre_backlash_direction && s2.consistent_direction_count
                >= crate::BACKLASH_CANCEL_THRESHOLD {
                lemma_reduce_rate_limited(
                    s2.volume,
                    s2.backlash_accumulator,
                    threshold_for(s2.smoothed_magnitude),
                    s2.last_printed_volume,
                    t,
                    now,
                );
            } else if s2.consistent_direction_count >= crate::BACKLASH_THRESHOLD {
                lemma_reduce_rate_limited(
                    s2.volume,
                    s2.backlash_accumulator,
                    threshold_for(s2.smoothed_magnitude),
                    s2.last_printed_volume,
                    t,
                    now,
                );
            } else {
            }
        } else {
            lemma_reduce_rate_limited(
                s2.volume,
                s2.raw_accumulator + delta,
                threshold_for(s2.smoothed_magnitude),
                s2.last_printed_volume,
                t,
                now,
            );
        }
    }
}

/// Decade crossings are never held back: after any rotation step from a
/// well-formed state, the last emitted volume shares the decade of the
/// actual volume, so any notch that crossed a multiple of 10 was emitted
/// the moment it happened.
pub proof fn lemma_decade_never_missed(s: DialModel, delta: int, now: int)
    requires
        wf(s),
        -0x8000_0000 <= delta < 0x8000_0000,
    ensures
        ({
            let post = rotate_spec(s, delta, now).post;
            post.volume / 10 == post.last_printed_volume / 10
        }),
{
    lemma_rotate_wf(s, delta, now);
}

/// The moving average grows with both its inputs.
pub proof fn lemma_ema_monotone(s1: int, m1: int, s2: int, m2: int)
    requires
        s1 <= s2,
        m1 <= m2,
    ensures
        ema_next(s1, m1) <= ema_next(s2, m2),
{
    vstd::arithmetic::div_mod::lemma_div_is_ordered(3000 * m1 + 7 * s1, 3000 * m2 + 7 * s2, 10);
}

/// The notch threshold grows with the smoothed magnitude.
pub proof fn lemma_threshold_monotone(a: int, b: int)
    requires
        a <= b,
    ensures
        threshold_for(a) <= threshold_for(b),
{
    lemma_threshold_range(a);
    lemma_threshold_range(b);
    if a <= 1000 {
    } else if a < 2000 {
        if b < 2000 {
            vstd::arithmetic::div_mod::lemma_div_is_ordered(a - 1000, b - 1000, 5);
        } else {
            assert((a - 1000) / 5 <= 199) by {
                vstd::arithmetic::div_mod::lemma_div_is_ordered(a - 1000, 999, 5);
            }
            if b < 22000 {
                vstd::arithmetic::div_mod::lemma_div_pos_is_pos(b - 2000, 100);
            }
        }
    } else if a < 22000 {
        if b < 22000 {
            vstd::arithmetic::div_mod::lemma_div_is_ordered(a - 2000, b - 2000, 100);
        } else {
            assert((a - 2000) / 100 <= 199) by {
                vstd::arithmetic::div_mod::lemma_div_is_ordered(a - 2000, 19999, 100);
            }
        }
    } else {
    }
}

/// While the button is up, a rotation step's smoothed magnitude depends
/// only on the previous average and the event's magnitude, and the button
/// state is untouched.
pub proof fn lemma_rotate_smoothing(s: DialModel, delta: int, now: int)
    requires
        !s.clicking,
    ensures
        rotate_spec(s, delta, now).post.smoothed_magnitude == ema_next(
            s.smoothed_magnitude,
            abs_of(delta),
        ),
        rotate_spec(s, delta, now).post.clicking == s.clicking,
{
}

/// Adaptive threshold monotonicity: of two rotation streams of equal
/// length whose events have pointwise equal-or-larger magnitudes, the
/// larger stream ends with an equal-or-larger smoothed magnitude, and so
/// with an equal-or-larger notch threshold.
pub proof fn lemma_adaptive_threshold_monotone(s1: DialModel, evs1: Seq<(int, int)>, s2: DialModel, evs2: Seq<(int, int)>)
    requires
        !s1.clicking,
        !s2.clicking,
        s1.smoothed_magnitude <= s2.smoothed_magnitude,
        evs1.len() == evs2.len(),
        forall|i: int|
            0 <= i < evs1.len() ==> abs_of((#[trigger] evs1[i]).0) <= abs_of((#[trigger] evs2[i]).0),
    ensures
        run_rotates(s1, evs1).post.smoothed_magnitude <= run_rotates(s2, evs2).post.smoothed_magnitude,
        threshold_for(run_rotates(s1, evs1).post.smoothed_magnitude) <= threshold_for(
            run_rotates(s2, evs2).post.smoothed_magnitude,
        ),
    decreases evs1.len(),
{
    if evs1.len() == 0 {
        lemma_threshold_monotone(s1.smoothed_magnitude, s2.smoothed_magnitude);
    } else {
        let p1 = rotate_spec(s1, evs1[0].0, evs1[0].1).post;
        let p2 = rotate_spec(s2, evs2[0].0, evs2[0].1).post;
        lemma_rotate_smoothing(s1, evs1[0].0, evs1[0].1);
        lemma_rotate_smoothing(s2, evs2[0].0, evs2[0].1);
        lemma_ema_monotone(
            s1.smoothed_magnitude,
            abs_of(evs1[0].0),
            s2.smoothed_magnitude,
            abs_of(evs2[0].0),
        );
        assert(forall|i: int|
            0 <= i < evs1.drop_first().len() ==> abs_of((#[trigger] evs1.drop_first()[i]).0)
                <= abs_of((#[trigger] evs2.drop_first()[i]).0));
        lemma_adaptive_threshold_monotone(p1, evs1.drop_first(), p2, evs2.drop_first());
    }
}

} // verus!
