use diald::{DialMode, DialState};

#[test]
fn fresh_state_defaults() {
    let s = DialState::new();
    assert_eq!(s.mode, DialMode::Idle);
    assert_eq!(s.volume, 50);
    assert_eq!(s.raw_accumulator, 0);
    assert_eq!(s.smoothed_magnitude, 0);
    assert_eq!(s.last_printed_volume, 50);
    assert!(!s.clicking);
    assert_eq!(s.last_raw_direction, 0);
    assert_eq!(s.consistent_direction_count, 0);
    assert_eq!(s.mode.as_str(), "idle");
}

#[test]
fn mode_names() {
    assert_eq!(DialMode::Idle.as_str(), "idle");
    assert_eq!(DialMode::Active.as_str(), "active");
    assert_eq!(DialMode::Backlash.as_str(), "backlash");
}

#[test]
fn wake_and_notch_conversion() {
    let mut s = DialState::new();
    // A fast flick: smoothed magnitude jumps to 900000, so the threshold is
    // the 600 ceiling and 3000 raw units make five notches.
    let fx = s.on_rotate(3000, 1000);
    assert_eq!(fx.feedback, 1); // the wake buzz
    assert_eq!(s.mode, DialMode::Active);
    assert_eq!(s.volume, 55);
    assert_eq!(s.raw_accumulator, 0);
    assert_eq!(s.smoothed_magnitude, 900_000);
    // Only the first notch is emitted: the rest are in the same decade and
    // arrive within the suppression interval.
    assert_eq!(fx.emissions, vec![51]);
    assert_eq!(s.last_printed_volume, 51);
}

#[test]
fn decade_crossing_emitted_immediately() {
    let mut s = DialState::new();
    let fx = s.on_rotate(3000, 1000);
    assert_eq!(fx.emissions, vec![51]);
    // Ten milliseconds later: five more notches, 56..60. Only the decade
    // crossing at 60 may be emitted this soon after the last emission.
    let fx = s.on_rotate(3000, 1010);
    assert_eq!(fx.feedback, 0);
    assert_eq!(s.volume, 60);
    assert_eq!(fx.emissions, vec![60]);
}

#[test]
fn emission_rate_slow_rotation() {
    // A slow, steady turn: 250 raw units every 50 ms, one notch roughly
    // every third event. Emissions happen at most every 250 ms since no
    // decade boundary is crossed.
    let mut s = DialState::new();
    let mut emitted: Vec<(u64, Vec<i32>)> = Vec::new();
    for k in 0..11u64 {
        let now = 50 * k;
        let fx = s.on_rotate(250, now);
        if !fx.emissions.is_empty() {
            emitted.push((now, fx.emissions));
        }
    }
    assert_eq!(emitted, vec![(100, vec![51]), (350, vec![53])]);
    assert_eq!(s.volume, 54);
}

#[test]
fn volume_clamps_at_top_with_boundary_bumps() {
    let mut s = DialState::new();
    s.apply_remote_volume(100);
    assert_eq!(s.volume, 100);
    assert_eq!(s.last_printed_volume, 100);
    // 3000 raw units at threshold 600 are five notches, all of which bump
    // against the upper bound.
    let fx = s.on_rotate(3000, 0);
    assert_eq!(s.volume, 100);
    assert_eq!(fx.feedback, 1 + 5); // wake buzz plus five boundary bumps
    assert!(fx.emissions.is_empty());
}

#[test]
fn volume_bounded_under_extreme_deltas() {
    let mut s = DialState::new();
    let fx = s.on_rotate(i32::MIN, 0);
    assert_eq!(s.volume, 0);
    // |i32::MIN| = 2147483648 = 600 * 3579139 + 248: fifty notches reach
    // the floor and every further notch bumps against it.
    assert_eq!(s.raw_accumulator, -248);
    assert_eq!(fx.feedback, 1 + (3_579_139 - 50));
    // On the way down, exactly the decade crossings are emitted.
    assert_eq!(fx.emissions, vec![49, 39, 29, 19, 9]);

    let mut s = DialState::new();
    let fx = s.on_rotate(i32::MAX, 0);
    assert_eq!(s.volume, 100);
    assert_eq!(fx.emissions, vec![51, 60, 70, 80, 90, 100]);
    for d in [i32::MIN, i32::MAX, 0, -1, 1, 599, -601] {
        s.on_rotate(d, 2);
        assert!(0 <= s.volume && s.volume <= 100);
    }
}

#[test]
fn zero_delta_is_harmless() {
    let mut s = DialState::new();
    let fx = s.on_rotate(0, 5);
    assert_eq!(fx.feedback, 1); // wake buzz only
    assert!(fx.emissions.is_empty());
    assert_eq!(s.volume, 50);
    assert_eq!(s.raw_accumulator, 0);
    assert_eq!(s.mode, DialMode::Active);
}

#[test]
fn backlash_confirm_fires_once() {
    let mut s = DialState::new();
    s.on_rotate(1, 0); // establish direction +1
    assert_eq!(s.last_raw_direction, 1);
    // A sustained reversal: 24 events buffer silently...
    let mut total_feedback = 0u64;
    for k in 0..24u64 {
        let fx = s.on_rotate(-1, 10 + k);
        total_feedback += fx.feedback;
        assert_eq!(s.mode, DialMode::Backlash);
        assert!(fx.emissions.is_empty());
    }
    assert_eq!(total_feedback, 0);
    assert_eq!(s.backlash_accumulator, -24);
    // ... and the 25th confirms it with exactly one trigger, transferring
    // the whole buffer.
    let fx = s.on_rotate(-1, 40);
    assert_eq!(fx.feedback, 1);
    assert_eq!(s.mode, DialMode::Active);
    assert_eq!(s.raw_accumulator, -25);
    assert_eq!(s.volume, 50);
}

#[test]
fn backlash_cancel_is_silent_and_keeps_magnitude() {
    let mut s = DialState::new();
    s.on_rotate(1, 0); // establish direction +1
    // Three spurious reverse events...
    for k in 0..3u64 {
        let fx = s.on_rotate(-1, 10 + k);
        assert_eq!(fx.feedback, 0);
        assert_eq!(s.mode, DialMode::Backlash);
    }
    // ... then the turn resumes in the original direction: after five
    // consecutive original-direction events the reversal is dismissed and
    // the rotation buffered since the return is transferred whole.
    for k in 0..4u64 {
        let fx = s.on_rotate(1, 20 + k);
        assert_eq!(fx.feedback, 0);
        assert_eq!(s.mode, DialMode::Backlash);
        assert!(fx.emissions.is_empty());
    }
    let fx = s.on_rotate(1, 30);
    assert_eq!(fx.feedback, 0);
    assert!(fx.emissions.is_empty());
    assert_eq!(s.mode, DialMode::Active);
    assert_eq!(s.raw_accumulator, 5);
    assert_eq!(s.volume, 50);
}

#[test]
fn idle_reset_after_timeout() {
    let mut s = DialState::new();
    s.on_rotate(3000, 0);
    assert_eq!(s.volume, 55);
    assert_eq!(s.mode, DialMode::Active);
    // One millisecond early: nothing happens.
    let fx = s.on_tick(29_999);
    assert!(!fx.idle_reset);
    assert_eq!(s.mode, DialMode::Active);
    // At the timeout: reset to idle, accumulator and direction tracking
    // cleared, volume untouched.
    s.on_rotate(100, 100); // leave some pending rotation and direction
    assert_eq!(s.raw_accumulator, 100);
    let fx = s.on_tick(30_100);
    assert!(fx.idle_reset);
    assert_eq!(s.mode, DialMode::Idle);
    assert_eq!(s.raw_accumulator, 0);
    assert_eq!(s.last_raw_direction, 0);
    assert_eq!(s.consistent_direction_count, 0);
    assert_eq!(s.pre_backlash_direction, 0);
    assert_eq!(s.backlash_accumulator, 0);
    assert_eq!(s.volume, 55);
}

#[test]
fn click_suppresses_rotation() {
    let mut s = DialState::new();
    let fx = s.on_click(true, 0);
    assert_eq!(fx.feedback, 1); // wake buzz
    assert!(!fx.click_emitted);
    assert!(s.clicking);
    // Rotation while the button is held changes nothing.
    let fx = s.on_rotate(5000, 10);
    assert_eq!(fx.feedback, 0);
    assert!(fx.emissions.is_empty());
    assert_eq!(s.volume, 50);
    assert_eq!(s.raw_accumulator, 0);
    // The release emits one click.
    let fx = s.on_click(false, 20);
    assert!(fx.click_emitted);
    assert!(!s.clicking);
}

#[test]
fn release_without_press_is_ignored() {
    let mut s = DialState::new();
    let fx = s.on_click(false, 0);
    assert!(!fx.click_emitted);
    assert!(!s.clicking);
}

#[test]
fn click_timeout_aborts_without_emitting() {
    let mut s = DialState::new();
    s.on_rotate(300, 0); // pending sub-notch rotation
    assert_eq!(s.raw_accumulator, 300);
    s.on_click(true, 100);
    // One millisecond early: the hold survives.
    let fx = s.on_tick(2_099);
    assert!(!fx.click_aborted);
    assert!(s.clicking);
    // At the timeout: the gesture is aborted, pending rotation discarded,
    // and no click is emitted.
    let fx = s.on_tick(2_100);
    assert!(fx.click_aborted);
    assert!(!s.clicking);
    assert_eq!(s.raw_accumulator, 0);
    // A later release stays a no-op.
    let fx = s.on_click(false, 2_200);
    assert!(!fx.click_emitted);
}

#[test]
fn remote_volume_only_while_idle() {
    let mut s = DialState::new();
    s.apply_remote_volume(80);
    assert_eq!(s.volume, 80);
    assert_eq!(s.last_printed_volume, 80);
    s.apply_remote_volume(250);
    assert_eq!(s.volume, 100);
    s.apply_remote_volume(-3);
    assert_eq!(s.volume, 0);
    // While a gesture is in progress, remote updates are ignored.
    s.on_rotate(1, 0);
    s.apply_remote_volume(77);
    assert_eq!(s.volume, 0);
}

#[test]
fn reset_to_idle_clears_gesture_state() {
    let mut s = DialState::new();
    s.on_rotate(3000, 0);
    s.on_click(true, 10);
    s.reset_to_idle();
    assert_eq!(s.mode, DialMode::Idle);
    assert_eq!(s.raw_accumulator, 0);
    assert!(!s.clicking);
    assert_eq!(s.last_raw_direction, 0);
    assert_eq!(s.volume, 55); // volume persists across resets
}

#[test]
fn adaptive_threshold_slow_vs_fast() {
    // A slow precise turn needs 200 raw units per notch; a fast flick needs
    // 600 for the same notch.
    let mut slow = DialState::new();
    for k in 0..199u64 {
        slow.on_rotate(1, k);
        assert_eq!(slow.volume, 50);
    }
    slow.on_rotate(1, 199);
    assert_eq!(slow.volume, 51);

    let mut fast = DialState::new();
    for k in 0..5u64 {
        fast.on_rotate(100, k);
        assert_eq!(fast.volume, 50);
    }
    fast.on_rotate(100, 5);
    assert_eq!(fast.volume, 51);
}

#[test]
fn ema_fixed_point_arithmetic_is_exact() {
    // smoothed' = (3000 * |delta| + 7 * smoothed) / 10, scaled by 1000.
    let mut s = DialState::new();
    s.on_rotate(2, 0);
    assert_eq!(s.smoothed_magnitude, 600);
    s.on_rotate(-2, 1); // magnitude matters, sign does not
    assert_eq!(s.smoothed_magnitude, 1020);
    s.on_rotate(2, 2);
    assert_eq!(s.smoothed_magnitude, 1314);
}

#[test]
fn threshold_lower_segment_boundary() {
    // With the average landing at 1350, the threshold is
    // 200 + (1350 - 1000) / 5 = 270 raw units per notch.
    let mut s = DialState::new();
    s.smoothed_magnitude = 1500;
    s.raw_accumulator = 269;
    s.on_rotate(1, 0); // average becomes (3000 + 7 * 1500) / 10 = 1350
    assert_eq!(s.smoothed_magnitude, 1350);
    assert_eq!(s.volume, 51); // 270 raw units: exactly one notch
    assert_eq!(s.raw_accumulator, 0);

    let mut s = DialState::new();
    s.smoothed_magnitude = 1500;
    s.raw_accumulator = 268;
    s.on_rotate(1, 0);
    assert_eq!(s.volume, 50); // 269 raw units: one short of the notch
    assert_eq!(s.raw_accumulator, 269);
}

#[test]
fn threshold_upper_segment_boundary() {
    // With the average landing at 2400, the threshold is
    // 400 + (2400 - 2000) / 100 = 404 raw units per notch.
    let mut s = DialState::new();
    s.smoothed_magnitude = 3000;
    s.raw_accumulator = 403;
    s.on_rotate(1, 0); // average becomes (3000 + 7 * 3000) / 10 = 2400
    assert_eq!(s.smoothed_magnitude, 2400);
    assert_eq!(s.volume, 51);
    assert_eq!(s.raw_accumulator, 0);

    let mut s = DialState::new();
    s.smoothed_magnitude = 3000;
    s.raw_accumulator = 402;
    s.on_rotate(1, 0);
    assert_eq!(s.volume, 50);
    assert_eq!(s.raw_accumulator, 403);
}

#[test]
fn clock_going_backwards_is_harmless() {
    let mut s = DialState::new();
    s.on_rotate(1, 1_000_000);
    // A tick carrying an earlier timestamp counts as zero elapsed time.
    let fx = s.on_tick(0);
    assert!(!fx.idle_reset);
    assert_eq!(s.mode, DialMode::Active);
    s.on_click(true, 1_000_000);
    let fx = s.on_tick(10);
    assert!(!fx.click_aborted);
    assert!(s.clicking);
}

#[test]
fn smoothed_magnitude_monotone_in_stream_magnitude() {
    let mut small = DialState::new();
    let mut large = DialState::new();
    for k in 0..10u64 {
        small.on_rotate(5, k);
        large.on_rotate(-50, k);
        assert!(small.smoothed_magnitude <= large.smoothed_magnitude);
    }
    // The exact fixed-point average after two magnitude-5 events.
    let mut two = DialState::new();
    two.on_rotate(5, 0);
    assert_eq!(two.smoothed_magnitude, 1500);
    two.on_rotate(5, 1);
    assert_eq!(two.smoothed_magnitude, 2550);
}
