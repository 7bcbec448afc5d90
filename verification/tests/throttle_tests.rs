use restream::throttle::FrameCapper;
use restream::throttle::ThrottleError;
use restream::throttle::CATCH_UP_WINDOW;

const MS: u128 = 1_000_000;

#[test]
fn a_new_throttle_is_anchored_at_its_start() {
    let capper = FrameCapper::new(100_000, 5 * MS);
    assert_eq!(capper.last_frame(), 5 * MS);
    assert_eq!(capper.frame_duration(), 100 * MS);
    assert_eq!(capper.missed_frames(), 0);
    assert_eq!(FrameCapper::new(0, 0).frame_duration(), 0);
    assert_eq!(
        FrameCapper::new(u64::MAX, 0).frame_duration(),
        u64::MAX as u128 * 1000
    );
}

#[test]
fn the_catch_up_window_is_one_second() {
    assert_eq!(CATCH_UP_WINDOW, 1_000_000_000);
}

#[test]
fn an_early_frame_sleeps_for_the_rest_of_its_time() {
    let mut capper = FrameCapper::new(100_000, 0);
    assert_eq!(capper.sync_framerate(30 * MS), 70 * MS);
    assert_eq!(capper.missed_frames(), 0);
    assert_eq!(capper.last_frame(), 0);
    let mut at_once = FrameCapper::new(100_000, 7);
    assert_eq!(at_once.sync_framerate(7), 100 * MS);
    let mut nearly = FrameCapper::new(100_000, 0);
    assert_eq!(nearly.sync_framerate(100 * MS - 1), 1);
}

#[test]
fn a_late_frame_does_not_sleep_and_is_counted() {
    let mut capper = FrameCapper::new(100_000, 0);
    assert_eq!(capper.sync_framerate(110 * MS), 0);
    assert_eq!(capper.missed_frames(), 1);
    assert_eq!(capper.sync_framerate(110 * MS), 0);
    assert_eq!(capper.missed_frames(), 2);
}

#[test]
fn a_frame_that_takes_just_its_time_counts_as_late() {
    let mut capper = FrameCapper::new(100_000, 0);
    assert_eq!(capper.sync_framerate(100 * MS), 0);
    assert_eq!(capper.missed_frames(), 1);
}

#[test]
fn an_early_frame_makes_up_for_one_missed_frame() {
    let mut capper = FrameCapper::new(100_000, 0);
    capper.sync_framerate(500 * MS);
    capper.sync_framerate(500 * MS);
    assert_eq!(capper.missed_frames(), 2);
    assert_eq!(capper.sync_framerate(10 * MS), 90 * MS);
    assert_eq!(capper.missed_frames(), 1);
    capper.sync_framerate(10 * MS);
    assert_eq!(capper.missed_frames(), 0);
    capper.sync_framerate(10 * MS);
    assert_eq!(capper.missed_frames(), 0);
}

#[test]
fn the_anchor_moves_on_by_one_frame() {
    let mut capper = FrameCapper::new(100_000, 0);
    assert_eq!(capper.sync_framerate(30 * MS), 70 * MS);
    assert_eq!(capper.next_frame_time(101 * MS), Ok(()));
    assert_eq!(capper.last_frame(), 100 * MS);
    capper.sync_framerate(250 * MS);
    assert_eq!(capper.next_frame_time(250 * MS), Ok(()));
    assert_eq!(capper.last_frame(), 200 * MS);
    assert_eq!(capper.missed_frames(), 1);
}

#[test]
fn the_anchor_is_reset_beyond_the_catch_up_window() {
    let mut capper = FrameCapper::new(100_000, 0);
    for _ in 0..10 {
        capper.sync_framerate(2000 * MS);
    }
    assert_eq!(capper.missed_frames(), 10);
    assert_eq!(capper.next_frame_time(2000 * MS), Ok(()));
    assert_eq!(capper.last_frame(), 100 * MS);
    capper.sync_framerate(2000 * MS);
    assert_eq!(capper.missed_frames(), 11);
    assert_eq!(capper.next_frame_time(2000 * MS), Ok(()));
    assert_eq!(capper.last_frame(), 2000 * MS);
}

#[test]
fn beyond_the_catch_up_window_no_frame_is_counted() {
    let mut capper = FrameCapper::new(100_000, 0);
    for late in 1..=11u32 {
        assert!(!capper.beyond_catch_up());
        capper.sync_framerate(100 * MS);
        assert_eq!(capper.missed_frames(), late);
    }
    assert!(capper.beyond_catch_up());
    for _ in 0..20 {
        assert_eq!(capper.sync_framerate(100 * MS), 0);
        assert_eq!(capper.missed_frames(), 11);
    }
}

#[test]
fn an_early_frame_brings_the_throttle_back_into_the_window() {
    let mut capper = FrameCapper::new(100_000, 0);
    for _ in 0..12 {
        capper.sync_framerate(100 * MS);
    }
    assert_eq!(capper.missed_frames(), 11);
    assert_eq!(capper.sync_framerate(40 * MS), 60 * MS);
    assert_eq!(capper.missed_frames(), 10);
    assert!(!capper.beyond_catch_up());
    assert_eq!(capper.next_frame_time(103 * MS), Ok(()));
    assert_eq!(capper.last_frame(), 100 * MS);
}

#[test]
fn fifteen_slow_frames() {
    let mut capper = FrameCapper::new(100_000, 0);
    let mut now = 0;
    let mut resets = 0;
    for frame in 1..=15u32 {
        now += 110 * MS;
        let anchor = capper.last_frame();
        assert_eq!(capper.sync_framerate(now), 0);
        assert_eq!(capper.missed_frames(), frame.min(11));
        assert!(capper.missed_frames() <= 11);
        assert_eq!(capper.next_frame_time(now), Ok(()));
        if frame <= 10 {
            assert_eq!(capper.last_frame(), anchor + 100 * MS);
            assert_eq!(capper.last_frame(), frame as u128 * 100 * MS);
            assert!(capper.missed_frames() as u128 * capper.frame_duration() <= CATCH_UP_WINDOW);
        } else {
            assert_eq!(capper.last_frame(), now);
            resets += 1;
        }
    }
    assert_eq!(resets, 5);
    assert_eq!(capper.missed_frames(), 11);
}

#[test]
fn a_long_frame_time_counts_one_missed_frame() {
    let mut capper = FrameCapper::new(3_000_000, 0);
    assert_eq!(capper.sync_framerate(3000 * MS), 0);
    assert_eq!(capper.missed_frames(), 1);
    assert_eq!(capper.sync_framerate(3000 * MS), 0);
    assert_eq!(capper.missed_frames(), 1);
    assert_eq!(capper.sync_framerate(10 * MS), 2990 * MS);
    assert_eq!(capper.missed_frames(), 0);
}

#[test]
fn without_a_frame_time_nothing_sleeps_and_the_anchor_stays() {
    let mut capper = FrameCapper::new(0, 50);
    assert_eq!(capper.sync_framerate(50), 0);
    assert_eq!(capper.missed_frames(), 1);
    assert_eq!(capper.next_frame_time(80), Ok(()));
    assert_eq!(capper.last_frame(), 50);
}

#[test]
fn an_anchor_that_cannot_move_on_is_an_error() {
    let mut capper = FrameCapper::new(1, u128::MAX - 999);
    assert_eq!(capper.next_frame_time(u128::MAX), Err(ThrottleError::NextFrameOverflow));
    assert_eq!(capper.last_frame(), u128::MAX - 999);
    assert_eq!(capper.missed_frames(), 0);
    let mut fits = FrameCapper::new(1, u128::MAX - 1000);
    assert_eq!(fits.next_frame_time(0), Ok(()));
    assert_eq!(fits.last_frame(), u128::MAX);
}

#[test]
fn a_reset_needs_no_room_behind_the_anchor() {
    let mut capper = FrameCapper::new(u64::MAX, u128::MAX - 5);
    assert_eq!(capper.sync_framerate(u128::MAX - 5), u64::MAX as u128 * 1000);
    assert_eq!(capper.next_frame_time(u128::MAX), Err(ThrottleError::NextFrameOverflow));
    let mut late = FrameCapper::new(2_000_000, u128::MAX - 5);
    late.sync_framerate(u128::MAX);
    assert_eq!(late.missed_frames(), 0);
    let mut lagging = FrameCapper::new(2_000_000, 0);
    lagging.sync_framerate(u128::MAX);
    assert_eq!(lagging.missed_frames(), 1);
    assert_eq!(lagging.next_frame_time(u128::MAX), Ok(()));
    assert_eq!(lagging.last_frame(), u128::MAX);
}
