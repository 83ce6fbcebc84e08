use bevy_ggrs::snapshot::{is_frame_at_or_after, ConfirmedFrameCount, GgrsSnapshots, MaxPredictionWindow};

type Snap = GgrsSnapshots<u32, u32>;

fn snap_with_depth(depth: usize) -> Snap {
    let mut s = Snap::default();
    s.set_depth(depth);
    s
}

#[test]
fn push_single_frame() {
    let mut s = snap_with_depth(8);
    s.push(0, 42);
    assert_eq!(s.peek(0), Some(&42));
}

#[test]
fn push_ascending_frames_retained() {
    let mut s = snap_with_depth(8);
    for i in 0..5_i32 {
        s.push(i, i as u32 * 10);
    }
    for i in 0..5_i32 {
        assert_eq!(s.peek(i), Some(&(i as u32 * 10)));
    }
}

#[test]
fn push_evicts_oldest_when_depth_exceeded() {
    let mut s = snap_with_depth(3);
    for i in 0..5_i32 {
        s.push(i, i as u32);
    }
    assert!(s.peek(0).is_none());
    assert!(s.peek(1).is_none());
    assert_eq!(s.peek(2), Some(&2));
    assert_eq!(s.peek(3), Some(&3));
    assert_eq!(s.peek(4), Some(&4));
}

#[test]
fn push_older_frame_discards_newer() {
    let mut s = snap_with_depth(8);
    s.push(5, 50);
    s.push(6, 60);
    s.push(7, 70);
    s.push(5, 99);
    assert_eq!(s.peek(5), Some(&99));
    assert!(s.peek(6).is_none());
    assert!(s.peek(7).is_none());
}

#[test]
fn push_same_frame_replaces() {
    let mut s = snap_with_depth(8);
    s.push(3, 10);
    s.push(3, 20);
    assert_eq!(s.peek(3), Some(&20));
}

#[test]
fn confirm_prunes_older_frames() {
    let mut s = snap_with_depth(8);
    for i in 0..6_i32 {
        s.push(i, i as u32);
    }
    s.confirm(3);
    assert!(s.peek(0).is_none());
    assert!(s.peek(1).is_none());
    assert!(s.peek(2).is_none());
    assert_eq!(s.peek(3), Some(&3));
    assert_eq!(s.peek(4), Some(&4));
    assert_eq!(s.peek(5), Some(&5));
}

#[test]
fn confirm_beyond_all_frames_empties_storage() {
    let mut s = snap_with_depth(8);
    for i in 0..4_i32 {
        s.push(i, i as u32);
    }
    s.confirm(100);
    for i in 0..4_i32 {
        assert!(s.peek(i).is_none());
    }
}

#[test]
fn confirm_on_empty_does_not_panic() {
    let mut s: Snap = snap_with_depth(8);
    s.confirm(5);
}

#[test]
fn rollback_to_existing_frame() {
    let mut s = snap_with_depth(8);
    for i in 0..5_i32 {
        s.push(i, i as u32 * 10);
    }
    s.rollback(2);
    assert_eq!(s.get(), &20);
}

#[test]
fn rollback_discards_newer_frames() {
    let mut s = snap_with_depth(8);
    for i in 0..5_i32 {
        s.push(i, i as u32);
    }
    s.rollback(2);
    assert!(s.peek(3).is_none());
    assert!(s.peek(4).is_none());
    assert_eq!(s.peek(2), Some(&2));
}

/// The library never panics: a rollback to a missing frame is reported, and the caller panics
/// with the message a missing snapshot calls for.
#[test]
#[should_panic(expected = "Could not rollback to 99")]
fn rollback_missing_frame_panics() {
    let mut s = snap_with_depth(8);
    s.push(0, 0);
    if let Err(missing) = s.try_rollback(99) {
        panic!(
            "Could not rollback to {}: no snapshot at that moment could be found.",
            missing.frame
        );
    }
}

#[test]
fn peek_missing_frame_returns_none() {
    let mut s = snap_with_depth(8);
    s.push(1, 10);
    assert!(s.peek(0).is_none());
    assert!(s.peek(2).is_none());
}

#[test]
fn push_wraps_i32_max_to_min_retains_history() {
    let mut s = snap_with_depth(8);
    s.push(i32::MAX - 2, 1);
    s.push(i32::MAX - 1, 2);
    s.push(i32::MAX, 3);
    s.push(i32::MIN, 4);
    assert_eq!(s.peek(i32::MAX - 2), Some(&1));
    assert_eq!(s.peek(i32::MAX - 1), Some(&2));
    assert_eq!(s.peek(i32::MAX), Some(&3));
    assert_eq!(s.peek(i32::MIN), Some(&4));
}

#[test]
fn push_max_after_min_evicts_min_as_future() {
    let mut s = snap_with_depth(8);
    s.push(i32::MIN, 1);
    s.push(i32::MAX, 2);
    assert!(
        s.peek(i32::MIN).is_none(),
        "i32::MIN should be evicted as a future frame"
    );
    assert_eq!(s.peek(i32::MAX), Some(&2));
}

// ---- further scenarios ----

#[test]
fn default_depth_is_default_fps() {
    let s = Snap::default();
    assert_eq!(s.depth(), 60);
}

#[test]
fn set_depth_keeps_snapshots_and_chains() {
    let mut s = snap_with_depth(8);
    s.push(1, 10).push(2, 20);
    s.set_depth(4).push(3, 30);
    assert_eq!(s.depth(), 4);
    assert_eq!(s.peek(1), Some(&10));
    assert_eq!(s.peek(3), Some(&30));
}

#[test]
fn push_with_zero_depth_keeps_nothing() {
    let mut s = snap_with_depth(0);
    s.push(1, 10);
    assert!(s.peek(1).is_none());
}

#[test]
fn push_then_get_returns_newest() {
    let mut s = snap_with_depth(2);
    s.push(7, 70);
    assert_eq!(s.get(), &70);
    s.push(8, 80);
    assert_eq!(s.get(), &80);
}

#[test]
fn rollback_then_get_returns_peeked_snapshot() {
    let mut s = snap_with_depth(8);
    for i in 10..15_i32 {
        s.push(i, i as u32 + 100);
    }
    let before = *s.peek(12).unwrap();
    s.rollback(12);
    assert_eq!(*s.get(), before);
    assert_eq!(s.peek(12), Some(&before));
}

#[test]
fn try_rollback_missing_leaves_storage_unchanged() {
    let mut s = snap_with_depth(8);
    s.push(1, 10);
    s.push(2, 20);
    let err = s.try_rollback(5).unwrap_err();
    assert_eq!(err.frame, 5);
    assert_eq!(s.peek(1), Some(&10));
    assert_eq!(s.peek(2), Some(&20));
    assert!(s.try_rollback(1).is_ok());
    assert_eq!(s.get(), &10);
}

#[test]
fn confirm_keeps_the_confirmed_frame_and_later() {
    let mut s = snap_with_depth(8);
    for i in 0..4_i32 {
        s.push(i, i as u32);
    }
    s.confirm(2);
    assert_eq!(s.peek(2), Some(&2));
    assert_eq!(s.peek(3), Some(&3));
    assert!(s.peek(1).is_none());
}

#[test]
fn discard_old_snapshots_without_confirmation_changes_nothing() {
    let mut s = snap_with_depth(8);
    s.push(0, 0).push(1, 1);
    s.discard_old_snapshots(None);
    assert_eq!(s.peek(0), Some(&0));
    s.discard_old_snapshots(Some(&ConfirmedFrameCount(1)));
    assert!(s.peek(0).is_none());
    assert_eq!(s.peek(1), Some(&1));
}

#[test]
fn sync_depth_follows_prediction_window() {
    let mut s = snap_with_depth(8);
    s.sync_depth(None);
    assert_eq!(s.depth(), 8);
    s.sync_depth(Some(&MaxPredictionWindow(12)));
    assert_eq!(s.depth(), 12);
}

#[test]
fn frames_across_wrap_are_ordered() {
    assert!(is_frame_at_or_after(i32::MIN, i32::MAX));
    assert!(!is_frame_at_or_after(i32::MAX, i32::MIN));
    assert!(is_frame_at_or_after(5, 5));
    assert!(is_frame_at_or_after(6, 5));
    assert!(!is_frame_at_or_after(4, 5));
}

#[test]
fn frame_counts_convert_to_their_frame() {
    use_frame_counts();
}

fn use_frame_counts() {
    assert_eq!(i32::from(bevy_ggrs::RollbackFrameCount(5)), 5);
    assert_eq!(i32::from(ConfirmedFrameCount(-3)), -3);
    assert_eq!(bevy_ggrs::RollbackFrameCount::default().frame(), 0);
    assert_eq!(ConfirmedFrameCount::default().frame(), 0);
    assert!(bevy_ggrs::RollbackFrameCount(1) < bevy_ggrs::RollbackFrameCount(2));
}
