use headway::ProgressBar;
use headway::ProgressBarManager;

fn flat_anim() -> Vec<u64> {
    vec![0; 20]
}

const FILLED: &str = "\u{2588}";
const LEFT: &str = "\u{2595}";
const RIGHT: &str = "\u{258f}";
const RESET: &str = "\u{1b}[0m";

#[test]
fn summed_parent_length_acts_as_floor() {
    let mut mgr = ProgressBarManager::new(true);
    let (parent, _) = ProgressBar::new(&mut mgr);
    parent.set_length(&mut mgr, 10);
    let split = parent.split_summed(&mut mgr);
    let mut child = split.take(&mut mgr);
    child.set_length(&mut mgr, 4);
    for _ in 0..4 {
        child.inc(&mut mgr);
    }
    child.finish(&mut mgr, &flat_anim());
    // The only child covers four items, but the parent claims ten: the
    // counter reads four of ten.
    let out = mgr.tick(&flat_anim());
    assert!(out.pre_flush.contains(" 4/10"));
}

#[test]
fn sized_counts_beyond_parent_length_win() {
    let mut mgr = ProgressBarManager::new(true);
    let (parent, _) = ProgressBar::new(&mut mgr);
    parent.set_length(&mut mgr, 20);
    let mut split = parent.split_sized(&mut mgr);
    for _ in 0..2 {
        let mut child = split.take(&mut mgr, 15);
        for _ in 0..15 {
            child.inc(&mut mgr);
        }
        child.finish(&mut mgr, &flat_anim());
    }
    // The children stand for thirty items, more than the preset twenty:
    // the total grows to the children's sum.
    let out = mgr.tick(&flat_anim());
    assert!(out.pre_flush.contains(" 30/30"));
}

#[test]
fn abandoned_indeterminate_bar_with_progress_reads_complete() {
    let mut mgr = ProgressBarManager::new(false);
    let (mut bar, _) = ProgressBar::new(&mut mgr);
    for _ in 0..7 {
        bar.inc(&mut mgr);
    }
    // A bar of unknown length that made progress and was then dropped
    // keeps what it reached: the position becomes the final length.
    let out = bar.abandon(&mut mgr, &flat_anim());
    let expected = format!("{}{}{}{} 7/7\n", LEFT, FILLED.repeat(20), RESET, RIGHT);
    assert_eq!(out.pre_flush, expected);
}

#[test]
fn abandoned_indeterminate_bar_without_progress_is_empty() {
    let mut mgr = ProgressBarManager::new(false);
    let (mut bar, _) = ProgressBar::new(&mut mgr);
    let out = bar.abandon(&mut mgr, &flat_anim());
    let expected = format!("{}{}{}{} 0/0\n", LEFT, RESET, " ".repeat(20), RIGHT);
    assert_eq!(out.pre_flush, expected);
}

#[test]
fn summed_with_active_indeterminate_child_goes_indeterminate() {
    let mut mgr = ProgressBarManager::new(true);
    let (parent, _) = ProgressBar::new(&mut mgr);
    let split = parent.split_summed(&mut mgr);
    let mut done = split.take(&mut mgr);
    done.set_length(&mut mgr, 5);
    for _ in 0..5 {
        done.inc(&mut mgr);
    }
    done.finish(&mut mgr, &flat_anim());
    let busy = split.take(&mut mgr);
    for _ in 0..3 {
        busy.inc(&mut mgr);
    }
    // A child of unknown length with activity makes the whole sum
    // indeterminate; the counter still shows what is known so far.
    let out = mgr.tick(&flat_anim());
    assert!(out.pre_flush.contains(" 8/?"));
    assert!(out.is_animating);
    drop(busy);
}

#[test]
fn zero_weight_child_contributes_nothing() {
    let mut mgr = ProgressBarManager::new(true);
    let (parent, _) = ProgressBar::new(&mut mgr);
    let mut split = parent.split_weighted(&mut mgr);
    let mut weightless = split.take(&mut mgr, 0);
    weightless.set_length(&mut mgr, 3);
    for _ in 0..3 {
        weightless.inc(&mut mgr);
    }
    weightless.finish(&mut mgr, &flat_anim());
    let heavy = split.take(&mut mgr, 1_000_000);
    heavy.set_length(&mut mgr, 2);
    heavy.inc(&mut mgr);
    // The completed weightless child moves nothing; the half-done child
    // with the whole weight reads as fifty percent.
    let out = mgr.tick(&flat_anim());
    assert!(out.pre_flush.contains(" 50%"));
    drop(heavy);
}

#[test]
fn finish_with_message_sets_then_completes() {
    let mut mgr = ProgressBarManager::new(false);
    let (mut bar, _) = ProgressBar::new(&mut mgr);
    bar.set_length(&mut mgr, 3);
    let out = bar.finish_with_message(&mut mgr, String::from("done"), &flat_anim());
    assert!(out.pre_flush.contains(" 3/3 done\n"));
}

#[test]
fn position_beyond_length_is_clamped_in_the_display() {
    let mut mgr = ProgressBarManager::new(true);
    let (bar, _) = ProgressBar::new(&mut mgr);
    bar.set_length(&mut mgr, 5);
    bar.set_position(&mut mgr, 9);
    let out = mgr.tick(&flat_anim());
    assert!(out.pre_flush.contains(" 5/5"));
}

#[test]
fn nested_splits_aggregate_through_levels() {
    let mut mgr = ProgressBarManager::new(true);
    let (parent, _) = ProgressBar::new(&mut mgr);
    let mut outer = parent.split_weighted(&mut mgr);
    let left = outer.take(&mut mgr, 500_000);
    let mut right = outer.take(&mut mgr, 500_000);
    right.set_length(&mut mgr, 1);
    right.inc(&mut mgr);
    right.finish(&mut mgr, &flat_anim());
    let mut inner = left.split_weighted(&mut mgr);
    let mut a = inner.take(&mut mgr, 500_000);
    let b = inner.take(&mut mgr, 500_000);
    a.set_length(&mut mgr, 1);
    a.inc(&mut mgr);
    a.finish(&mut mgr, &flat_anim());
    // Half of the left half plus the whole right half: three quarters.
    let out = mgr.tick(&flat_anim());
    assert!(out.pre_flush.contains(" 75%"));
    drop(b);
}
