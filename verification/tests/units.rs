use headway::ProgressBar;
use headway::ProgressBarManager;
use headway::should_tick;
use headway::BRIGHTNESS_STEPS;
use headway::SCALE;

fn flat_anim() -> Vec<u64> {
    vec![0; 20]
}

const FILLED: &str = "\u{2588}";
const LEFT: &str = "\u{2595}";
const RIGHT: &str = "\u{258f}";
const RESET: &str = "\u{1b}[0m";

#[test]
fn zero_length_bar_completes() {
    let mut mgr = ProgressBarManager::new(false);
    let (mut bar, _) = ProgressBar::new(&mut mgr);
    bar.set_length(&mut mgr, 0);
    let out = bar.finish(&mut mgr, &flat_anim());
    // A zero-length bar has nothing to fill: all cells stay empty and the
    // counter shows zero of zero.
    let expected = format!("{}{}{}{} 0/0\n", LEFT, RESET, " ".repeat(20), RIGHT);
    assert_eq!(out.pre_flush, expected);
}

#[test]
fn weights_beyond_one_whole_normalize() {
    let mut mgr = ProgressBarManager::new(false);
    let (parent, _) = ProgressBar::new(&mut mgr);
    let mut split = parent.split_weighted(&mut mgr);
    let mut children = vec![
        split.take(&mut mgr, 600_000),
        split.take(&mut mgr, 600_000),
    ];
    for child in &mut children {
        child.set_length(&mut mgr, 10);
        for _ in 0..10 {
            child.inc(&mut mgr);
        }
        child.finish(&mut mgr, &flat_anim());
    }
    let mut parent_handle = split.bar;
    let out = parent_handle.finish(&mut mgr, &flat_anim());
    // Total weight 1.2 is treated as the whole, so two complete children
    // still mean one hundred percent.
    assert!(out.pre_flush.contains(" 100%"));
}

#[test]
fn weighted_remaining_takes_the_rest() {
    let mut mgr = ProgressBarManager::new(false);
    let (parent, _) = ProgressBar::new(&mut mgr);
    let mut split = parent.split_weighted(&mut mgr);
    let mut first = split.take(&mut mgr, 250_000);
    let mut rest = split.remaining(&mut mgr);
    assert_eq!(split.taken_fraction, SCALE);
    // Completing only the remaining three quarters reads as 75 percent.
    rest.set_length(&mut mgr, 4);
    for _ in 0..4 {
        rest.inc(&mut mgr);
    }
    rest.finish(&mut mgr, &flat_anim());
    let snapshot = mgr.tick(&flat_anim());
    assert_eq!(snapshot.pre_flush, "");
    first.set_length(&mut mgr, 4);
    first.finish(&mut mgr, &flat_anim());
    let mut parent_handle = split.bar;
    let out = parent_handle.finish(&mut mgr, &flat_anim());
    assert!(out.pre_flush.contains(" 100%"));
}

#[test]
fn weighted_partial_progress_shows_percent() {
    let mut mgr = ProgressBarManager::new(true);
    let (parent, _) = ProgressBar::new(&mut mgr);
    let mut split = parent.split_weighted(&mut mgr);
    let mut first = split.take(&mut mgr, 400_000);
    let second = split.take(&mut mgr, 600_000);
    first.set_length(&mut mgr, 2);
    first.inc(&mut mgr);
    first.inc(&mut mgr);
    first.finish(&mut mgr, &flat_anim());
    // The first child is the whole of its forty percent; the second has
    // not moved.
    let out = mgr.tick(&flat_anim());
    assert!(out.pre_flush.contains(" 40%"));
    drop(second);
}

#[test]
fn sized_remaining_needs_a_length() {
    let mut mgr = ProgressBarManager::new(false);
    let (parent, _) = ProgressBar::new(&mut mgr);
    parent.set_length(&mut mgr, 50);
    let mut split = parent.split_sized(&mut mgr);
    let first = split.take(&mut mgr, 10);
    assert_eq!(first.length(&mgr), Some(10));
    let rest = split.remaining(&mut mgr);
    assert_eq!(rest.length(&mgr), Some(40));
}

#[test]
fn indeterminate_child_with_no_activity_counts_nothing() {
    let mut mgr = ProgressBarManager::new(true);
    let (parent, _) = ProgressBar::new(&mut mgr);
    let mut split = parent.split_weighted(&mut mgr);
    let mut done = split.take(&mut mgr, 500_000);
    let idle = split.take(&mut mgr, 500_000);
    done.set_length(&mut mgr, 1);
    done.inc(&mut mgr);
    done.finish(&mut mgr, &flat_anim());
    // The untouched second child has no length and no progress: it adds
    // neither progress nor animation.
    let out = mgr.tick(&flat_anim());
    assert!(out.pre_flush.contains(" 50%"));
    assert!(!out.is_animating);
    drop(idle);
}

#[test]
fn indeterminate_child_with_activity_reads_as_running() {
    let mut mgr = ProgressBarManager::new(true);
    let (parent, _) = ProgressBar::new(&mut mgr);
    let mut split = parent.split_weighted(&mut mgr);
    let mut done = split.take(&mut mgr, 500_000);
    let busy = split.take(&mut mgr, 500_000);
    done.set_length(&mut mgr, 1);
    done.inc(&mut mgr);
    done.finish(&mut mgr, &flat_anim());
    // The second child has made progress but has no length: its whole
    // share counts as running, so the bar animates.
    busy.inc(&mut mgr);
    let out = mgr.tick(&flat_anim());
    assert!(out.pre_flush.contains(" 50%"));
    assert!(out.is_animating);
    drop(busy);
}

#[test]
fn message_of_first_unfinished_bar_wins() {
    let mut mgr = ProgressBarManager::new(true);
    let (parent, _) = ProgressBar::new(&mut mgr);
    let mut split = parent.split_sized(&mut mgr);
    let mut first = split.take(&mut mgr, 1);
    let second = split.take(&mut mgr, 1);
    first = first.with_message(&mut mgr, String::from("early"));
    let second = second.with_message(&mut mgr, String::from("late"));
    let out = mgr.tick(&flat_anim());
    assert!(out.pre_flush.contains(" early\n"));
    first.inc(&mut mgr);
    first.finish(&mut mgr, &flat_anim());
    let out2 = mgr.tick(&flat_anim());
    assert!(out2.pre_flush.contains(" late\n"));
    drop(second);
}

#[test]
fn empty_message_clears() {
    let mut mgr = ProgressBarManager::new(true);
    let (bar, _) = ProgressBar::new(&mut mgr);
    bar.set_message(&mut mgr, String::from("shown"));
    let out = mgr.tick(&flat_anim());
    assert!(out.pre_flush.contains(" shown\n"));
    bar.set_message(&mut mgr, String::new());
    let out2 = mgr.tick(&flat_anim());
    assert!(!out2.pre_flush.contains("shown"));
}

#[test]
fn clear_message_removes_the_text() {
    let mut mgr = ProgressBarManager::new(true);
    let (bar, _) = ProgressBar::new(&mut mgr);
    bar.set_message(&mut mgr, String::from("busy"));
    bar.clear_message(&mut mgr);
    let out = mgr.tick(&flat_anim());
    assert!(!out.pre_flush.contains("busy"));
}

#[test]
fn set_position_moves_the_counter() {
    let mut mgr = ProgressBarManager::new(true);
    let (bar, _) = ProgressBar::new(&mut mgr);
    bar.set_length(&mut mgr, 8);
    bar.set_position(&mut mgr, 6);
    let out = mgr.tick(&flat_anim());
    assert!(out.pre_flush.contains(" 6/8"));
}

#[test]
fn partial_fill_glyph_appears() {
    let mut mgr = ProgressBarManager::new(true);
    let (bar, _) = ProgressBar::new(&mut mgr);
    bar.set_length(&mut mgr, 40);
    bar.set_position(&mut mgr, 1);
    // One of forty items is half a cell: the bar shows the half-block
    // glyph.
    let out = mgr.tick(&flat_anim());
    let expected_line = format!(
        "{}\u{258c}{}{}{}{} 1/40\n",
        LEFT,
        RESET,
        " ".repeat(19),
        RIGHT,
        ""
    );
    assert!(out.pre_flush.contains(&expected_line));
}

#[test]
fn hash_tracks_reportable_state() {
    let mut mgr = ProgressBarManager::new(false);
    let (bar, _) = ProgressBar::new(&mut mgr);
    bar.set_length(&mut mgr, 10);
    let h1 = mgr.hash_state();
    let h1_again = mgr.hash_state();
    assert_eq!(h1, h1_again);
    bar.inc(&mut mgr);
    let h2 = mgr.hash_state();
    assert_ne!(h1, h2);
    bar.set_message(&mut mgr, String::from("word"));
    let h3 = mgr.hash_state();
    assert_ne!(h2, h3);

    // The same states hash alike, whatever path led to them.
    let mut other = ProgressBarManager::new(false);
    let (b2, _) = ProgressBar::new(&mut other);
    b2.set_length(&mut other, 10);
    b2.inc(&mut other);
    b2.set_message(&mut other, String::from("word"));
    assert_eq!(other.hash_state(), h3);
}

#[test]
fn should_tick_follows_change_and_period() {
    assert!(should_tick(true, 0, false));
    assert!(!should_tick(false, 200, false));
    assert!(should_tick(false, 201, false));
    assert!(!should_tick(false, 33, true));
    assert!(should_tick(false, 34, true));
}

#[test]
fn renderer_idle_check_stops_on_empty() {
    let mut mgr = ProgressBarManager::new(true);
    let (mut bar, spawn) = ProgressBar::new(&mut mgr);
    assert!(spawn);
    assert!(!mgr.renderer_idle_check());
    bar.finish(&mut mgr, &flat_anim());
    assert!(mgr.renderer_idle_check());
    assert!(!mgr.thread_started);
}

#[test]
fn animation_steps_use_the_grey_ramp() {
    // The embedding program derives each cell's brightness from a sine of
    // the elapsed time, as the renderer loop does.
    let t: f64 = 0.35;
    let mut anim: Vec<u64> = Vec::new();
    for i in 0..20 {
        let phase = (2.0 * t + (i as f64) * 0.7).sin() * 0.5 + 0.5;
        let step = ((phase * BRIGHTNESS_STEPS as f64).floor() as u64).min(BRIGHTNESS_STEPS - 1);
        anim.push(step);
    }
    let mut mgr = ProgressBarManager::new(true);
    let (bar, _) = ProgressBar::new(&mut mgr);
    let out = mgr.tick(&anim);
    assert!(out.is_animating);
    let first_cell = format!("\u{1b}[38;5;{}m{}", 232 + anim[0], FILLED);
    let pre = out.pre_flush.clone();
    assert!(pre.starts_with(&format!("{}{}", LEFT, first_cell)));
    drop(bar);
}

#[test]
fn attached_follows_the_handle() {
    let mut mgr = ProgressBarManager::new(false);
    let (mut bar, _) = ProgressBar::new(&mut mgr);
    assert!(bar.attached(&mgr));
    bar.finish(&mut mgr, &flat_anim());
    assert!(!bar.attached(&mgr));
}

#[test]
fn with_length_sets_and_returns() {
    let mut mgr = ProgressBarManager::new(false);
    let (bar, _) = ProgressBar::new(&mut mgr);
    let bar = bar.with_length(&mut mgr, 7);
    assert_eq!(bar.length(&mgr), Some(7));
}

#[test]
fn indeterminate_bar_has_no_length() {
    let mut mgr = ProgressBarManager::new(false);
    let (bar, _) = ProgressBar::new(&mut mgr);
    let bar = bar.wrap(&mut mgr, None);
    assert_eq!(bar.length(&mgr), None);
    bar.inc(&mut mgr);
    assert_eq!(bar.length(&mgr), None);
}
