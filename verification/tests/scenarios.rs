use headway::ProgressBar;
use headway::ProgressBarManager;

fn flat_anim() -> Vec<u64> {
    vec![0; 20]
}

const FILLED: &str = "\u{2588}";
const LEFT: &str = "\u{2595}";
const RIGHT: &str = "\u{258f}";
const RESET: &str = "\u{1b}[0m";

#[test]
fn simple_count_to_one_hundred() {
    let mut mgr = ProgressBarManager::new(false);
    let (bar, spawn) = ProgressBar::new(&mut mgr);
    assert!(!spawn);
    let bar = bar.wrap(&mut mgr, Some(100));
    assert_eq!(bar.length(&mgr), Some(100));
    let mut bar = bar;
    for _ in 0..100 {
        bar.inc(&mut mgr);
    }
    let out = bar.finish(&mut mgr, &flat_anim());
    let expected = format!(
        "{}{}{}{} 100/100\n",
        LEFT,
        FILLED.repeat(20),
        RESET,
        RIGHT
    );
    assert_eq!(out.pre_flush, expected);
    assert_eq!(out.post_flush, "");
    assert_eq!(mgr.bars.len(), 0);
}

#[test]
fn weighted_split_forty_sixty() {
    let mut mgr = ProgressBarManager::new(false);
    let (parent, _) = ProgressBar::new(&mut mgr);
    let mut split = parent.split_weighted(&mut mgr);
    let first = split.take(&mut mgr, 400_000);
    let first = first.with_message(&mut mgr, String::from("First part"));
    let second = split.take(&mut mgr, 600_000);
    let second = second.with_message(&mut mgr, String::from("Second part"));
    for mut child in [first, second] {
        child.set_length(&mut mgr, 50);
        for _ in 0..50 {
            child.inc(&mut mgr);
        }
        child.finish(&mut mgr, &flat_anim());
    }
    let mut parent_handle = split.bar;
    let out = parent_handle.abandon(&mut mgr, &flat_anim());
    let expected = format!(
        "{}{}{}{} 100% Second part\n",
        LEFT,
        FILLED.repeat(20),
        RESET,
        RIGHT
    );
    assert_eq!(out.pre_flush, expected);
    assert_eq!(mgr.bars.len(), 0);
}

#[test]
fn sized_split_with_preset_length() {
    let mut mgr = ProgressBarManager::new(false);
    let (parent, _) = ProgressBar::new(&mut mgr);
    parent.set_length(&mut mgr, 50);
    let mut split = parent.split_sized(&mut mgr);
    let first = split.take(&mut mgr, 10);
    let second = split.take(&mut mgr, 30);
    for mut child in [first, second] {
        let len = child.length(&mgr).unwrap();
        for _ in 0..len {
            child.inc(&mut mgr);
        }
        child.finish(&mut mgr, &flat_anim());
    }
    let mut parent_handle = split.bar;
    let out = parent_handle.abandon(&mut mgr, &flat_anim());
    // 40 of 50 items are done: 16 of 20 cells filled, the rest empty, not
    // abandoned.
    let expected = format!(
        "{}{}{}    {} 40/50\n",
        LEFT,
        FILLED.repeat(16),
        RESET,
        RIGHT
    );
    assert_eq!(out.pre_flush, expected);
}

#[test]
fn abandonment_leaves_a_red_tail() {
    let mut mgr = ProgressBarManager::new(false);
    let (mut bar, _) = ProgressBar::new(&mut mgr);
    bar.set_length(&mut mgr, 100);
    for _ in 0..20 {
        bar.inc(&mut mgr);
    }
    let out = bar.abandon(&mut mgr, &flat_anim());
    // 20 of 100 items done: 4 filled cells, then the abandoned tail. The
    // manager is not interactive here, so the tail has no colour escapes.
    let expected = format!(
        "{}{}{}{}{} 20/100\n",
        LEFT,
        FILLED.repeat(4),
        RESET,
        "X".repeat(16),
        RIGHT
    );
    assert_eq!(out.pre_flush, expected);
    assert_eq!(mgr.bars.len(), 0);
}

#[test]
fn abandoned_tail_is_red_on_a_terminal() {
    let mut mgr = ProgressBarManager::new(true);
    let (mut bar, spawn) = ProgressBar::new(&mut mgr);
    assert!(spawn);
    bar.set_length(&mut mgr, 100);
    for _ in 0..20 {
        bar.inc(&mut mgr);
    }
    let out = bar.abandon(&mut mgr, &flat_anim());
    let expected = format!(
        "{}{}{}\u{1b}[31m{}{}{} 20/100\n",
        LEFT,
        FILLED.repeat(4),
        RESET,
        "X".repeat(16),
        RESET,
        RIGHT
    );
    assert_eq!(out.pre_flush, expected);
}

#[test]
fn indeterminate_then_finish() {
    let mut mgr = ProgressBarManager::new(true);
    let (mut bar, _) = ProgressBar::new(&mut mgr);
    for _ in 0..100 {
        bar.inc(&mut mgr);
    }
    let out = mgr.tick(&flat_anim());
    // The bar has no length: every cell is animated and the counter shows
    // the position over an unknown total.
    let cell = format!("\u{1b}[38;5;232m{}", FILLED);
    let line = format!("{}{}{}{} 100/?\n", LEFT, cell.repeat(20), RESET, RIGHT);
    let expected_pre = format!("{}\u{1b}[1F", line);
    assert_eq!(out.pre_flush, expected_pre);
    assert_eq!(out.post_flush, "\u{1b}[0J");
    assert!(out.is_animating);
    let out2 = bar.finish(&mut mgr, &flat_anim());
    let expected2 = format!(
        "{}{}{}{} 100/100\n",
        LEFT,
        FILLED.repeat(20),
        RESET,
        RIGHT
    );
    assert_eq!(out2.pre_flush, expected2);
    assert!(!out2.is_animating);
    assert_eq!(mgr.bars.len(), 0);
}

#[test]
fn summed_split_counts_every_child() {
    let mut mgr = ProgressBarManager::new(false);
    let (parent, _) = ProgressBar::new(&mut mgr);
    let split = parent.split_summed(&mut mgr);
    let mut children = Vec::new();
    for _ in 0..4 {
        let child = split.take(&mut mgr);
        let child = child.wrap(&mut mgr, Some(100));
        children.push(child);
    }
    for child in &children {
        for _ in 0..50 {
            child.inc(&mut mgr);
        }
    }
    // Halfway: 200 of 400 items are done.
    let halfway = mgr.tick(&flat_anim());
    assert_eq!(halfway.pre_flush, "");
    for mut child in children {
        for _ in 0..50 {
            child.inc(&mut mgr);
        }
        child.finish(&mut mgr, &flat_anim());
    }
    let mut parent_handle = split.bar;
    let out = parent_handle.finish(&mut mgr, &flat_anim());
    let expected = format!(
        "{}{}{}{} 400/400\n",
        LEFT,
        FILLED.repeat(20),
        RESET,
        RIGHT
    );
    assert_eq!(out.pre_flush, expected);
}

#[test]
fn summed_split_midway_counter() {
    let mut mgr = ProgressBarManager::new(true);
    let (parent, _) = ProgressBar::new(&mut mgr);
    let split = parent.split_summed(&mut mgr);
    let mut children = Vec::new();
    for _ in 0..4 {
        let child = split.take(&mut mgr).wrap(&mut mgr, Some(100));
        children.push(child);
    }
    for child in &children {
        for _ in 0..50 {
            child.inc(&mut mgr);
        }
    }
    let out = mgr.tick(&flat_anim());
    assert!(out.pre_flush.contains(" 200/400"));
    for mut child in children {
        child.finish(&mut mgr, &flat_anim());
    }
}

#[test]
fn roots_leave_in_creation_order() {
    let mut mgr = ProgressBarManager::new(false);
    let (first, _) = ProgressBar::new(&mut mgr);
    let (mut second, _) = ProgressBar::new(&mut mgr);
    // The second root is released first, but the first root is still
    // held, so nothing may leave yet.
    second.finish(&mut mgr, &flat_anim());
    assert_eq!(mgr.bars.len(), 2);
    // Releasing the first root frees the whole prefix.
    let mut first = first;
    first.finish(&mut mgr, &flat_anim());
    assert_eq!(mgr.bars.len(), 0);
}

#[test]
fn hidden_bars_never_render() {
    let mut mgr = ProgressBarManager::new(true);
    let mut bar = ProgressBar::hidden(&mut mgr);
    assert_eq!(mgr.hidden.len(), 1);
    assert_eq!(mgr.bars.len(), 0);
    bar.set_length(&mut mgr, 10);
    for _ in 0..10 {
        bar.inc(&mut mgr);
    }
    let out = bar.finish(&mut mgr, &flat_anim());
    assert_eq!(out.pre_flush, "");
    assert_eq!(out.post_flush, "");
    assert_eq!(mgr.hidden.len(), 0);
}

#[test]
fn finish_is_idempotent() {
    let mut mgr = ProgressBarManager::new(false);
    let (mut bar, _) = ProgressBar::new(&mut mgr);
    bar.set_length(&mut mgr, 5);
    bar.finish(&mut mgr, &flat_anim());
    let bars_after_one = mgr.bars.len();
    bar.finish(&mut mgr, &flat_anim());
    assert_eq!(mgr.bars.len(), bars_after_one);
    bar.abandon(&mut mgr, &flat_anim());
    assert_eq!(mgr.bars.len(), bars_after_one);
}

#[test]
fn mutation_after_finish_is_ignored() {
    let mut mgr = ProgressBarManager::new(false);
    let (first, _) = ProgressBar::new(&mut mgr);
    let (mut second, _) = ProgressBar::new(&mut mgr);
    second.set_length(&mut mgr, 10);
    second.finish(&mut mgr, &flat_anim());
    // The ended handle can no longer move its bar.
    second.inc(&mut mgr);
    second.set_position(&mut mgr, 3);
    second.set_length(&mut mgr, 99);
    // The second root is still registered (behind the live first one) and
    // keeps its finished state: its last render shows the full bar.
    let mut first = first;
    let out = first.finish(&mut mgr, &flat_anim());
    assert!(out.pre_flush.contains(" 10/10\n"));
}
