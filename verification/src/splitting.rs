use vstd::prelude::*;
use crate::manager::HandleModel;
use crate::manager::ProgressBarManager;
use crate::manager::ManagerModel;
use crate::manager::spec_apply_handle;
use crate::manager::spec_handle_node;
use crate::progressbar::ProgressBar;
use crate::state::BarModel;
use crate::state::BarMutation;
use crate::state::MutationModel;
use crate::state::ProgressBarState;
use crate::state::SCALE;
use crate::state::SplitKind;
use crate::state::spec_new_leaf;
use crate::aggregate::sat64;

verus! {

/// How many children the node a handle points at currently has.
pub open spec fn spec_child_count(m: ManagerModel, h: HandleModel) -> int {
    match spec_handle_node(m, h) {
        Some(node) => match node.nested {
            Some(nested) => nested.bars.len() as int,
            None => 0,
        },
        None => 0,
    }
}

/// The model of a leaf child created with a preset length.
pub open spec fn spec_sized_leaf(len: u64) -> BarModel {
    BarModel { length: Some(len), ..spec_new_leaf() }
}

/// Reads how many children the parent node has, so a new child's handle
/// knows its position.
fn child_count(mgr: &ProgressBarManager, bar: &ProgressBar) -> (n: usize)
    ensures
        n as int == spec_child_count(mgr.model(), bar.model()),
{
    match mgr.lookup_handle(bar.root_id, &bar.path, bar.active) {
        Some(node) => match &node.nested {
            Some(nested) => nested.bars.len(),
            None => 0,
        },
        None => 0,
    }
}

/// Copies a handle's path with one more step at its end.
fn extended_path(path: &Vec<usize>, step: usize) -> (r: Vec<usize>)
    ensures
        r@ == path@.push(step),
{
    let mut r: Vec<usize> = Vec::new();
    let n = path.len();
    let mut i: usize = 0;
    while i < n
        invariant
            i <= n,
            n == path@.len(),
            r@ == path@.take(i as int),
        decreases n - i,
    {
        r.push(path[i]);
        proof {
            assert(r@ =~= path@.take(i as int + 1));
        }
        i += 1;
    }
    r.push(step);
    proof {
        assert(r@ =~= path@.push(step));
    }
    r
}

impl ProgressBar {
    /// Turns the bar into a weighted composite and hands back the splitter
    /// that vends its children. The handle must not have ended.
    pub fn split_weighted(self, mgr: &mut ProgressBarManager) -> (r: ProgressBarWeightedNester)
        requires
            self.model().active,
        ensures
            final(mgr).model() == spec_apply_handle(
                old(mgr).model(),
                self.model(),
                MutationModel::InstallNested(SplitKind::Weighted),
            ),
            r.bar == self,
            r.taken_fraction == 0,
    {
        mgr.apply_to_handle(
            self.root_id,
            &self.path,
            self.active,
            BarMutation::InstallNested(SplitKind::Weighted),
        );
        ProgressBarWeightedNester { bar: self, taken_fraction: 0 }
    }

    /// Turns the bar into a sized composite and hands back the splitter
    /// that vends its children. The handle must not have ended.
    pub fn split_sized(self, mgr: &mut ProgressBarManager) -> (r: ProgressBarSizedNester)
        requires
            self.model().active,
        ensures
            final(mgr).model() == spec_apply_handle(
                old(mgr).model(),
                self.model(),
                MutationModel::InstallNested(SplitKind::Sized),
            ),
            r.bar == self,
            r.taken_count == 0,
    {
        mgr.apply_to_handle(
            self.root_id,
            &self.path,
            self.active,
            BarMutation::InstallNested(SplitKind::Sized),
        );
        ProgressBarSizedNester { bar: self, taken_count: 0 }
    }

    /// Turns the bar into a summed composite and hands back the splitter
    /// that vends its children. The handle must not have ended.
    pub fn split_summed(self, mgr: &mut ProgressBarManager) -> (r: ProgressBarSummedNester)
        requires
            self.model().active,
        ensures
            final(mgr).model() == spec_apply_handle(
                old(mgr).model(),
                self.model(),
                MutationModel::InstallNested(SplitKind::Summed),
            ),
            r.bar == self,
    {
        mgr.apply_to_handle(
            self.root_id,
            &self.path,
            self.active,
            BarMutation::InstallNested(SplitKind::Summed),
        );
        ProgressBarSummedNester { bar: self }
    }
}

/// Splitter of a weighted composite: each child takes a fraction of the
/// parent, in millionths.
pub struct ProgressBarWeightedNester {
    pub bar: ProgressBar,
    /// Sum of the fractions taken so far, in millionths, saturating.
    pub taken_fraction: u64,
}

impl ProgressBarWeightedNester {
    /// Adds a child bar standing for the given fraction of the parent, in
    /// millionths of the whole. The fraction may be at most one whole;
    /// when the fractions overall exceed one whole they are scaled back
    /// during aggregation.
    pub fn take(&mut self, mgr: &mut ProgressBarManager, fraction: u64) -> (child: ProgressBar)
        requires
            fraction <= SCALE,
        ensures
            final(mgr).model() == spec_apply_handle(
                old(mgr).model(),
                old(self).bar.model(),
                MutationModel::PushChild(spec_new_leaf(), fraction),
            ),
            child.model() == (HandleModel {
                root_id: old(self).bar.root_id,
                path: old(self).bar.path@.push(
                    spec_child_count(old(mgr).model(), old(self).bar.model()) as usize,
                ),
                active: true,
            }),
            final(self).bar == old(self).bar,
            final(self).taken_fraction as int == sat64(
                old(self).taken_fraction as int + fraction as int,
            ),
    {
        let idx = child_count(mgr, &self.bar);
        mgr.apply_to_handle(
            self.bar.root_id,
            &self.bar.path,
            self.bar.active,
            BarMutation::PushChild(ProgressBarState::new_leaf(), fraction),
        );
        self.taken_fraction = if self.taken_fraction > u64::MAX - fraction {
            u64::MAX
        } else {
            self.taken_fraction + fraction
        };
        let path = extended_path(&self.bar.path, idx);
        ProgressBar { root_id: self.bar.root_id, path, active: true }
    }

    /// Adds a child bar standing for whatever fraction of the parent is
    /// still untaken. The parent must not already be used up: a little
    /// rounding slack past one whole is tolerated.
    pub fn remaining(&mut self, mgr: &mut ProgressBarManager) -> (child: ProgressBar)
        requires
            old(self).taken_fraction <= SCALE + SCALE / 100,
        ensures
            final(mgr).model() == spec_apply_handle(
                old(mgr).model(),
                old(self).bar.model(),
                MutationModel::PushChild(
                    spec_new_leaf(),
                    (if old(self).taken_fraction >= SCALE {
                        0u64
                    } else {
                        (SCALE - old(self).taken_fraction) as u64
                    }),
                ),
            ),
            child.model() == (HandleModel {
                root_id: old(self).bar.root_id,
                path: old(self).bar.path@.push(
                    spec_child_count(old(mgr).model(), old(self).bar.model()) as usize,
                ),
                active: true,
            }),
            final(self).bar == old(self).bar,
    {
        let fraction = if self.taken_fraction >= SCALE {
            0
        } else {
            SCALE - self.taken_fraction
        };
        self.take(mgr, fraction)
    }
}

/// Splitter of a sized composite: each child stands for a fixed number of
/// the parent's items.
pub struct ProgressBarSizedNester {
    pub bar: ProgressBar,
    /// Sum of the item counts taken so far, saturating.
    pub taken_count: u64,
}

impl ProgressBarSizedNester {
    /// Adds a child bar standing for `count` items of the parent. The
    /// child starts with its length set to `count`.
    pub fn take(&mut self, mgr: &mut ProgressBarManager, count: u64) -> (child: ProgressBar)
        ensures
            final(mgr).model() == spec_apply_handle(
                old(mgr).model(),
                old(self).bar.model(),
                MutationModel::PushChild(spec_sized_leaf(count), count),
            ),
            child.model() == (HandleModel {
                root_id: old(self).bar.root_id,
                path: old(self).bar.path@.push(
                    spec_child_count(old(mgr).model(), old(self).bar.model()) as usize,
                ),
                active: true,
            }),
            final(self).bar == old(self).bar,
            final(self).taken_count as int == sat64(
                old(self).taken_count as int + count as int,
            ),
    {
        let idx = child_count(mgr, &self.bar);
        let mut node = ProgressBarState::new_leaf();
        node.length = Some(count);
        mgr.apply_to_handle(
            self.bar.root_id,
            &self.bar.path,
            self.bar.active,
            BarMutation::PushChild(node, count),
        );
        self.taken_count = if self.taken_count > u64::MAX - count {
            u64::MAX
        } else {
            self.taken_count + count
        };
        let path = extended_path(&self.bar.path, idx);
        ProgressBar { root_id: self.bar.root_id, path, active: true }
    }

    /// Adds a child bar standing for the parent's items not yet taken.
    /// The parent must have a length, and it must not be used up.
    pub fn remaining(&mut self, mgr: &mut ProgressBarManager) -> (child: ProgressBar)
        requires
            spec_handle_node(old(mgr).model(), old(self).bar.model()) is Some,
            spec_handle_node(old(mgr).model(), old(self).bar.model())->0.length is Some,
            old(self).taken_count <= spec_handle_node(
                old(mgr).model(),
                old(self).bar.model(),
            )->0.length->0,
        ensures
            final(mgr).model() == spec_apply_handle(
                old(mgr).model(),
                old(self).bar.model(),
                MutationModel::PushChild(
                    spec_sized_leaf(
                        (spec_handle_node(old(mgr).model(), old(self).bar.model())->0.length->0
                            - old(self).taken_count) as u64,
                    ),
                    (spec_handle_node(old(mgr).model(), old(self).bar.model())->0.length->0
                        - old(self).taken_count) as u64,
                ),
            ),
            child.model() == (HandleModel {
                root_id: old(self).bar.root_id,
                path: old(self).bar.path@.push(
                    spec_child_count(old(mgr).model(), old(self).bar.model()) as usize,
                ),
                active: true,
            }),
            final(self).bar == old(self).bar,
    {
        let len = match mgr.lookup_handle(self.bar.root_id, &self.bar.path, self.bar.active) {
            Some(node) => match node.length {
                Some(len) => len,
                None => 0,
            },
            None => 0,
        };
        let count = len - self.taken_count;
        self.take(mgr, count)
    }
}

/// Splitter of a summed composite: the parent shows the sum of the
/// children's lengths and progress.
pub struct ProgressBarSummedNester {
    pub bar: ProgressBar,
}

impl ProgressBarSummedNester {
    /// Adds a child bar with no preset length.
    pub fn take(&self, mgr: &mut ProgressBarManager) -> (child: ProgressBar)
        ensures
            final(mgr).model() == spec_apply_handle(
                old(mgr).model(),
                self.bar.model(),
                MutationModel::PushChild(spec_new_leaf(), 0),
            ),
            child.model() == (HandleModel {
                root_id: self.bar.root_id,
                path: self.bar.path@.push(
                    spec_child_count(old(mgr).model(), self.bar.model()) as usize,
                ),
                active: true,
            }),
    {
        let idx = child_count(mgr, &self.bar);
        mgr.apply_to_handle(
            self.bar.root_id,
            &self.bar.path,
            self.bar.active,
            BarMutation::PushChild(ProgressBarState::new_leaf(), 0),
        );
        let path = extended_path(&self.bar.path, idx);
        ProgressBar { root_id: self.bar.root_id, path, active: true }
    }
}

} // verus!
