use vstd::prelude::*;
use crate::manager::HandleModel;
use crate::manager::ManagerModel;
use crate::manager::ProgressBarManager;
use crate::manager::RootEntry;
use crate::manager::RootModel;
use crate::manager::spec_apply_handle;
use crate::manager::spec_handle_node;
use crate::manager::spec_tick_animating;
use crate::manager::spec_tick_post;
use crate::manager::spec_tick_pre;
use crate::manager::spec_tick_state;
use crate::manager::lemma_tick_idempotent;
use crate::manager::TickOutput;
use crate::render::BAR_WIDTH;
use crate::render::BRIGHTNESS_STEPS;
use crate::state::BarMutation;
use crate::state::MutationModel;
use crate::state::ProgressBarState;
use crate::state::spec_new_leaf;
use crate::state::spec_apply_local;
use crate::aggregate::spec_agg_complete;
use crate::aggregate::spec_aggregate;
use crate::aggregate::spec_micro;
use crate::message::spec_completed;
use crate::state::SCALE;

verus! {

/// The user-facing owner of one bar. It addresses its node by the root's
/// identifier and the child path below it; once ended it is inactive and
/// every further edit through it does nothing.
pub struct ProgressBar {
    pub root_id: u64,
    pub path: Vec<usize>,
    pub active: bool,
}

/// The manager's state after a new visible root is registered.
pub open spec fn spec_register_root(m: ManagerModel) -> ManagerModel {
    ManagerModel {
        bars: m.bars.push(RootModel { id: m.next_id, node: spec_new_leaf() }),
        thread_started: m.thread_started || m.interactive_output,
        next_id: if m.next_id == u64::MAX {
            u64::MAX
        } else {
            (m.next_id + 1) as u64
        },
        ..m
    }
}

/// The manager's state after a new hidden root is registered.
pub open spec fn spec_register_hidden(m: ManagerModel) -> ManagerModel {
    ManagerModel {
        hidden: m.hidden.push(RootModel { id: m.next_id, node: spec_new_leaf() }),
        next_id: if m.next_id == u64::MAX {
            u64::MAX
        } else {
            (m.next_id + 1) as u64
        },
        ..m
    }
}

/// The message edit a given text causes: an empty text clears the message.
pub open spec fn spec_message_mutation(message: Seq<char>) -> MutationModel {
    if message.len() == 0 {
        MutationModel::ClearMessage
    } else {
        MutationModel::SetMessage(message)
    }
}

impl ProgressBar {
    pub open spec fn model(self) -> HandleModel {
        HandleModel { root_id: self.root_id, path: self.path@, active: self.active }
    }

    /// Creates a new bar and registers it with the manager. Also says
    /// whether the caller must now start the renderer loop: that is so on
    /// a terminal whose loop is not yet running.
    pub fn new(mgr: &mut ProgressBarManager) -> (r: (ProgressBar, bool))
        ensures
            final(mgr).model() == spec_register_root(old(mgr).model()),
            r.0.model() == (HandleModel {
                root_id: old(mgr).model().next_id,
                path: Seq::empty(),
                active: true,
            }),
            r.1 == (old(mgr).model().interactive_output && !old(mgr).model().thread_started),
    {
        let id = mgr.next_id;
        mgr.bars.push(RootEntry { id, node: ProgressBarState::new_leaf() });
        mgr.next_id = if mgr.next_id == u64::MAX {
            u64::MAX
        } else {
            mgr.next_id + 1
        };
        let spawn = mgr.interactive_output && !mgr.thread_started;
        if spawn {
            mgr.thread_started = true;
        }
        proof {
            assert(final(mgr).model() =~~= spec_register_root(old(mgr).model()));
        }
        (ProgressBar { root_id: id, path: Vec::new(), active: true }, spawn)
    }

    /// Creates a new bar that is never rendered.
    pub fn hidden(mgr: &mut ProgressBarManager) -> (r: ProgressBar)
        ensures
            final(mgr).model() == spec_register_hidden(old(mgr).model()),
            r.model() == (HandleModel {
                root_id: old(mgr).model().next_id,
                path: Seq::empty(),
                active: true,
            }),
    {
        let id = mgr.next_id;
        mgr.hidden.push(RootEntry { id, node: ProgressBarState::new_leaf() });
        mgr.next_id = if mgr.next_id == u64::MAX {
            u64::MAX
        } else {
            mgr.next_id + 1
        };
        proof {
            assert(final(mgr).model() =~~= spec_register_hidden(old(mgr).model()));
        }
        ProgressBar { root_id: id, path: Vec::new(), active: true }
    }

    /// True while the handle is active and its node still exists.
    pub fn attached(&self, mgr: &ProgressBarManager) -> (r: bool)
        ensures
            r == (spec_handle_node(mgr.model(), self.model()) is Some),
    {
        match mgr.lookup_handle(self.root_id, &self.path, self.active) {
            Some(_) => true,
            None => false,
        }
    }

    /// The bar's length, if one has been set.
    pub fn length(&self, mgr: &ProgressBarManager) -> (r: Option<u64>)
        requires
            spec_handle_node(mgr.model(), self.model()) is Some,
        ensures
            r == spec_handle_node(mgr.model(), self.model())->0.length,
    {
        match mgr.lookup_handle(self.root_id, &self.path, self.active) {
            Some(node) => node.length,
            None => None,
        }
    }

    /// Sets the bar's length. No effect once the handle has ended.
    pub fn set_length(&self, mgr: &mut ProgressBarManager, len: u64)
        ensures
            final(mgr).model() == spec_apply_handle(
                old(mgr).model(),
                self.model(),
                MutationModel::SetLength(len),
            ),
    {
        mgr.apply_to_handle(self.root_id, &self.path, self.active, BarMutation::SetLength(len));
    }

    /// Sets the length and hands the bar back.
    pub fn with_length(self, mgr: &mut ProgressBarManager, len: u64) -> (r: ProgressBar)
        ensures
            final(mgr).model() == spec_apply_handle(
                old(mgr).model(),
                self.model(),
                MutationModel::SetLength(len),
            ),
            r == self,
    {
        self.set_length(mgr, len);
        self
    }

    /// Sets how many items are done. No effect once the handle has ended.
    pub fn set_position(&self, mgr: &mut ProgressBarManager, pos: u64)
        ensures
            final(mgr).model() == spec_apply_handle(
                old(mgr).model(),
                self.model(),
                MutationModel::SetPosition(pos),
            ),
    {
        mgr.apply_to_handle(self.root_id, &self.path, self.active, BarMutation::SetPosition(pos));
    }

    /// Advances the bar by one item. No effect once the handle has ended.
    pub fn inc(&self, mgr: &mut ProgressBarManager)
        ensures
            final(mgr).model() == spec_apply_handle(
                old(mgr).model(),
                self.model(),
                MutationModel::Inc,
            ),
    {
        mgr.apply_to_handle(self.root_id, &self.path, self.active, BarMutation::Inc);
    }

    /// Sets the message shown next to the bar; an empty text clears it.
    pub fn set_message(&self, mgr: &mut ProgressBarManager, message: String)
        ensures
            final(mgr).model() == spec_apply_handle(
                old(mgr).model(),
                self.model(),
                spec_message_mutation(message@),
            ),
    {
        if message.as_str().is_empty() {
            mgr.apply_to_handle(self.root_id, &self.path, self.active, BarMutation::ClearMessage);
        } else {
            mgr.apply_to_handle(
                self.root_id,
                &self.path,
                self.active,
                BarMutation::SetMessage(message),
            );
        }
    }

    /// Sets the message and hands the bar back.
    pub fn with_message(self, mgr: &mut ProgressBarManager, message: String) -> (r: ProgressBar)
        ensures
            final(mgr).model() == spec_apply_handle(
                old(mgr).model(),
                self.model(),
                spec_message_mutation(message@),
            ),
            r == self,
    {
        self.set_message(mgr, message);
        self
    }

    /// Clears the message.
    pub fn clear_message(&self, mgr: &mut ProgressBarManager)
        ensures
            final(mgr).model() == spec_apply_handle(
                old(mgr).model(),
                self.model(),
                MutationModel::ClearMessage,
            ),
    {
        mgr.apply_to_handle(self.root_id, &self.path, self.active, BarMutation::ClearMessage);
    }

    /// Takes the length an iterator advertises, if any, as the bar's
    /// length, and hands the bar back for wrapping.
    pub fn wrap(self, mgr: &mut ProgressBarManager, size_upper_bound: Option<u64>) -> (r:
        ProgressBar)
        ensures
            final(mgr).model() == (match size_upper_bound {
                Some(ub) => spec_apply_handle(
                    old(mgr).model(),
                    self.model(),
                    MutationModel::SetLength(ub),
                ),
                None => old(mgr).model(),
            }),
            r == self,
    {
        match size_upper_bound {
            Some(ub) => {
                self.set_length(mgr, ub);
            },
            None => {},
        }
        self
    }

    /// Ends the bar as completed: the position snaps to the length when
    /// one is set, the handle's reference is given up, and a render tick
    /// runs at once, so the final state is on screen before this returns.
    pub fn finish(&mut self, mgr: &mut ProgressBarManager, anim: &Vec<u64>) -> (out: TickOutput)
        requires
            anim@.len() >= BAR_WIDTH,
            forall|j: int| 0 <= j < anim@.len() ==> anim@[j] < BRIGHTNESS_STEPS,
        ensures
            final(self).root_id == old(self).root_id,
            final(self).path == old(self).path,
            !final(self).active,
            final(mgr).model() == spec_tick_state(
                spec_apply_handle(old(mgr).model(), old(self).model(), MutationModel::Finish),
            ),
            out.pre_flush@ == spec_tick_pre(
                spec_apply_handle(old(mgr).model(), old(self).model(), MutationModel::Finish),
                anim@,
            ),
            out.post_flush@ == spec_tick_post(
                spec_apply_handle(old(mgr).model(), old(self).model(), MutationModel::Finish),
            ),
            out.is_animating == spec_tick_animating(
                spec_apply_handle(old(mgr).model(), old(self).model(), MutationModel::Finish),
                anim@,
            ),
    {
        mgr.apply_to_handle(self.root_id, &self.path, self.active, BarMutation::Finish);
        self.active = false;
        mgr.tick(anim)
    }

    /// Sets the message, then ends the bar as completed.
    pub fn finish_with_message(
        &mut self,
        mgr: &mut ProgressBarManager,
        message: String,
        anim: &Vec<u64>,
    ) -> (out: TickOutput)
        requires
            anim@.len() >= BAR_WIDTH,
            forall|j: int| 0 <= j < anim@.len() ==> anim@[j] < BRIGHTNESS_STEPS,
        ensures
            final(self).root_id == old(self).root_id,
            final(self).path == old(self).path,
            !final(self).active,
            final(mgr).model() == spec_tick_state(
                spec_apply_handle(
                    spec_apply_handle(
                        old(mgr).model(),
                        old(self).model(),
                        spec_message_mutation(message@),
                    ),
                    old(self).model(),
                    MutationModel::Finish,
                ),
            ),
    {
        self.set_message(mgr, message);
        self.finish(mgr, anim)
    }

    /// Ends the bar as abandoned: what remains of it will never fill, the
    /// handle's reference is given up, and a render tick runs at once.
    pub fn abandon(&mut self, mgr: &mut ProgressBarManager, anim: &Vec<u64>) -> (out: TickOutput)
        requires
            anim@.len() >= BAR_WIDTH,
            forall|j: int| 0 <= j < anim@.len() ==> anim@[j] < BRIGHTNESS_STEPS,
        ensures
            final(self).root_id == old(self).root_id,
            final(self).path == old(self).path,
            !final(self).active,
            final(mgr).model() == spec_tick_state(
                spec_apply_handle(old(mgr).model(), old(self).model(), MutationModel::Abandon),
            ),
            out.pre_flush@ == spec_tick_pre(
                spec_apply_handle(old(mgr).model(), old(self).model(), MutationModel::Abandon),
                anim@,
            ),
            out.post_flush@ == spec_tick_post(
                spec_apply_handle(old(mgr).model(), old(self).model(), MutationModel::Abandon),
            ),
            out.is_animating == spec_tick_animating(
                spec_apply_handle(old(mgr).model(), old(self).model(), MutationModel::Abandon),
                anim@,
            ),
    {
        mgr.apply_to_handle(self.root_id, &self.path, self.active, BarMutation::Abandon);
        self.active = false;
        mgr.tick(anim)
    }
}


/// The whole effect of ending a bar as completed: the node takes the edit
/// when the handle was still active, a tick removes what is now released,
/// and the handle ends.
pub open spec fn spec_finish_step(m: ManagerModel, h: HandleModel) -> (ManagerModel, HandleModel) {
    (
        spec_tick_state(spec_apply_handle(m, h, MutationModel::Finish)),
        HandleModel { active: false, ..h },
    )
}

/// The whole effect of ending a bar as abandoned.
pub open spec fn spec_abandon_step(m: ManagerModel, h: HandleModel) -> (ManagerModel, HandleModel) {
    (
        spec_tick_state(spec_apply_handle(m, h, MutationModel::Abandon)),
        HandleModel { active: false, ..h },
    )
}

/// Law: finishing a bar twice is the same as finishing it once: the
/// second call finds the handle ended and changes nothing.
pub proof fn lemma_finish_idempotent(m: ManagerModel, h: HandleModel)
    ensures
        spec_finish_step(spec_finish_step(m, h).0, spec_finish_step(m, h).1) == spec_finish_step(
            m,
            h,
        ),
{
    let (m1, h1) = spec_finish_step(m, h);
    lemma_tick_idempotent(spec_apply_handle(m, h, MutationModel::Finish));
    assert(HandleModel { active: false, ..h1 } =~= h1);
}

/// Law: abandoning a bar twice is the same as abandoning it once.
pub proof fn lemma_abandon_idempotent(m: ManagerModel, h: HandleModel)
    ensures
        spec_abandon_step(spec_abandon_step(m, h).0, spec_abandon_step(m, h).1)
            == spec_abandon_step(m, h),
{
    let (m1, h1) = spec_abandon_step(m, h);
    lemma_tick_idempotent(spec_apply_handle(m, h, MutationModel::Abandon));
    assert(HandleModel { active: false, ..h1 } =~= h1);
}

/// Law: abandoning a bar that was already finished changes nothing, so
/// the bar stays completed.
pub proof fn lemma_abandon_after_finish(m: ManagerModel, h: HandleModel)
    ensures
        spec_abandon_step(spec_finish_step(m, h).0, spec_finish_step(m, h).1) == spec_finish_step(
            m,
            h,
        ),
{
    lemma_tick_idempotent(spec_apply_handle(m, h, MutationModel::Finish));
    assert(HandleModel { active: false, ..spec_finish_step(m, h).1 } =~= spec_finish_step(m, h).1);
}

/// A node's state after the bar advanced `k` times.
pub open spec fn spec_incs(node: crate::state::BarModel, k: int) -> crate::state::BarModel
    decreases k,
{
    if k <= 0 {
        node
    } else {
        spec_apply_local(spec_incs(node, k - 1), MutationModel::Inc)
    }
}

proof fn lemma_incs(node: crate::state::BarModel, k: int)
    requires
        0 <= k,
        node.position + k <= u64::MAX,
    ensures
        spec_incs(node, k).position == node.position + k,
        spec_incs(node, k).length == node.length,
        spec_incs(node, k).message == node.message,
        spec_incs(node, k).nested == node.nested,
        spec_incs(node, k).lifecycle == node.lifecycle,
        spec_incs(node, k).external_handle == node.external_handle,
    decreases k,
{
    if k > 0 {
        lemma_incs(node, k - 1);
    }
}

/// Law: a fresh bar whose length was set to the number of items an
/// iterator will yield, advanced once per item and then finished, counts
/// every step exactly, ends completed at its full length, and aggregates
/// as fully done.
pub proof fn lemma_wrap_round_trip(n: u64, k: int)
    requires
        0 <= k <= n,
    ensures
        ({
            let node0 = spec_apply_local(spec_new_leaf(), MutationModel::SetLength(n));
            &&& spec_incs(node0, k).position == k
            &&& spec_incs(node0, k).length == Some(n)
            &&& spec_incs(node0, k).lifecycle is InProgress
        }),
        ({
            let node0 = spec_apply_local(spec_new_leaf(), MutationModel::SetLength(n));
            let fin = spec_apply_local(spec_incs(node0, n as int), MutationModel::Finish);
            &&& fin.position == n
            &&& fin.lifecycle is Completed
            &&& spec_completed(fin)
            &&& spec_agg_complete(spec_aggregate(fin))
        }),
{
    let node0 = spec_apply_local(spec_new_leaf(), MutationModel::SetLength(n));
    lemma_incs(node0, k);
    lemma_incs(node0, n as int);
    let fin = spec_apply_local(spec_incs(node0, n as int), MutationModel::Finish);
    if n > 0 {
        vstd::arithmetic::div_mod::lemma_div_by_multiple(SCALE as int, n as int);
        assert(n as int * SCALE == SCALE as int * n as int) by (nonlinear_arith);
        assert(spec_aggregate(fin).progress == SCALE);
    }
}

/// Law: a bar with no length stays indeterminate while it runs, however
/// often it advances; once finished, the position it reached becomes both
/// of its length bounds and it aggregates as fully done.
pub proof fn lemma_indeterminate_until_finished(k: int)
    requires
        0 <= k <= u64::MAX,
    ensures
        ({
            let run = spec_incs(spec_new_leaf(), k);
            &&& run.length is None
            &&& run.position == k
            &&& spec_aggregate(run).upper_len is None
        }),
        ({
            let fin = spec_apply_local(spec_incs(spec_new_leaf(), k), MutationModel::Finish);
            &&& fin.position == k
            &&& fin.length is None
            &&& spec_aggregate(fin).progress == SCALE
            &&& spec_aggregate(fin).lower_len == spec_micro(k)
            &&& spec_aggregate(fin).upper_len == Some(spec_micro(k))
        }),
{
    lemma_incs(spec_new_leaf(), k);
}

} // verus!
