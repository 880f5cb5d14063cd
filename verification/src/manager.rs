use vstd::prelude::*;
use crate::state::apply_at;
use crate::state::BarModel;
use crate::state::BarMutation;
use crate::state::MutationModel;
use crate::state::node_at;
use crate::state::ProgressBarState;
use crate::state::spec_apply_at;
use crate::state::spec_externally_referenced;
use crate::state::spec_node_at;
use crate::render::push_decimal;
use crate::render::spec_dec_digits;
use crate::render::spec_render_animating;
use crate::render::spec_render_line;
use crate::render::BAR_WIDTH;
use crate::render::BRIGHTNESS_STEPS;
use crate::aggregate::spec_aggregate;

verus! {

/// One top-level bar as the manager holds it: the subtree and a stable
/// identifier that handles use to find it again.
pub struct RootEntry {
    pub id: u64,
    pub node: ProgressBarState,
}

/// Mathematical model of a registered root.
#[verifier::ext_equal]
pub struct RootModel {
    pub id: u64,
    pub node: BarModel,
}

impl RootEntry {
    pub open spec fn model(self) -> RootModel {
        RootModel { id: self.id, node: self.node.model() }
    }
}

/// The models of a sequence of roots, in order.
pub open spec fn root_models_of(roots: Seq<RootEntry>) -> Seq<RootModel> {
    Seq::new(roots.len(), |i: int| roots[i].model())
}

/// The process-wide registry of bars: the visible roots in creation order,
/// the hidden ones, and the renderer bookkeeping.
pub struct ProgressBarManager {
    /// All currently visible bars.
    pub bars: Vec<RootEntry>,
    /// Bars created hidden: kept for their handles, never rendered.
    pub hidden: Vec<RootEntry>,
    /// True while the renderer loop is running.
    pub thread_started: bool,
    /// True if the output is a terminal.
    pub interactive_output: bool,
    /// The identifier the next created root will get.
    pub next_id: u64,
}

/// Mathematical model of the manager.
#[verifier::ext_equal]
pub struct ManagerModel {
    pub bars: Seq<RootModel>,
    pub hidden: Seq<RootModel>,
    pub thread_started: bool,
    pub interactive_output: bool,
    pub next_id: u64,
}

impl ProgressBarManager {
    pub open spec fn model(self) -> ManagerModel {
        ManagerModel {
            bars: root_models_of(self.bars@),
            hidden: root_models_of(self.hidden@),
            thread_started: self.thread_started,
            interactive_output: self.interactive_output,
            next_id: self.next_id,
        }
    }

    /// A fresh manager with no bars and no renderer running.
    pub fn new(interactive: bool) -> (r: ProgressBarManager)
        ensures
            r.model() == spec_empty_manager(interactive),
    {
        let r = ProgressBarManager {
            bars: Vec::new(),
            hidden: Vec::new(),
            thread_started: false,
            interactive_output: interactive,
            next_id: 0,
        };
        proof {
            assert(r.model() =~~= spec_empty_manager(interactive));
        }
        r
    }
}

/// The model of a fresh manager.
pub open spec fn spec_empty_manager(interactive: bool) -> ManagerModel {
    ManagerModel {
        bars: Seq::empty(),
        hidden: Seq::empty(),
        thread_started: false,
        interactive_output: interactive,
        next_id: 0,
    }
}

/// The first position holding the given root identifier, if any.
pub open spec fn spec_find_root(roots: Seq<RootModel>, id: u64) -> Option<int>
    decreases roots.len(),
{
    if roots.len() == 0 {
        None
    } else if roots[0].id == id {
        Some(0int)
    } else {
        match spec_find_root(roots.drop_first(), id) {
            Some(j) => Some(j + 1),
            None => None,
        }
    }
}

/// Where a handle points: the identifier of its root and the child path
/// below it. An ended handle is inactive and reaches nothing.
#[verifier::ext_equal]
pub struct HandleModel {
    pub root_id: u64,
    pub path: Seq<usize>,
    pub active: bool,
}

/// The node a handle points at, looked up first among the visible roots
/// and then among the hidden ones.
pub open spec fn spec_handle_node(m: ManagerModel, h: HandleModel) -> Option<BarModel> {
    if !h.active {
        None
    } else {
        match spec_find_root(m.bars, h.root_id) {
            Some(j) => spec_node_at(m.bars[j].node, h.path, 0),
            None => match spec_find_root(m.hidden, h.root_id) {
                Some(j) => spec_node_at(m.hidden[j].node, h.path, 0),
                None => None,
            },
        }
    }
}

/// One edit sent through a handle: applied to the handle's node when the
/// handle is active and its root exists, and otherwise no change.
pub open spec fn spec_apply_handle(
    m: ManagerModel,
    h: HandleModel,
    mutation: MutationModel,
) -> ManagerModel {
    if !h.active {
        m
    } else {
        match spec_find_root(m.bars, h.root_id) {
            Some(j) => ManagerModel {
                bars: m.bars.update(
                    j,
                    RootModel {
                        id: m.bars[j].id,
                        node: spec_apply_at(m.bars[j].node, h.path, 0, mutation),
                    },
                ),
                ..m
            },
            None => match spec_find_root(m.hidden, h.root_id) {
                Some(j) => ManagerModel {
                    hidden: m.hidden.update(
                        j,
                        RootModel {
                            id: m.hidden[j].id,
                            node: spec_apply_at(m.hidden[j].node, h.path, 0, mutation),
                        },
                    ),
                    ..m
                },
                None => m,
            },
        }
    }
}

/// The found position is the first one holding the identifier.
pub proof fn lemma_find_root_characterization(roots: Seq<RootModel>, id: u64)
    ensures
        match spec_find_root(roots, id) {
            Some(j) => 0 <= j < roots.len() && roots[j].id == id && (forall|k: int|
                0 <= k < j ==> roots[k].id != id),
            None => forall|k: int| 0 <= k < roots.len() ==> roots[k].id != id,
        },
    decreases roots.len(),
{
    if roots.len() > 0 && roots[0].id != id {
        let rest = roots.drop_first();
        lemma_find_root_characterization(rest, id);
        assert(forall|k: int| 0 <= k < rest.len() ==> rest[k] == roots[k + 1]);
        match spec_find_root(rest, id) {
            Some(j) => {
                assert(roots[j + 1].id == id);
                assert forall|k: int| 0 <= k < j + 1 implies roots[k].id != id by {
                    if k > 0 {
                        assert(roots[k] == rest[k - 1]);
                    }
                }
            },
            None => {
                assert forall|k: int| 0 <= k < roots.len() implies roots[k].id != id by {
                    if k > 0 {
                        assert(roots[k] == rest[k - 1]);
                    }
                }
            },
        }
    }
}

/// Finds the position of a root by identifier.
fn find_root(roots: &Vec<RootEntry>, id: u64) -> (r: Option<usize>)
    ensures
        match r {
            Some(j) => spec_find_root(root_models_of(roots@), id) == Some(j as int) && j
                < roots@.len(),
            None => spec_find_root(root_models_of(roots@), id) is None,
        },
{
    proof {
        lemma_find_root_characterization(root_models_of(roots@), id);
    }
    let n = roots.len();
    let mut i: usize = 0;
    while i < n
        invariant
            i <= n,
            n == roots@.len(),
            forall|k: int| 0 <= k < i ==> root_models_of(roots@)[k].id != id,
        decreases n - i,
    {
        if roots[i].id == id {
            proof {
                lemma_find_root_characterization(root_models_of(roots@), id);
                assert(root_models_of(roots@)[i as int].id == id);
            }
            return Some(i);
        }
        proof {
            assert(root_models_of(roots@)[i as int].id == roots@[i as int].id);
        }
        i += 1;
    }
    proof {
        lemma_find_root_characterization(root_models_of(roots@), id);
    }
    None
}

impl ProgressBarManager {
    /// Sends one edit through a handle: the node the handle points at is
    /// edited in place; an ended handle, or one whose root is gone, edits
    /// nothing.
    pub fn apply_to_handle(&mut self, root_id: u64, path: &Vec<usize>, active: bool, m: BarMutation)
        ensures
            final(self).model() == spec_apply_handle(
                old(self).model(),
                HandleModel { root_id, path: path@, active },
                m.model(),
            ),
    {
        if !active {
            return;
        }
        match find_root(&self.bars, root_id) {
            Some(j) => {
                let entry = &mut self.bars[j];
                apply_at(&mut entry.node, path, 0, m);
                proof {
                    assert(final(self).model().bars =~~= spec_apply_handle(
                        old(self).model(),
                        HandleModel { root_id, path: path@, active },
                        m.model(),
                    ).bars);
                    assert(final(self).model() =~~= spec_apply_handle(
                        old(self).model(),
                        HandleModel { root_id, path: path@, active },
                        m.model(),
                    ));
                }
            },
            None => {
                match find_root(&self.hidden, root_id) {
                    Some(j) => {
                        let entry = &mut self.hidden[j];
                        apply_at(&mut entry.node, path, 0, m);
                        proof {
                            assert(final(self).model().hidden =~~= spec_apply_handle(
                                old(self).model(),
                                HandleModel { root_id, path: path@, active },
                                m.model(),
                            ).hidden);
                            assert(final(self).model() =~~= spec_apply_handle(
                                old(self).model(),
                                HandleModel { root_id, path: path@, active },
                                m.model(),
                            ));
                        }
                    },
                    None => {},
                }
            },
        }
    }

    /// Reads the node a handle points at, if the handle is active and its
    /// root still exists.
    pub fn lookup_handle(&self, root_id: u64, path: &Vec<usize>, active: bool) -> (r: Option<
        &ProgressBarState,
    >)
        ensures
            match r {
                Some(node) => spec_handle_node(
                    self.model(),
                    HandleModel { root_id, path: path@, active },
                ) == Some(node.model()),
                None => spec_handle_node(
                    self.model(),
                    HandleModel { root_id, path: path@, active },
                ) is None,
            },
    {
        if !active {
            return None;
        }
        match find_root(&self.bars, root_id) {
            Some(j) => node_at(&self.bars[j].node, path, 0),
            None => match find_root(&self.hidden, root_id) {
                Some(j) => node_at(&self.hidden[j].node, path, 0),
                None => None,
            },
        }
    }
}


/// How many roots at the front of the list are free to go: every node of
/// their subtrees has been released by its handle.
pub open spec fn spec_removable_prefix(bars: Seq<RootModel>) -> int
    decreases bars.len(),
{
    if bars.len() == 0 || spec_externally_referenced(bars[0].node) {
        0
    } else {
        1 + spec_removable_prefix(bars.drop_first())
    }
}

/// The removable prefix is the longest prefix of released roots.
pub proof fn lemma_removable_prefix_characterization(bars: Seq<RootModel>)
    ensures
        0 <= spec_removable_prefix(bars) <= bars.len(),
        forall|j: int|
            0 <= j < spec_removable_prefix(bars) ==> !spec_externally_referenced(
                #[trigger] bars[j].node,
            ),
        spec_removable_prefix(bars) < bars.len() ==> spec_externally_referenced(
            bars[spec_removable_prefix(bars)].node,
        ),
    decreases bars.len(),
{
    if bars.len() > 0 && !spec_externally_referenced(bars[0].node) {
        let rest = bars.drop_first();
        lemma_removable_prefix_characterization(rest);
        assert(forall|k: int| 0 <= k < rest.len() ==> rest[k] == bars[k + 1]);
        let p = spec_removable_prefix(bars);
        assert forall|j: int| 0 <= j < p implies !spec_externally_referenced(
            #[trigger] bars[j].node,
        ) by {
            if j > 0 {
                assert(bars[j] == rest[j - 1]);
            }
        }
    }
}

/// The hidden roots that are still referenced, in order.
pub open spec fn spec_retained(hidden: Seq<RootModel>, n: int) -> Seq<RootModel>
    decreases n,
{
    if n <= 0 || n > hidden.len() {
        Seq::empty()
    } else {
        spec_retained(hidden, n - 1) + (if spec_externally_referenced(hidden[n - 1].node) {
            seq![hidden[n - 1]]
        } else {
            Seq::empty()
        })
    }
}

/// The manager's state after one tick: the released prefix of the visible
/// roots is gone, and so is every hidden root that was released.
pub open spec fn spec_tick_state(m: ManagerModel) -> ManagerModel {
    ManagerModel {
        bars: m.bars.skip(spec_removable_prefix(m.bars)),
        hidden: spec_retained(m.hidden, m.hidden.len() as int),
        ..m
    }
}

/// The rendered lines of the roots with positions `from` up to `to`, each
/// closed by a newline.
pub open spec fn spec_root_lines(
    bars: Seq<RootModel>,
    from: int,
    to: int,
    color: bool,
    anim: Seq<u64>,
) -> Seq<char>
    decreases to - from,
{
    if from >= to || from < 0 || to > bars.len() {
        Seq::empty()
    } else {
        spec_render_line(bars[from].node, color, anim) + "\n"@ + spec_root_lines(
            bars,
            from + 1,
            to,
            color,
            anim,
        )
    }
}

/// Whether any of the roots with positions `from` up to `to` renders an
/// animated region.
pub open spec fn spec_roots_animating(bars: Seq<RootModel>, from: int, to: int) -> bool {
    exists|j: int|
        from <= j < to && j < bars.len() && spec_render_animating(
            spec_aggregate(#[trigger] bars[j].node),
        )
}

/// What one tick writes before the flush: the last lines of the roots
/// being removed, then, on a terminal, the lines of the live roots and the
/// cursor-up escape that puts the cursor back above them.
pub open spec fn spec_tick_pre(m: ManagerModel, anim: Seq<u64>) -> Seq<char> {
    let k = spec_removable_prefix(m.bars);
    let n = m.bars.len() as int;
    let removed = spec_root_lines(m.bars, 0, k, m.interactive_output, anim);
    if !m.interactive_output {
        removed
    } else {
        removed + spec_root_lines(m.bars, k, n, true, anim) + (if n - k > 0 {
            "\u{1b}["@ + spec_dec_digits(n - k) + "F"@
        } else {
            Seq::empty()
        })
    }
}

/// What one tick writes after the flush: the clear-to-end escape, so that
/// a foreign write first wipes the bar block. Nothing on a non-terminal,
/// and nothing when no live bars remain.
pub open spec fn spec_tick_post(m: ManagerModel) -> Seq<char> {
    let k = spec_removable_prefix(m.bars);
    let n = m.bars.len() as int;
    if m.interactive_output && n - k > 0 {
        "\u{1b}[0J"@
    } else {
        Seq::empty()
    }
}

/// Whether the bars a tick rendered leave an animation on screen.
pub open spec fn spec_tick_animating(m: ManagerModel, anim: Seq<u64>) -> bool {
    let k = spec_removable_prefix(m.bars);
    let n = m.bars.len() as int;
    if m.interactive_output {
        spec_roots_animating(m.bars, 0, n)
    } else {
        spec_roots_animating(m.bars, 0, k)
    }
}

/// What one tick hands back to be written to the terminal.
pub struct TickOutput {
    /// Written first, then flushed.
    pub pre_flush: String,
    /// Written after the flush and left unflushed.
    pub post_flush: String,
    /// True if an animated region is on screen.
    pub is_animating: bool,
}

proof fn lemma_root_lines_snoc(bars: Seq<RootModel>, from: int, i: int, color: bool, anim: Seq<u64>)
    requires
        0 <= from <= i < bars.len(),
    ensures
        spec_root_lines(bars, from, i + 1, color, anim) == spec_root_lines(
            bars,
            from,
            i,
            color,
            anim,
        ) + (spec_render_line(bars[i].node, color, anim) + "\n"@),
    decreases i - from,
{
    if from < i {
        lemma_root_lines_snoc(bars, from + 1, i, color, anim);
        assert(spec_root_lines(bars, from, i + 1, color, anim) =~= spec_root_lines(
            bars,
            from,
            i,
            color,
            anim,
        ) + (spec_render_line(bars[i].node, color, anim) + "\n"@));
    } else {
        assert(spec_root_lines(bars, i + 1, i + 1, color, anim) =~= Seq::<char>::empty());
        assert(spec_root_lines(bars, i, i, color, anim) =~= Seq::<char>::empty());
        assert(spec_root_lines(bars, from, i + 1, color, anim) =~= spec_root_lines(
            bars,
            from,
            i,
            color,
            anim,
        ) + (spec_render_line(bars[i].node, color, anim) + "\n"@));
    }
}


/// How many leading roots of the list are released.
fn removable_prefix(bars: &Vec<RootEntry>) -> (k: usize)
    ensures
        k as int == spec_removable_prefix(root_models_of(bars@)),
        k <= bars@.len(),
{
    proof {
        lemma_removable_prefix_characterization(root_models_of(bars@));
    }
    let n = bars.len();
    let mut k: usize = 0;
    while k < n
        invariant
            k <= n,
            n == bars@.len(),
            forall|j: int|
                0 <= j < k ==> !spec_externally_referenced(
                    #[trigger] root_models_of(bars@)[j].node,
                ),
        decreases n - k,
    {
        if bars[k].node.externally_referenced() {
            proof {
                lemma_removable_prefix_characterization(root_models_of(bars@));
                lemma_prefix_pinned(root_models_of(bars@), k as int);
            }
            return k;
        }
        k += 1;
    }
    proof {
        lemma_removable_prefix_characterization(root_models_of(bars@));
        lemma_prefix_pinned(root_models_of(bars@), n as int);
    }
    n
}

/// If the first `k` roots are released, and either `k` is the whole list
/// or root `k` is referenced, then `k` is the removable prefix.
proof fn lemma_prefix_pinned(bars: Seq<RootModel>, k: int)
    requires
        0 <= k <= bars.len(),
        forall|j: int| 0 <= j < k ==> !spec_externally_referenced(#[trigger] bars[j].node),
        k < bars.len() ==> spec_externally_referenced(bars[k].node),
    ensures
        spec_removable_prefix(bars) == k,
{
    lemma_removable_prefix_characterization(bars);
    let p = spec_removable_prefix(bars);
    if p < k {
        assert(!spec_externally_referenced(bars[p].node));
        assert(p < bars.len());
        assert(spec_externally_referenced(bars[p].node));
    }
    if k < p {
        assert(!spec_externally_referenced(bars[k].node));
    }
}


impl ProgressBarManager {
    /// One render tick. Scans the visible roots from the front: every
    /// leading root whose subtree has been fully released is rendered one
    /// last time and removed; released hidden roots are dropped; then, on
    /// a terminal, the remaining roots are rendered and the cursor is set
    /// up so foreign output interleaves cleanly. Returns the text to
    /// write.
    #[verifier::rlimit(60)]
    #[verifier::spinoff_prover]
    pub fn tick(&mut self, anim: &Vec<u64>) -> (out: TickOutput)
        requires
            anim@.len() >= BAR_WIDTH,
            forall|j: int| 0 <= j < anim@.len() ==> anim@[j] < BRIGHTNESS_STEPS,
        ensures
            final(self).model() == spec_tick_state(old(self).model()),
            out.pre_flush@ == spec_tick_pre(old(self).model(), anim@),
            out.post_flush@ == spec_tick_post(old(self).model()),
            out.is_animating == spec_tick_animating(old(self).model(), anim@),
    {
        let ghost m0 = old(self).model();
        let color = self.interactive_output;
        let mut temp = String::new();
        let mut animating = false;
        let n = self.bars.len();
        let k = removable_prefix(&self.bars);
        let mut i: usize = 0;
        while i < k
            invariant
                i <= k,
                k <= n,
                n == self.bars@.len(),
                *self == *old(self),
                color == m0.interactive_output,
                m0 == old(self).model(),
                anim@.len() >= BAR_WIDTH,
                forall|j: int| 0 <= j < anim@.len() ==> anim@[j] < BRIGHTNESS_STEPS,
                temp@ == spec_root_lines(m0.bars, 0, i as int, color, anim@),
                animating == spec_roots_animating(m0.bars, 0, i as int),
            decreases k - i,
        {
            let entry = &self.bars[i];
            entry.node.render(&mut temp, color, anim, &mut animating);
            temp.append("\n");
            proof {
                assert(entry.node.model() == m0.bars[i as int].node);
                lemma_root_lines_snoc(m0.bars, 0, i as int, color, anim@);
                assert(spec_roots_animating(m0.bars, 0, i as int + 1) == (spec_roots_animating(
                    m0.bars,
                    0,
                    i as int,
                ) || spec_render_animating(spec_aggregate(m0.bars[i as int].node))));
            }
            i += 1;
        }
        let mut d: usize = 0;
        while d < k
            invariant
                d <= k,
                k <= n,
                n == old(self).bars@.len(),
                self.bars@ == old(self).bars@.skip(d as int),
                self.hidden@ == old(self).hidden@,
                self.thread_started == old(self).thread_started,
                self.interactive_output == old(self).interactive_output,
                self.next_id == old(self).next_id,
            decreases k - d,
        {
            self.bars.remove(0);
            proof {
                assert(old(self).bars@.skip(d as int).remove(0) =~= old(self).bars@.skip(
                    d as int + 1,
                ));
            }
            d += 1;
        }
        let mut pending: Vec<RootEntry> = Vec::new();
        core::mem::swap(&mut pending, &mut self.hidden);
        let ghost h0 = old(self).hidden@;
        let hn = pending.len();
        let mut j: usize = 0;
        while j < hn
            invariant
                j <= hn,
                hn == h0.len(),
                pending@ == h0.skip(j as int),
                self.bars@ == old(self).bars@.skip(k as int),
                root_models_of(self.hidden@) == spec_retained(root_models_of(h0), j as int),
                self.thread_started == old(self).thread_started,
                self.interactive_output == old(self).interactive_output,
                self.next_id == old(self).next_id,
            decreases hn - j,
        {
            let e = pending.remove(0);
            proof {
                assert(e == h0[j as int]);
                assert(h0.skip(j as int).remove(0) =~= h0.skip(j as int + 1));
            }
            if e.node.externally_referenced() {
                self.hidden.push(e);
                proof {
                    assert(root_models_of(self.hidden@) =~= spec_retained(
                        root_models_of(h0),
                        j as int + 1,
                    ));
                }
            } else {
                proof {
                    assert(root_models_of(self.hidden@) =~= spec_retained(
                        root_models_of(h0),
                        j as int + 1,
                    ));
                }
            }
            j += 1;
        }
        if !color {
            proof {
                assert(final(self).model() =~~= spec_tick_state(m0));
                assert(spec_roots_animating(m0.bars, 0, k as int) == spec_tick_animating(
                    m0,
                    anim@,
                ));
            }
            return TickOutput {
                pre_flush: temp,
                post_flush: String::new(),
                is_animating: animating,
            };
        }
        let live = self.bars.len();
        let mut i2: usize = 0;
        while i2 < live
            invariant
                i2 <= live,
                live == self.bars@.len(),
                live as int == m0.bars.len() - k,
                k as int == spec_removable_prefix(m0.bars),
                k <= m0.bars.len(),
                self.bars@ == old(self).bars@.skip(k as int),
                root_models_of(self.hidden@) == spec_retained(
                    root_models_of(h0),
                    h0.len() as int,
                ),
                self.thread_started == old(self).thread_started,
                self.interactive_output == old(self).interactive_output,
                self.next_id == old(self).next_id,
                m0 == old(self).model(),
                color,
                color == m0.interactive_output,
                anim@.len() >= BAR_WIDTH,
                forall|jj: int| 0 <= jj < anim@.len() ==> anim@[jj] < BRIGHTNESS_STEPS,
                temp@ == spec_root_lines(m0.bars, 0, k as int, color, anim@) + spec_root_lines(
                    m0.bars,
                    k as int,
                    k as int + i2 as int,
                    true,
                    anim@,
                ),
                animating == (spec_roots_animating(m0.bars, 0, k as int) || spec_roots_animating(
                    m0.bars,
                    k as int,
                    k as int + i2 as int,
                )),
            decreases live - i2,
        {
            let entry = &self.bars[i2];
            proof {
                assert(entry.node.model() == m0.bars[k as int + i2 as int].node);
            }
            entry.node.render(&mut temp, color, anim, &mut animating);
            temp.append("\n");
            proof {
                lemma_root_lines_snoc(m0.bars, k as int, k as int + i2 as int, true, anim@);
                assert(spec_roots_animating(m0.bars, k as int, k as int + i2 as int + 1) == (
                spec_roots_animating(m0.bars, k as int, k as int + i2 as int)
                    || spec_render_animating(
                    spec_aggregate(m0.bars[k as int + i2 as int].node),
                )));
            }
            i2 += 1;
        }
        let mut post = String::new();
        if live > 0 {
            temp.append("\u{1b}[");
            push_decimal(&mut temp, live as u64);
            temp.append("F");
            post.append("\u{1b}[0J");
        }
        proof {
            assert(final(self).model() =~~= spec_tick_state(m0));
            assert(temp@ =~= spec_tick_pre(m0, anim@));
            assert((spec_roots_animating(m0.bars, 0, k as int) || spec_roots_animating(
                m0.bars,
                k as int,
                m0.bars.len() as int,
            )) == spec_roots_animating(m0.bars, 0, m0.bars.len() as int));
        }
        TickOutput { pre_flush: temp, post_flush: post, is_animating: animating }
    }
}


/// One step of the change-detection hash: fold a word into the state.
pub open spec fn spec_mix(h: u64, v: u64) -> u64 {
    (((h ^ v) as nat * 0x100000001b3nat) % 0x1_0000_0000_0000_0000nat) as u64
}

/// One step of the change-detection hash.
fn mix(h: u64, v: u64) -> (r: u64)
    ensures
        r == spec_mix(h, v),
{
    (h ^ v).wrapping_mul(0x100000001b3)
}

/// The hash of a message's characters, folded over the first `n`.
pub open spec fn spec_hash_chars(s: Seq<char>, n: int, h: u64) -> u64
    decreases n,
{
    if n <= 0 || n > s.len() {
        h
    } else {
        spec_mix(spec_hash_chars(s, n - 1, h), s[n - 1] as u64)
    }
}

/// The hash of a node's reportable state: length, position and message,
/// then every child in order. The lifecycle is not part of it, as in the
/// displayed state it only shows through position and length.
pub open spec fn spec_hash_node(node: BarModel, h: u64) -> u64
    decreases node,
{
    let h1 = match node.length {
        None => spec_mix(h, 1),
        Some(len) => spec_mix(spec_mix(h, 2), len),
    };
    let h2 = spec_mix(h1, node.position);
    let h3 = match node.message {
        None => spec_mix(h2, 3),
        Some(m) => spec_hash_chars(m, m.len() as int, spec_mix(h2, 4)),
    };
    match node.nested {
        None => h3,
        Some(nested) => spec_hash_children(nested.bars, nested.bars.len() as int, h3),
    }
}

/// The hash of the first `n` subtrees, folded left to right.
pub open spec fn spec_hash_children(bars: Seq<BarModel>, n: int, h: u64) -> u64
    decreases bars, n,
{
    if n <= 0 || n > bars.len() {
        h
    } else {
        spec_hash_node(bars[n - 1], spec_hash_children(bars, n - 1, h))
    }
}

/// The hash of the whole reportable display state: the number of visible
/// roots, then each root's subtree.
pub open spec fn spec_hash_state(m: ManagerModel) -> u64 {
    spec_hash_children(
        Seq::new(m.bars.len(), |i: int| m.bars[i].node),
        m.bars.len() as int,
        spec_mix(0xcbf29ce484222325, m.bars.len() as u64),
    )
}

impl ProgressBarState {
    /// Folds this subtree's reportable state into a hash.
    pub fn hash_state(&self, h: u64) -> (r: u64)
        ensures
            r == spec_hash_node(self.model(), h),
        decreases *self,
    {
        let h1 = match self.length {
            None => mix(h, 1),
            Some(len) => mix(mix(h, 2), len),
        };
        let h2 = mix(h1, self.position);
        let h3 = match &self.message {
            None => mix(h2, 3),
            Some(m) => {
                let st = m.as_str();
                let len = st.unicode_len();
                let mut hh = mix(h2, 4);
                let mut ci: usize = 0;
                while ci < len
                    invariant
                        ci <= len,
                        len == st@.len(),
                        st@ == self.model().message->0,
                        hh == spec_hash_chars(self.model().message->0, ci as int, spec_mix(
                            spec_hash_node_h2(self.model(), h),
                            4,
                        )),
                        spec_mix(spec_hash_node_h2(self.model(), h), 4) == spec_mix(h2, 4),
                    decreases len - ci,
                {
                    hh = mix(hh, st.get_char(ci) as u64);
                    ci += 1;
                }
                hh
            },
        };
        match &self.nested {
            None => h3,
            Some(nested) => {
                let n = nested.bars.len();
                let mut hh = h3;
                let mut i: usize = 0;
                while i < n
                    invariant
                        i <= n,
                        *nested == self.nested->0,
                        self.nested is Some,
                        n == nested.bars@.len(),
                        self.model().nested is Some,
                        self.model().nested->0.bars.len() == n,
                        hh == spec_hash_children(self.model().nested->0.bars, i as int, h3),
                    decreases n - i,
                {
                    let child = &nested.bars[i];
                    proof {
                        assert(decreases_to!(*self => self.nested));
                        assert(decreases_to!(self.nested => self.nested->0));
                        assert(decreases_to!(self.nested->0 => self.nested->0.bars));
                        assert(decreases_to!(self.nested->0.bars => self.nested->0.bars@));
                        assert(decreases_to!(
                            self.nested->0.bars@ => self.nested->0.bars@[i as int]
                        ));
                        assert(*child == self.nested->0.bars@[i as int]);
                    }
                    hh = child.hash_state(hh);
                    i += 1;
                }
                hh
            },
        }
    }
}

/// The hash state after length and position are folded in, named so loop
/// invariants can speak of it.
pub open spec fn spec_hash_node_h2(node: BarModel, h: u64) -> u64 {
    let h1 = match node.length {
        None => spec_mix(h, 1),
        Some(len) => spec_mix(spec_mix(h, 2), len),
    };
    spec_mix(h1, node.position)
}

impl ProgressBarManager {
    /// The hash of everything the display depends on. The renderer loop
    /// redraws early when it changes.
    pub fn hash_state(&self) -> (r: u64)
        ensures
            r == spec_hash_state(self.model()),
    {
        let n = self.bars.len();
        let mut h = mix(0xcbf29ce484222325, n as u64);
        let mut i: usize = 0;
        while i < n
            invariant
                i <= n,
                n == self.bars@.len(),
                h == spec_hash_children(
                    Seq::new(self.model().bars.len(), |j: int| self.model().bars[j].node),
                    i as int,
                    spec_mix(0xcbf29ce484222325, n as u64),
                ),
            decreases n - i,
        {
            let entry = &self.bars[i];
            proof {
                assert(Seq::new(self.model().bars.len(), |j: int| self.model().bars[j].node)[
                    i as int] == entry.node.model());
            }
            h = entry.node.hash_state(h);
            i += 1;
        }
        h
    }

    /// When the renderer loop wakes and finds no bars left, it notes that
    /// it is stopping and the caller ends the loop.
    pub fn renderer_idle_check(&mut self) -> (stop: bool)
        ensures
            stop == (old(self).model().bars.len() == 0),
            stop ==> final(self).model() == (ManagerModel {
                thread_started: false,
                ..old(self).model()
            }),
            !stop ==> *final(self) == *old(self),
    {
        if self.bars.is_empty() {
            self.thread_started = false;
            proof {
                assert(final(self).model() =~~= (ManagerModel {
                    thread_started: false,
                    ..old(self).model()
                }));
            }
            true
        } else {
            false
        }
    }
}

/// How long a redraw may wait, in milliseconds: short while something is
/// animating, long otherwise.
pub open spec fn spec_update_period(is_animating: bool) -> int {
    if is_animating {
        33
    } else {
        200
    }
}

/// Whether the renderer loop should redraw now: the reportable state
/// changed, or the update period has passed since the last redraw.
pub fn should_tick(hash_changed: bool, elapsed_ms: u64, is_animating: bool) -> (r: bool)
    ensures
        r == (hash_changed || elapsed_ms > spec_update_period(is_animating)),
{
    let period: u64 = if is_animating {
        33
    } else {
        200
    };
    hash_changed || elapsed_ms > period
}


proof fn lemma_retained_elements(hidden: Seq<RootModel>, n: int)
    ensures
        forall|j: int|
            0 <= j < spec_retained(hidden, n).len() ==> spec_externally_referenced(
                #[trigger] spec_retained(hidden, n)[j].node,
            ),
    decreases n,
{
    if n > 0 && n <= hidden.len() {
        lemma_retained_elements(hidden, n - 1);
        let prev = spec_retained(hidden, n - 1);
        let cur = spec_retained(hidden, n);
        assert forall|j: int| 0 <= j < cur.len() implies spec_externally_referenced(
            #[trigger] cur[j].node,
        ) by {
            if j < prev.len() {
                assert(cur[j] == prev[j]);
            }
        }
    }
}

proof fn lemma_retained_of_referenced(hidden: Seq<RootModel>, n: int)
    requires
        n <= hidden.len(),
        forall|j: int|
            0 <= j < n ==> spec_externally_referenced(#[trigger] hidden[j].node),
    ensures
        spec_retained(hidden, n) == (if n <= 0 {
            Seq::<RootModel>::empty()
        } else {
            hidden.take(n)
        }),
    decreases n,
{
    if n > 0 {
        lemma_retained_of_referenced(hidden, n - 1);
        assert(spec_retained(hidden, n) =~= hidden.take(n));
    }
}

/// A second tick right after a first one changes nothing: the remaining
/// front root, if any, is still referenced, and the hidden list already
/// holds only referenced roots.
pub proof fn lemma_tick_idempotent(m: ManagerModel)
    ensures
        spec_tick_state(spec_tick_state(m)) == spec_tick_state(m),
{
    let m1 = spec_tick_state(m);
    let k = spec_removable_prefix(m.bars);
    lemma_removable_prefix_characterization(m.bars);
    if m1.bars.len() > 0 {
        assert(m1.bars[0] == m.bars[k]);
        assert(spec_removable_prefix(m1.bars) == 0);
    }
    assert(m1.bars.skip(spec_removable_prefix(m1.bars)) =~= m1.bars);
    let h1 = m1.hidden;
    lemma_retained_elements(m.hidden, m.hidden.len() as int);
    lemma_retained_of_referenced(h1, h1.len() as int);
    if h1.len() > 0 {
        assert(h1.take(h1.len() as int) =~= h1);
    } else {
        assert(spec_retained(h1, h1.len() as int) =~= h1);
    }
    assert(spec_tick_state(m1) =~~= m1);
}

/// Law: one tick removes exactly the released front prefix of the visible
/// roots: every removed root was fully released, the first surviving root
/// (if the list is not emptied) is still referenced, and the survivors
/// keep their order.
pub proof fn lemma_tick_removes_exactly(m: ManagerModel)
    ensures
        spec_tick_state(m).bars == m.bars.skip(spec_removable_prefix(m.bars)),
        forall|j: int|
            0 <= j < spec_removable_prefix(m.bars) ==> !spec_externally_referenced(
                #[trigger] m.bars[j].node,
            ),
        spec_removable_prefix(m.bars) < m.bars.len() ==> spec_externally_referenced(
            m.bars[spec_removable_prefix(m.bars)].node,
        ),
        forall|j: int|
            spec_removable_prefix(m.bars) <= j < m.bars.len() ==> spec_tick_state(m).bars[j
                - spec_removable_prefix(m.bars)] == m.bars[j],
{
    lemma_removable_prefix_characterization(m.bars);
}

} // verus!
