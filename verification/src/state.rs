use vstd::prelude::*;

verus! {

/// One million micro-units make one whole.
///
/// Fractions (weights of a weighted split, aggregated progress shares) are
/// stored in millionths, and bar lengths are converted to millionths of an
/// item wherever bars of different kinds are combined, so that a weight of
/// one whole and a length of one item live on the same scale.
pub const SCALE: u64 = 1_000_000;

/// Lifecycle of a single bar: running, finished successfully, or given up on.
#[derive(PartialEq, Eq, Clone, Copy, Structural)]
pub enum LifecycleState {
    InProgress,
    Completed,
    Abandoned,
}

impl Default for LifecycleState {
    fn default() -> (r: Self)
        ensures
            r is InProgress,
    {
        Self::InProgress
    }
}

/// How a composite node combines its children.
///
/// The numeric payloads are paired positionally with the children of the
/// owning [`NestedBars`]: entry `i` describes child `i`.
pub enum NestedMeta {
    /// Each child contributes `weights[i]` millionths of the parent
    /// (`SCALE` is the entire parent) out of the total weight, which is
    /// floored at one whole.
    Weighted(Vec<u64>),
    /// Each child stands for `counts[i]` items of the parent.
    Sized(Vec<u64>),
    /// The parent shows the sum of the children's lengths and progress.
    Summed,
}

/// Payload of a composite node: the ordered children and the combination rule.
pub struct NestedBars {
    pub bars: Vec<ProgressBarState>,
    pub meta: NestedMeta,
}

/// State of one bar: a leaf, or an internal node of a composite bar.
pub struct ProgressBarState {
    /// Total number of items, if known. `None` means indeterminate.
    pub length: Option<u64>,
    /// Number of items done so far.
    pub position: u64,
    /// Text shown next to the bar.
    pub message: Option<String>,
    /// Children, for a composite node. `None` means this is a leaf.
    pub nested: Option<NestedBars>,
    /// Current lifecycle stage.
    pub lifecycle: LifecycleState,
    /// Whether a live handle outside the manager still points at this node.
    /// It stands for the extra strong reference the user-facing wrapper
    /// holds; a subtree may be dropped once no node in it is referenced
    /// this way.
    pub external_handle: bool,
}

/// Mathematical model of a composite rule.
#[verifier::ext_equal]
pub enum MetaModel {
    Weighted(Seq<u64>),
    Sized(Seq<u64>),
    Summed,
}

/// Mathematical model of a composite payload.
#[verifier::ext_equal]
pub struct NestedModel {
    pub bars: Seq<BarModel>,
    pub meta: MetaModel,
}

/// Mathematical model of one bar's state tree.
#[verifier::ext_equal]
pub struct BarModel {
    pub length: Option<u64>,
    pub position: u64,
    pub message: Option<Seq<char>>,
    pub nested: Option<NestedModel>,
    pub lifecycle: LifecycleState,
    pub external_handle: bool,
}

/// A placeholder model value, never observed: it backs the out-of-range
/// branch of sequence comprehensions.
pub open spec fn dummy_bar_model() -> BarModel {
    BarModel {
        length: None,
        position: 0,
        message: None,
        nested: None,
        lifecycle: LifecycleState::InProgress,
        external_handle: false,
    }
}

/// The models of a sequence of subtrees, in order.
pub open spec fn models_of(bars: Seq<ProgressBarState>) -> Seq<BarModel>
    decreases bars,
{
    Seq::new(
        bars.len(),
        |i: int|
            if 0 <= i < bars.len() {
                bars[i].model()
            } else {
                dummy_bar_model()
            },
    )
}

impl NestedMeta {
    pub open spec fn model(self) -> MetaModel {
        match self {
            NestedMeta::Weighted(ws) => MetaModel::Weighted(ws@),
            NestedMeta::Sized(cs) => MetaModel::Sized(cs@),
            NestedMeta::Summed => MetaModel::Summed,
        }
    }
}

impl ProgressBarState {
    /// The mathematical model of this subtree.
    pub open spec fn model(self) -> BarModel
        decreases self,
    {
        BarModel {
            length: self.length,
            position: self.position,
            message: match self.message {
                None => None,
                Some(s) => Some(s@),
            },
            nested: match self.nested {
                None => None,
                Some(nested) => Some(
                    NestedModel { bars: models_of(nested.bars@), meta: nested.meta.model() },
                ),
            },
            lifecycle: self.lifecycle,
            external_handle: self.external_handle,
        }
    }

    /// A fresh leaf bar: no length, no progress, no message, running, with
    /// a live handle.
    pub fn new_leaf() -> (r: ProgressBarState)
        ensures
            r.model() == spec_new_leaf(),
    {
        ProgressBarState {
            length: None,
            position: 0,
            message: None,
            nested: None,
            lifecycle: LifecycleState::InProgress,
            external_handle: true,
        }
    }

    /// True if some node of this subtree is still referenced by a live
    /// handle, in which case the subtree must be kept.
    pub fn externally_referenced(&self) -> (r: bool)
        ensures
            r == spec_externally_referenced(self.model()),
        decreases *self,
    {
        if self.external_handle {
            return true;
        }
        match &self.nested {
            None => false,
            Some(nested) => {
                let n = nested.bars.len();
                let mut i: usize = 0;
                let mut found = false;
                while i < n
                    invariant
                        i <= n,
                        *nested == self.nested->0,
                        self.nested is Some,
                        n == nested.bars@.len(),
                        self.model().nested is Some,
                        self.model().nested->0.bars.len() == n,
                        found == spec_any_referenced_prefix(
                            self.model().nested->0.bars,
                            i as int,
                        ),
                    decreases n - i,
                {
                    let child = &nested.bars[i];
                    proof {
                        assert(decreases_to!(*self => self.nested));
                        assert(decreases_to!(self.nested => self.nested->0));
                        assert(decreases_to!(self.nested->0 => self.nested->0.bars));
                        assert(decreases_to!(self.nested->0.bars => self.nested->0.bars@));
                        assert(decreases_to!(self.nested->0.bars@ => self.nested->0.bars@[i as int]));
                        assert(*nested == self.nested->0);
                        assert(*child == self.nested->0.bars@[i as int]);
                    }
                    if child.externally_referenced() {
                        found = true;
                    }
                    i += 1;
                }
                found
            },
        }
    }
}

/// The model of a fresh leaf bar.
pub open spec fn spec_new_leaf() -> BarModel {
    BarModel {
        length: None,
        position: 0,
        message: None,
        nested: None,
        lifecycle: LifecycleState::InProgress,
        external_handle: true,
    }
}

/// True if some node of the subtree carries a live external handle.
pub open spec fn spec_externally_referenced(node: BarModel) -> bool
    decreases node,
{
    node.external_handle || (match node.nested {
        None => false,
        Some(nested) => spec_any_referenced_prefix(nested.bars, nested.bars.len() as int),
    })
}

/// True if one of the first `n` subtrees in the sequence carries a live
/// external handle.
pub open spec fn spec_any_referenced_prefix(bars: Seq<BarModel>, n: int) -> bool
    decreases bars, n,
{
    if n <= 0 || n > bars.len() {
        false
    } else {
        spec_any_referenced_prefix(bars, n - 1) || spec_externally_referenced(bars[n - 1])
    }
}

/// True if some subtree of the sequence carries a live external handle.
pub open spec fn spec_any_referenced(bars: Seq<BarModel>) -> bool {
    spec_any_referenced_prefix(bars, bars.len() as int)
}


/// A single edit requested through a handle, applied to the node that the
/// handle points at.
pub enum BarMutation {
    SetLength(u64),
    SetPosition(u64),
    SetMessage(String),
    ClearMessage,
    Inc,
    /// Mark completed: the position snaps to the length if one is set, and
    /// the handle's reference is given up.
    Finish,
    /// Mark abandoned and give up the handle's reference.
    Abandon,
    /// Turn the node into an empty composite with the given rule.
    InstallNested(SplitKind),
    /// Append a child (and its paired weight or count) to a composite node.
    PushChild(ProgressBarState, u64),
}

/// The three composite rules, used when installing an empty composite.
#[derive(PartialEq, Eq, Clone, Copy, Structural)]
pub enum SplitKind {
    Weighted,
    Sized,
    Summed,
}

/// Mathematical model of a requested edit.
pub enum MutationModel {
    SetLength(u64),
    SetPosition(u64),
    SetMessage(Seq<char>),
    ClearMessage,
    Inc,
    Finish,
    Abandon,
    InstallNested(SplitKind),
    PushChild(BarModel, u64),
}

impl BarMutation {
    pub open spec fn model(self) -> MutationModel {
        match self {
            BarMutation::SetLength(len) => MutationModel::SetLength(len),
            BarMutation::SetPosition(pos) => MutationModel::SetPosition(pos),
            BarMutation::SetMessage(s) => MutationModel::SetMessage(s@),
            BarMutation::ClearMessage => MutationModel::ClearMessage,
            BarMutation::Inc => MutationModel::Inc,
            BarMutation::Finish => MutationModel::Finish,
            BarMutation::Abandon => MutationModel::Abandon,
            BarMutation::InstallNested(kind) => MutationModel::InstallNested(kind),
            BarMutation::PushChild(child, amount) => MutationModel::PushChild(
                child.model(),
                amount,
            ),
        }
    }
}

/// What one edit does to the node it is addressed to.
pub open spec fn spec_apply_local(node: BarModel, m: MutationModel) -> BarModel {
    match m {
        MutationModel::SetLength(len) => BarModel { length: Some(len), ..node },
        MutationModel::SetPosition(pos) => BarModel { position: pos, ..node },
        MutationModel::SetMessage(s) => BarModel { message: Some(s), ..node },
        MutationModel::ClearMessage => BarModel { message: None, ..node },
        MutationModel::Inc => BarModel {
            position: if node.position == u64::MAX {
                u64::MAX
            } else {
                (node.position + 1) as u64
            },
            ..node
        },
        MutationModel::Finish => BarModel {
            position: match node.length {
                Some(len) => len,
                None => node.position,
            },
            lifecycle: LifecycleState::Completed,
            external_handle: false,
            ..node
        },
        MutationModel::Abandon => BarModel {
            lifecycle: LifecycleState::Abandoned,
            external_handle: false,
            ..node
        },
        MutationModel::InstallNested(kind) => BarModel {
            nested: Some(
                NestedModel {
                    bars: Seq::empty(),
                    meta: match kind {
                        SplitKind::Weighted => MetaModel::Weighted(Seq::empty()),
                        SplitKind::Sized => MetaModel::Sized(Seq::empty()),
                        SplitKind::Summed => MetaModel::Summed,
                    },
                },
            ),
            ..node
        },
        MutationModel::PushChild(child, amount) => spec_push_child(node, child, amount),
    }
}

/// Appending a child to a composite node: the child joins the children, and
/// for a weighted or sized rule the paired amount joins the rule's sequence.
/// On a leaf the request does nothing.
pub open spec fn spec_push_child(node: BarModel, child: BarModel, amount: u64) -> BarModel {
    match node.nested {
        None => node,
        Some(nested) => BarModel {
            nested: Some(
                NestedModel {
                    bars: nested.bars.push(child),
                    meta: match nested.meta {
                        MetaModel::Weighted(ws) => MetaModel::Weighted(ws.push(amount)),
                        MetaModel::Sized(cs) => MetaModel::Sized(cs.push(amount)),
                        MetaModel::Summed => MetaModel::Summed,
                    },
                },
            ),
            ..node
        },
    }
}

/// What one edit, addressed to the node `path[depth..]` steps below, does
/// to a subtree. A path step that does not exist leaves the subtree as it
/// is.
pub open spec fn spec_apply_at(
    node: BarModel,
    path: Seq<usize>,
    depth: int,
    m: MutationModel,
) -> BarModel
    decreases path.len() - depth,
{
    if depth < 0 || depth >= path.len() {
        spec_apply_local(node, m)
    } else {
        let i = path[depth] as int;
        match node.nested {
            None => node,
            Some(nested) => {
                if i >= nested.bars.len() {
                    node
                } else {
                    BarModel {
                        nested: Some(
                            NestedModel {
                                bars: nested.bars.update(
                                    i,
                                    spec_apply_at(nested.bars[i], path, depth + 1, m),
                                ),
                                meta: nested.meta,
                            },
                        ),
                        ..node
                    }
                }
            },
        }
    }
}

/// The node `path[depth..]` steps below the given one, if every step
/// exists.
pub open spec fn spec_node_at(node: BarModel, path: Seq<usize>, depth: int) -> Option<BarModel>
    decreases path.len() - depth,
{
    if depth < 0 || depth >= path.len() {
        Some(node)
    } else {
        let i = path[depth] as int;
        match node.nested {
            None => None,
            Some(nested) => {
                if i >= nested.bars.len() {
                    None
                } else {
                    spec_node_at(nested.bars[i], path, depth + 1)
                }
            },
        }
    }
}

/// Applies one edit to the node addressed by `path[depth..]`, leaving the
/// tree unchanged when the path does not exist.
pub fn apply_at(node: &mut ProgressBarState, path: &Vec<usize>, depth: usize, m: BarMutation)
    requires
        depth <= path@.len(),
    ensures
        final(node).model() == spec_apply_at(old(node).model(), path@, depth as int, m.model()),
    decreases path@.len() - depth,
{
    if depth == path.len() {
        apply_local(node, m);
        return;
    }
    let i = path[depth];
    match &mut node.nested {
        None => {
            proof {
                assert(final(node).model() == spec_apply_at(
                    old(node).model(),
                    path@,
                    depth as int,
                    m.model(),
                ));
            }
        },
        Some(nb) => {
            if i < nb.bars.len() {
                let child = &mut nb.bars[i];
                apply_at(child, path, depth + 1, m);
                proof {
                    let pre = old(node).model();
                    let post = node.model();
                    let ic = i as int;
                    assert(post.nested->0.bars =~~= pre.nested->0.bars.update(
                        ic,
                        spec_apply_at(pre.nested->0.bars[ic], path@, depth + 1, m.model()),
                    ));
                    assert(post =~~= spec_apply_at(pre, path@, depth as int, m.model()));
                }
            }
        },
    }
}

/// Applies one edit to this very node.
pub fn apply_local(node: &mut ProgressBarState, m: BarMutation)
    ensures
        final(node).model() == spec_apply_local(old(node).model(), m.model()),
{
    match m {
        BarMutation::SetLength(len) => {
            node.length = Some(len);
        },
        BarMutation::SetPosition(pos) => {
            node.position = pos;
        },
        BarMutation::SetMessage(s) => {
            node.message = Some(s);
        },
        BarMutation::ClearMessage => {
            node.message = None;
        },
        BarMutation::Inc => {
            if node.position != u64::MAX {
                node.position = node.position + 1;
            }
        },
        BarMutation::Finish => {
            match node.length {
                Some(len) => {
                    node.position = len;
                },
                None => {},
            }
            node.lifecycle = LifecycleState::Completed;
            node.external_handle = false;
        },
        BarMutation::Abandon => {
            node.lifecycle = LifecycleState::Abandoned;
            node.external_handle = false;
        },
        BarMutation::InstallNested(kind) => {
            node.nested = Some(
                NestedBars {
                    bars: Vec::new(),
                    meta: match kind {
                        SplitKind::Weighted => NestedMeta::Weighted(Vec::new()),
                        SplitKind::Sized => NestedMeta::Sized(Vec::new()),
                        SplitKind::Summed => NestedMeta::Summed,
                    },
                },
            );
            proof {
                assert(node.model().nested->0.bars =~~= Seq::<BarModel>::empty());
                assert(node.model() =~~= spec_apply_local(old(node).model(), m.model()));
            }
        },
        BarMutation::PushChild(child, amount) => {
            let ghost c = child;
            match &mut node.nested {
                None => {},
                Some(nb) => {
                    match &mut nb.meta {
                        NestedMeta::Weighted(ws) => {
                            ws.push(amount);
                        },
                        NestedMeta::Sized(cs) => {
                            cs.push(amount);
                        },
                        NestedMeta::Summed => {},
                    }
                    nb.bars.push(child);
                    proof {
                        assert(node.model().nested->0.bars =~~= old(
                            node,
                        ).model().nested->0.bars.push(c.model()));
                    }
                },
            }
            proof {
                assert(node.model() =~~= spec_apply_local(old(node).model(), m.model()));
            }
        },
    }
}

/// Finds the node addressed by `path[depth..]`, if every step exists.
pub fn node_at<'a>(node: &'a ProgressBarState, path: &Vec<usize>, depth: usize) -> (r: Option<
    &'a ProgressBarState,
>)
    requires
        depth <= path@.len(),
    ensures
        match r {
            Some(c) => spec_node_at(node.model(), path@, depth as int) == Some(c.model()),
            None => spec_node_at(node.model(), path@, depth as int) is None,
        },
    decreases path@.len() - depth,
{
    if depth == path.len() {
        return Some(node);
    }
    let i = path[depth];
    match &node.nested {
        None => None,
        Some(nb) => {
            if i < nb.bars.len() {
                node_at(&nb.bars[i], path, depth + 1)
            } else {
                None
            }
        },
    }
}

} // verus!
