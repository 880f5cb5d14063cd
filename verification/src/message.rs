use vstd::prelude::*;
use crate::state::BarModel;
use crate::state::LifecycleState;
use crate::state::ProgressBarState;

verus! {

/// Whether a bar counts as finished for message resolution: a leaf that
/// has reached its length or left the running state; a composite whose
/// children are all finished.
pub open spec fn spec_completed(node: BarModel) -> bool
    decreases node,
{
    match node.nested {
        None => (match node.length {
            Some(len) => node.position >= len,
            None => false,
        }) || !(node.lifecycle is InProgress),
        Some(nested) => spec_all_completed_prefix(nested.bars, nested.bars.len() as int),
    }
}

/// Whether the first `n` subtrees are all finished.
pub open spec fn spec_all_completed_prefix(bars: Seq<BarModel>, n: int) -> bool
    decreases bars, n,
{
    if n <= 0 || n > bars.len() {
        true
    } else {
        spec_all_completed_prefix(bars, n - 1) && spec_completed(bars[n - 1])
    }
}

/// The message of the first unfinished bar that has one, walking the tree
/// with children before their parent, in display order.
pub open spec fn spec_first_active_message(node: BarModel) -> Option<Seq<char>>
    decreases node,
{
    match node.nested {
        None => if !spec_completed(node) {
            node.message
        } else {
            None
        },
        Some(nested) => {
            let from_children = spec_first_active_prefix(nested.bars, nested.bars.len() as int);
            if from_children is Some {
                from_children
            } else if !spec_completed(node) {
                node.message
            } else {
                None
            }
        },
    }
}

/// The first such message among the first `n` subtrees.
pub open spec fn spec_first_active_prefix(bars: Seq<BarModel>, n: int) -> Option<Seq<char>>
    decreases bars, n,
{
    if n <= 0 || n > bars.len() {
        None
    } else {
        let before = spec_first_active_prefix(bars, n - 1);
        if before is Some {
            before
        } else {
            spec_first_active_message(bars[n - 1])
        }
    }
}

/// The message of the last bar that has one, walking the tree with
/// children before their parent, in display order.
pub open spec fn spec_last_message(node: BarModel) -> Option<Seq<char>>
    decreases node,
{
    match node.nested {
        None => node.message,
        Some(nested) => {
            if node.message is Some {
                node.message
            } else {
                spec_last_message_prefix(nested.bars, nested.bars.len() as int)
            }
        },
    }
}

/// The last such message among the first `n` subtrees.
pub open spec fn spec_last_message_prefix(bars: Seq<BarModel>, n: int) -> Option<Seq<char>>
    decreases bars, n,
{
    if n <= 0 || n > bars.len() {
        None
    } else {
        let here = spec_last_message(bars[n - 1]);
        if here is Some {
            here
        } else {
            spec_last_message_prefix(bars, n - 1)
        }
    }
}

/// The message a bar displays: the first unfinished bar's message, or,
/// once everything is finished, the last message still set anywhere.
pub open spec fn spec_message(node: BarModel) -> Option<Seq<char>> {
    if spec_completed(node) {
        spec_last_message(node)
    } else {
        spec_first_active_message(node)
    }
}

impl ProgressBarState {
    /// Whether this subtree counts as finished for message resolution.
    pub fn completed(&self) -> (r: bool)
        ensures
            r == spec_completed(self.model()),
        decreases *self,
    {
        match &self.nested {
            None => {
                let reached = match self.length {
                    Some(len) => self.position >= len,
                    None => false,
                };
                reached || !matches!(self.lifecycle, LifecycleState::InProgress)
            },
            Some(nested) => {
                let n = nested.bars.len();
                let mut i: usize = 0;
                let mut all = true;
                while i < n
                    invariant
                        i <= n,
                        *nested == self.nested->0,
                        self.nested is Some,
                        n == nested.bars@.len(),
                        self.model().nested is Some,
                        self.model().nested->0.bars.len() == n,
                        all == spec_all_completed_prefix(self.model().nested->0.bars, i as int),
                    decreases n - i,
                {
                    let child = &nested.bars[i];
                    proof {
                        assert(decreases_to!(*self => self.nested));
                        assert(decreases_to!(self.nested => self.nested->0));
                        assert(decreases_to!(self.nested->0 => self.nested->0.bars));
                        assert(decreases_to!(self.nested->0.bars => self.nested->0.bars@));
                        assert(decreases_to!(self.nested->0.bars@ => self.nested->0.bars@[i as int]));
                        assert(*child == self.nested->0.bars@[i as int]);
                    }
                    if !child.completed() {
                        all = false;
                    }
                    i += 1;
                }
                all
            },
        }
    }

    /// The message of the first unfinished bar that has one, children
    /// before parent, in display order.
    pub fn first_active_message(&self) -> (r: Option<String>)
        ensures
            match r {
                Some(s) => spec_first_active_message(self.model()) == Some(s@),
                None => spec_first_active_message(self.model()) is None,
            },
        decreases *self,
    {
        match &self.nested {
            None => {
                if !self.completed() {
                    match &self.message {
                        Some(s) => Some(s.clone()),
                        None => None,
                    }
                } else {
                    None
                }
            },
            Some(nested) => {
                let n = nested.bars.len();
                let mut i: usize = 0;
                let mut found: Option<String> = None;
                while i < n
                    invariant
                        i <= n,
                        *nested == self.nested->0,
                        self.nested is Some,
                        n == nested.bars@.len(),
                        self.model().nested is Some,
                        self.model().nested->0.bars.len() == n,
                        match found {
                            Some(ref s) => spec_first_active_prefix(
                                self.model().nested->0.bars,
                                i as int,
                            ) == Some(s@),
                            None => spec_first_active_prefix(
                                self.model().nested->0.bars,
                                i as int,
                            ) is None,
                        },
                    decreases n - i,
                {
                    let child = &nested.bars[i];
                    proof {
                        assert(decreases_to!(*self => self.nested));
                        assert(decreases_to!(self.nested => self.nested->0));
                        assert(decreases_to!(self.nested->0 => self.nested->0.bars));
                        assert(decreases_to!(self.nested->0.bars => self.nested->0.bars@));
                        assert(decreases_to!(self.nested->0.bars@ => self.nested->0.bars@[i as int]));
                        assert(*child == self.nested->0.bars@[i as int]);
                    }
                    if found.is_none() {
                        found = child.first_active_message();
                    }
                    i += 1;
                }
                if found.is_some() {
                    found
                } else if !self.completed() {
                    match &self.message {
                        Some(s) => Some(s.clone()),
                        None => None,
                    }
                } else {
                    None
                }
            },
        }
    }

    /// The message of the last bar that has one, children before parent,
    /// in display order.
    pub fn last_message(&self) -> (r: Option<String>)
        ensures
            match r {
                Some(s) => spec_last_message(self.model()) == Some(s@),
                None => spec_last_message(self.model()) is None,
            },
        decreases *self,
    {
        match &self.nested {
            None => {
                match &self.message {
                    Some(s) => Some(s.clone()),
                    None => None,
                }
            },
            Some(nested) => {
                if self.message.is_some() {
                    match &self.message {
                        Some(s) => Some(s.clone()),
                        None => None,
                    }
                } else {
                    let n = nested.bars.len();
                    let mut i: usize = 0;
                    let mut found: Option<String> = None;
                    while i < n
                        invariant
                            i <= n,
                            *nested == self.nested->0,
                            self.nested is Some,
                            n == nested.bars@.len(),
                            self.model().nested is Some,
                            self.model().nested->0.bars.len() == n,
                            match found {
                                Some(ref s) => spec_last_message_prefix(
                                    self.model().nested->0.bars,
                                    i as int,
                                ) == Some(s@),
                                None => spec_last_message_prefix(
                                    self.model().nested->0.bars,
                                    i as int,
                                ) is None,
                            },
                        decreases n - i,
                    {
                        let child = &nested.bars[i];
                        proof {
                            assert(decreases_to!(*self => self.nested));
                            assert(decreases_to!(self.nested => self.nested->0));
                            assert(decreases_to!(self.nested->0 => self.nested->0.bars));
                            assert(decreases_to!(self.nested->0.bars => self.nested->0.bars@));
                            assert(decreases_to!(
                                self.nested->0.bars@ => self.nested->0.bars@[i as int]
                            ));
                            assert(*child == self.nested->0.bars@[i as int]);
                        }
                        let here = child.last_message();
                        if here.is_some() {
                            found = here;
                        }
                        i += 1;
                    }
                    found
                }
            },
        }
    }

    /// The message this bar displays: the first unfinished bar's message,
    /// or, once everything is finished, the last message still set
    /// anywhere.
    pub fn message(&self) -> (r: Option<String>)
        ensures
            match r {
                Some(s) => spec_message(self.model()) == Some(s@),
                None => spec_message(self.model()) is None,
            },
    {
        if self.completed() {
            self.last_message()
        } else {
            self.first_active_message()
        }
    }
}

} // verus!
