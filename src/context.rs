use vstd::prelude::*;
use crate::tree::{
    cancel_outcome, child_added, descends, done_state, root_added, ContextError, ContextKey,
    ContextTree, ContextValueError,
};

verus! {

/// The root of a tree: it has no parent, is never canceled, and ends every
/// value lookup with `NotFound`.
pub struct Background {
    id: usize,
}

/// A cancelable node, registered with its parent when made.
pub struct WithCancel {
    id: usize,
}

/// The handle given to whoever decides that a node is canceled: it can
/// cancel that node and do nothing else.
pub struct CancelFunc {
    context: WithCancel,
}

impl Background {
    /// The index of this root in its tree.
    pub closed spec fn node(&self) -> int {
        self.id as int
    }

    /// This root stands in `tree` as a root.
    pub open spec fn in_tree(&self, tree: &ContextTree) -> bool {
        &&& self.node() < tree@.len()
        &&& tree@[self.node()].parent is None
    }

    /// Makes a new root in `tree`.
    pub fn new(tree: &mut ContextTree) -> (r: Background)
        requires
            old(tree).wf(),
            old(tree)@.len() < usize::MAX,
        ensures
            final(tree).wf(),
            r.node() == old(tree)@.len(),
            r.in_tree(final(tree)),
            root_added(old(tree)@, final(tree)@),
    {
        let id = tree.add_root();
        Background { id }
    }

    /// The index of this root in its tree.
    pub fn id(&self) -> (r: usize)
        ensures
            r == self.node(),
    {
        self.id
    }

    /// A root is never canceled.
    pub fn err(&self, tree: &ContextTree) -> (r: Option<ContextError>)
        requires
            tree.wf(),
            self.in_tree(tree),
        ensures
            r is None,
    {
        tree.err(self.id)
    }

    /// A wait on a root never ends: every look finds it live.
    pub fn done(&self, tree: &ContextTree) -> (r: Option<Result<(), ContextError>>)
        requires
            tree.wf(),
            self.in_tree(tree),
        ensures
            r is None,
    {
        tree.done(self.id)
    }

    /// A root holds no value: every lookup ends here with `NotFound`.
    pub fn value(&self, key: &ContextKey) -> (r: Result<(), ContextValueError>)
        ensures
            r == Err::<(), ContextValueError>(ContextValueError::NotFound),
    {
        Err(ContextValueError::NotFound)
    }
}

impl WithCancel {
    /// The index of this node in its tree.
    pub closed spec fn node(&self) -> int {
        self.id as int
    }

    /// This node stands in `tree` as a cancelable node.
    pub open spec fn in_tree(&self, tree: &ContextTree) -> bool {
        &&& self.node() < tree@.len()
        &&& tree@[self.node()].parent is Some
    }

    /// Makes a live node below `parent`, registers it in the parent's
    /// child list, and returns it with the handle that cancels it.
    pub fn new(tree: &mut ContextTree, parent: usize) -> (r: (WithCancel, CancelFunc))
        requires
            old(tree).wf(),
            parent < old(tree)@.len(),
            old(tree)@.len() < usize::MAX,
        ensures
            final(tree).wf(),
            child_added(old(tree)@, final(tree)@, parent as int),
            r.0.node() == old(tree)@.len(),
            r.1.target() == old(tree)@.len(),
            r.0.in_tree(final(tree)),
    {
        let id = tree.add_child(parent);
        (WithCancel { id }, CancelFunc { context: WithCancel { id } })
    }

    /// The index of this node in its tree.
    pub fn id(&self) -> (r: usize)
        ensures
            r == self.node(),
    {
        self.id
    }

    /// The recorded cause, none while this node is live.
    pub fn err(&self, tree: &ContextTree) -> (r: Option<ContextError>)
        requires
            self.in_tree(tree),
        ensures
            r == tree@[self.node()].canceled,
    {
        tree.err(self.id)
    }

    /// One look at a wait on this node: `None` while it is live,
    /// `Some(Err(cause))` once it is canceled.
    pub fn done(&self, tree: &ContextTree) -> (r: Option<Result<(), ContextError>>)
        requires
            self.in_tree(tree),
        ensures
            r == done_state(tree@, self.node()),
    {
        tree.done(self.id)
    }

    /// This node holds no value, so the lookup goes to its ancestors and
    /// ends at the root with `NotFound`.
    pub fn value(&self, tree: &ContextTree, key: &ContextKey) -> (r: Result<(), ContextValueError>)
        requires
            tree.wf(),
            self.in_tree(tree),
        ensures
            r == Err::<(), ContextValueError>(ContextValueError::NotFound),
    {
        tree.value(self.id, key)
    }

    /// Cancels this node and everything below it with `error`; returns the
    /// nodes whose waiters are to be woken.
    pub fn cancel(&self, tree: &mut ContextTree, remove_from_parent: bool, error: ContextError) -> (woken: Vec<usize>)
        requires
            old(tree).wf(),
            self.in_tree(old(tree)),
        ensures
            final(tree).wf(),
            cancel_outcome(old(tree)@, final(tree)@, self.node(), error),
            forall|x: usize| #[trigger] woken@.contains(x) <==> x < old(tree)@.len() && descends(old(tree)@, x as int, self.node()),
    {
        tree.cancel(self.id, remove_from_parent, error)
    }
}

impl CancelFunc {
    /// The index of the node this handle cancels.
    pub closed spec fn target(&self) -> int {
        self.context.node()
    }

    /// Cancels the node this handle was made for, and everything below
    /// it, with `ContextError::Canceled`; returns the nodes whose waiters
    /// are to be woken.
    pub fn cancel(&self, tree: &mut ContextTree) -> (woken: Vec<usize>)
        requires
            old(tree).wf(),
            self.target() < old(tree)@.len(),
            old(tree)@[self.target()].parent is Some,
        ensures
            final(tree).wf(),
            cancel_outcome(old(tree)@, final(tree)@, self.target(), ContextError::Canceled),
            forall|x: usize| #[trigger] woken@.contains(x) <==> x < old(tree)@.len() && descends(old(tree)@, x as int, self.target()),
    {
        self.context.cancel(tree, true, ContextError::Canceled)
    }

    /// The index of the node this handle cancels.
    pub fn id(&self) -> (r: usize)
        ensures
            r == self.target(),
    {
        self.context.id
    }
}

} // verus!
