use vstd::prelude::*;
use std::sync::Arc;
use tokio::sync::Notify;

verus! {

/// Why a context was canceled.
#[derive(Debug, Clone, Copy, PartialEq, Eq, Structural)]
pub enum ContextError {
    Canceled,
}

/// The error of a value lookup that reached a root without a match.
#[derive(Debug, Clone, Copy, PartialEq, Eq, Structural)]
pub enum ContextValueError {
    NotFound,
}

/// A key under which a context may be asked for a value.
#[derive(Debug, PartialOrd, PartialEq, Eq, Hash)]
pub enum ContextKey {
    String(String),
    CancelContext,
}

/// The state each node owns: its registered children, its parent (none
/// for a root), the recorded cancellation cause (none while live), and
/// the signal that wakes the tasks waiting for it to be canceled.
pub struct ContextBody {
    pub children: Vec<usize>,
    pub parent: Option<usize>,
    pub canceled: Option<ContextError>,
    pub signal: Arc<Notify>,
}

/// All nodes of one or more trees, each named by its index.
pub struct ContextTree {
    nodes: Vec<ContextBody>,
}

/// A node's parent was made before it; each child lists it; each
/// child list holds exactly the nodes that name that node as parent;
/// a root is never canceled.
pub open spec fn well_formed(s: Seq<ContextBody>) -> bool {
    &&& s.len() <= usize::MAX
    &&& forall|i: int| #![trigger s[i].parent]
        0 <= i < s.len() && s[i].parent is Some ==> s[i].parent->0 < i
    &&& forall|i: int, k: int| #![trigger s[i].children@[k]]
        0 <= i < s.len() && 0 <= k < s[i].children@.len() ==> {
            &&& s[i].children@[k] < s.len()
            &&& s[s[i].children@[k] as int].parent == Some(i as usize)
        }
    &&& forall|c: int| #![trigger s[c].parent]
        0 <= c < s.len() && s[c].parent is Some ==> s[s[c].parent->0 as int].children@.contains(c as usize)
    &&& forall|i: int| #![trigger s[i].children@]
        0 <= i < s.len() ==> s[i].children@.no_duplicates()
    &&& forall|i: int| #![trigger s[i].canceled]
        0 <= i < s.len() && s[i].parent is None ==> s[i].canceled is None
}

/// `c` is `n` or lies below it.
pub open spec fn descends(s: Seq<ContextBody>, c: int, n: int) -> bool
    decreases c,
{
    if c == n {
        true
    } else if 0 <= c < s.len() && s[c].parent is Some && s[c].parent->0 < c {
        descends(s, s[c].parent->0 as int, n)
    } else {
        false
    }
}

/// The number of ancestors of node `i`.
pub open spec fn depth(s: Seq<ContextBody>, i: int) -> nat
    decreases i,
{
    if 0 <= i < s.len() && s[i].parent is Some && s[i].parent->0 < i {
        1 + depth(s, s[i].parent->0 as int)
    } else {
        0
    }
}

/// The cause a node holds after a cancellation with `e` reached it: an
/// earlier cause stays, else `e` is recorded.
pub open spec fn cause_after(x: Option<ContextError>, e: ContextError) -> Option<ContextError> {
    if x is Some {
        x
    } else {
        Some(e)
    }
}

/// Two states with the same nodes, parents and child lists.
pub open spec fn same_shape(a: Seq<ContextBody>, b: Seq<ContextBody>) -> bool {
    &&& a.len() == b.len()
    &&& forall|i: int| 0 <= i < a.len() ==> #[trigger] a[i].parent == b[i].parent
    &&& forall|i: int| 0 <= i < a.len() ==> #[trigger] a[i].children@ == b[i].children@
}

/// `after` is `before` once `id` was canceled with `e`: the nodes at or
/// below `id` hold their earlier cause or else `e`, all others are as
/// they were, and no parent or child list changed.
pub open spec fn cancel_outcome(before: Seq<ContextBody>, after: Seq<ContextBody>, id: int, e: ContextError) -> bool {
    &&& same_shape(before, after)
    &&& forall|j: int| 0 <= j < before.len() ==> #[trigger] after[j].canceled == if descends(before, j, id) {
        cause_after(before[j].canceled, e)
    } else {
        before[j].canceled
    }
}

/// What waiting on node `i` comes to in state `s`: nothing yet while it
/// is live, the recorded cause once it is canceled.
pub open spec fn done_state(s: Seq<ContextBody>, i: int) -> Option<Result<(), ContextError>> {
    match s[i].canceled {
        Some(e) => Some(Err(e)),
        None => None,
    }
}

/// `after` is `before` with one more node, a live root.
pub open spec fn root_added(before: Seq<ContextBody>, after: Seq<ContextBody>) -> bool {
    &&& after.len() == before.len() + 1
    &&& forall|i: int| 0 <= i < before.len() ==> #[trigger] after[i] == before[i]
    &&& after[before.len() as int].parent is None
    &&& after[before.len() as int].children@.len() == 0
    &&& after[before.len() as int].canceled is None
}

/// `after` is `before` with one more node, a live child of `parent`
/// appended to the parent's child list.
pub open spec fn child_added(before: Seq<ContextBody>, after: Seq<ContextBody>, parent: int) -> bool {
    &&& after.len() == before.len() + 1
    &&& forall|i: int| 0 <= i < before.len() && i != parent ==> #[trigger] after[i] == before[i]
    &&& after[parent].children@ == before[parent].children@.push(before.len() as usize)
    &&& after[parent].parent == before[parent].parent
    &&& after[parent].canceled == before[parent].canceled
    &&& after[before.len() as int].parent == Some(parent as usize)
    &&& after[before.len() as int].children@.len() == 0
    &&& after[before.len() as int].canceled is None
}

/// `j` lies below one of the first `k` children of `n`.
pub open spec fn below_first_children(s: Seq<ContextBody>, n: int, k: int, j: int) -> bool
    decreases k,
{
    if k <= 0 {
        false
    } else {
        below_first_children(s, n, k - 1, j) || descends(s, j, s[n].children@[k - 1] as int)
    }
}

pub(crate) proof fn lemma_descends_same_shape(a: Seq<ContextBody>, b: Seq<ContextBody>, j: int, n: int)
    requires
        same_shape(a, b),
    ensures
        descends(a, j, n) == descends(b, j, n),
    decreases j,
{
    if j != n && 0 <= j < a.len() && a[j].parent is Some && a[j].parent->0 < j {
        lemma_descends_same_shape(a, b, a[j].parent->0 as int, n);
    }
}

pub(crate) proof fn lemma_descends_ge(s: Seq<ContextBody>, j: int, n: int)
    requires
        descends(s, j, n),
    ensures
        j >= n,
    decreases j,
{
    if j != n {
        lemma_descends_ge(s, s[j].parent->0 as int, n);
    }
}

/// What lies below a child lies below its parent.
proof fn lemma_below_child(s: Seq<ContextBody>, j: int, n: int, k: int)
    requires
        well_formed(s),
        0 <= n < s.len(),
        0 <= k < s[n].children@.len(),
        descends(s, j, s[n].children@[k] as int),
    ensures
        descends(s, j, n),
        j > n,
    decreases j,
{
    let c = s[n].children@[k] as int;
    assert(s[n].children@[k] < s.len());
    assert(s[c].parent == Some(n as usize));
    assert(s[c].parent->0 < c);
    assert(descends(s, n, n));
    assert(descends(s, c, n));
    if j != c {
        lemma_below_child(s, s[j].parent->0 as int, n, k);
    }
}

/// A node strictly below `n` lies below one of `n`'s children.
proof fn lemma_child_toward(s: Seq<ContextBody>, j: int, n: int) -> (k: int)
    requires
        well_formed(s),
        0 <= j < s.len(),
        0 <= n < s.len(),
        descends(s, j, n),
        j != n,
    ensures
        0 <= k < s[n].children@.len(),
        descends(s, j, s[n].children@[k] as int),
    decreases j,
{
    let p = s[j].parent->0 as int;
    if p == n {
        assert(s[n].children@.contains(j as usize));
        assert(descends(s, j, j));
        let k = choose|k: int| 0 <= k < s[n].children@.len() && s[n].children@[k] == j as usize;
        assert(s[n].children@[k] as int == j);
        k
    } else {
        let k = lemma_child_toward(s, p, n);
        lemma_descends_ge(s, p, s[n].children@[k] as int);
        k
    }
}

proof fn lemma_below_first_children(s: Seq<ContextBody>, n: int, k: int, j: int)
    requires
        well_formed(s),
        0 <= n < s.len(),
        0 <= k <= s[n].children@.len(),
    ensures
        below_first_children(s, n, k, j) <==> exists|m: int| 0 <= m < k && #[trigger] descends(s, j, s[n].children@[m] as int),
        below_first_children(s, n, k, j) ==> descends(s, j, n) && j > n,
    decreases k,
{
    if k > 0 {
        lemma_below_first_children(s, n, k - 1, j);
        if descends(s, j, s[n].children@[k - 1] as int) {
            lemma_below_child(s, j, n, k - 1);
        }
    }
}

impl ContextTree {
    pub closed spec fn view(&self) -> Seq<ContextBody> {
        self.nodes@
    }

    pub open spec fn wf(&self) -> bool {
        well_formed(self@)
    }

    /// An empty tree.
    pub fn new() -> (r: ContextTree)
        ensures
            r.wf(),
            r@.len() == 0,
    {
        ContextTree { nodes: Vec::new() }
    }

    /// Adds a root: a node with no parent, never canceled.
    pub fn add_root(&mut self) -> (id: usize)
        requires
            old(self).wf(),
            old(self)@.len() < usize::MAX,
        ensures
            final(self).wf(),
            id == old(self)@.len(),
            root_added(old(self)@, final(self)@),
    {
        let id = self.nodes.len();
        self.nodes.push(ContextBody {
            children: Vec::new(),
            parent: None,
            canceled: None,
            signal: Arc::new(Notify::new()),
        });
        assert(forall|i: int| 0 <= i < id ==> #[trigger] self@[i] == old(self)@[i]);
        id
    }

    /// Adds a live node below `parent` and registers it in the parent's
    /// child list.
    pub fn add_child(&mut self, parent: usize) -> (id: usize)
        requires
            old(self).wf(),
            parent < old(self)@.len(),
            old(self)@.len() < usize::MAX,
        ensures
            final(self).wf(),
            id == old(self)@.len(),
            child_added(old(self)@, final(self)@, parent as int),
    {
        let id = self.nodes.len();
        self.nodes.push(ContextBody {
            children: Vec::new(),
            parent: Some(parent),
            canceled: None,
            signal: Arc::new(Notify::new()),
        });
        self.nodes[parent].children.push(id);
        let ghost s = self@;
        let ghost o = old(self)@;
        assert forall|i: int, k: int| #![trigger s[i].children@[k]]
            0 <= i < s.len() && 0 <= k < s[i].children@.len() implies {
                &&& s[i].children@[k] < s.len()
                &&& s[s[i].children@[k] as int].parent == Some(i as usize)
            } by {
            if i == parent && k == o[i].children@.len() {
            } else if i < o.len() {
                assert(s[i].children@[k] == o[i].children@[k]);
            }
        }
        assert forall|c: int| #![trigger s[c].parent]
            0 <= c < s.len() && s[c].parent is Some implies s[s[c].parent->0 as int].children@.contains(c as usize) by {
            if c == id {
                assert(s[parent as int].children@[o[parent as int].children@.len() as int] == id);
            } else {
                let q = s[c].parent->0 as int;
                assert(o[c].parent is Some);
                let k = choose|k: int| 0 <= k < o[q].children@.len() && o[q].children@[k] == c as usize;
                assert(s[q].children@[k] == c as usize);
            }
        }
        assert forall|i: int| #![trigger s[i].children@] 0 <= i < s.len() implies s[i].children@.no_duplicates() by {
            if i == parent {
                assert forall|k: int| 0 <= k < o[i].children@.len() implies o[i].children@[k] != id by {}
            }
        }
        id
    }

    /// Cancels `id` and everything below it, depth first: each child is
    /// canceled before `id` itself records `error` (if it held no cause
    /// yet) and wakes its waiters. Each node woken is appended to `woken`.
    fn cancel_below(&mut self, id: usize, error: ContextError, woken: &mut Vec<usize>)
        requires
            old(self).wf(),
            id < old(self)@.len(),
            old(self)@[id as int].parent is Some,
        ensures
            final(self).wf(),
            cancel_outcome(old(self)@, final(self)@, id as int, error),
            forall|x: usize| #[trigger] final(woken)@.contains(x) <==> old(woken)@.contains(x) || (x < old(self)@.len() && descends(old(self)@, x as int, id as int)),
        decreases old(self)@.len() - id,
    {
        let ghost s0 = self@;
        let n = self.nodes[id].children.len();
        let mut k: usize = 0;
        while k < n
            invariant
                s0 == old(self)@,
                self.wf(),
                same_shape(s0, self@),
                id < s0.len(),
                s0[id as int].parent is Some,
                0 <= k <= n,
                n == s0[id as int].children@.len(),
                forall|j: int| 0 <= j < s0.len() ==> #[trigger] self@[j].canceled == if below_first_children(s0, id as int, k as int, j) {
                    cause_after(s0[j].canceled, error)
                } else {
                    s0[j].canceled
                },
                forall|x: usize| #[trigger] woken@.contains(x) <==> old(woken)@.contains(x) || (x < s0.len() && below_first_children(s0, id as int, k as int, x as int)),
            decreases n - k,
        {
            let c = self.nodes[id].children[k];
            proof {
                assert(s0[id as int].children@[k as int] == c);
                assert(self@[c as int].parent == Some(id));
            }
            let ghost s1 = self@;
            self.cancel_below(c, error, woken);
            proof {
                assert forall|j: int| 0 <= j < s0.len() implies #[trigger] descends(s1, j, c as int) == descends(s0, j, c as int) by {
                    lemma_descends_same_shape(s0, s1, j, c as int);
                }
            }
            k += 1;
        }
        let ghost s1 = self@;
        if self.nodes[id].canceled.is_none() {
            self.nodes[id].canceled = Some(error);
        }
        assert(same_shape(s1, self@));
        assert forall|i: int| 0 <= i < self@.len() && (#[trigger] self@[i].parent) is None implies self@[i].canceled is None by {
            assert(s1[i].parent is None);
        }
        self.nodes[id].signal.notify_waiters();
        let ghost after_loop = woken@;
        woken.push(id);
        proof {
            assert forall|j: int| 0 <= j < s0.len() implies (#[trigger] descends(s0, j, id as int)) == (j == id || below_first_children(s0, id as int, n as int, j)) by {
                lemma_below_first_children(s0, id as int, n as int, j);
                if descends(s0, j, id as int) && j != id {
                    let m = lemma_child_toward(s0, j, id as int);
                }
            }
            assert forall|x: usize| #[trigger] woken@.contains(x) <==> old(woken)@.contains(x) || (x < s0.len() && descends(s0, x as int, id as int)) by {
                assert(woken@ == after_loop.push(id));
                if x < s0.len() {
                    assert(descends(s0, x as int, id as int) == (x == id || below_first_children(s0, id as int, n as int, x as int)));
                }
                if x == id {
                    assert(woken@[woken@.len() - 1] == x);
                    assert(descends(s0, x as int, id as int));
                }
                if woken@.contains(x) && x != id {
                    let i = choose|i: int| 0 <= i < woken@.len() && woken@[i] == x;
                    assert(after_loop[i] == x);
                }
                if after_loop.contains(x) {
                    let i = choose|i: int| 0 <= i < after_loop.len() && after_loop[i] == x;
                    assert(woken@[i] == x);
                }
            }
        }
    }

    /// Cancels node `id` with `error` and, through the child lists, every
    /// node below it, waking the waiters of each; returns the nodes woken,
    /// which are exactly `id` and those below it. `remove_from_parent` is
    /// accepted and has no effect: a canceled node stays registered with
    /// its parent. A root cannot be canceled.
    pub fn cancel(&mut self, id: usize, remove_from_parent: bool, error: ContextError) -> (woken: Vec<usize>)
        requires
            old(self).wf(),
            id < old(self)@.len(),
            old(self)@[id as int].parent is Some,
        ensures
            final(self).wf(),
            cancel_outcome(old(self)@, final(self)@, id as int, error),
            forall|x: usize| #[trigger] woken@.contains(x) <==> x < old(self)@.len() && descends(old(self)@, x as int, id as int),
    {
        let mut woken: Vec<usize> = Vec::new();
        self.cancel_below(id, error, &mut woken);
        woken
    }

    /// The parent of node `id`, none for a root.
    pub fn parent(&self, id: usize) -> (r: Option<usize>)
        requires
            id < self@.len(),
        ensures
            r == self@[id as int].parent,
    {
        self.nodes[id].parent
    }

    /// The signal of node `id`, on which a task waits for it to be
    /// canceled.
    pub fn signal(&self, id: usize) -> (r: Arc<Notify>)
        requires
            id < self@.len(),
        ensures
            r == self@[id as int].signal,
    {
        self.nodes[id].signal.clone()
    }

    /// The recorded cause of node `id`, none while it is live.
    pub fn err(&self, id: usize) -> (r: Option<ContextError>)
        requires
            id < self@.len(),
        ensures
            r == self@[id as int].canceled,
    {
        self.nodes[id].canceled
    }

    /// One look at a wait on node `id`: `None` while it is live (the
    /// waiter stays suspended), `Some(Err(cause))` once it is canceled.
    pub fn done(&self, id: usize) -> (r: Option<Result<(), ContextError>>)
        requires
            id < self@.len(),
        ensures
            r == done_state(self@, id as int),
    {
        match self.nodes[id].canceled {
            Some(e) => Some(Err(e)),
            None => None,
        }
    }

    /// Looks `key` up from node `id` upward. No node holds a value, so the
    /// walk goes from parent to parent until it reaches the root, which
    /// answers `NotFound`; each step goes to the parent, so the walk takes
    /// as many steps as the node has ancestors.
    pub fn value(&self, id: usize, key: &ContextKey) -> (r: Result<(), ContextValueError>)
        requires
            self.wf(),
            id < self@.len(),
        ensures
            r == Err::<(), ContextValueError>(ContextValueError::NotFound),
    {
        let mut cur: usize = id;
        loop
            invariant
                self.wf(),
                cur < self@.len(),
            decreases depth(self@, cur as int),
        {
            match self.nodes[cur].parent {
                Some(p) => {
                    cur = p;
                },
                None => {
                    return Err(ContextValueError::NotFound);
                },
            }
        }
    }

    /// The number of nodes.
    pub fn len(&self) -> (r: usize)
        ensures
            r == self@.len(),
    {
        self.nodes.len()
    }
}

} // verus!
