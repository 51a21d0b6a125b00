//! Cancellation tree: a cancelled token cancels every live descendant exactly once.
//!
//! Tokens are nodes of a [`CancellationTree`]. Cancelling a token seals the affected nodes first
//! and hands back the wake hooks to run, so that no hook ever observes a half-sealed tree.

use crate::concurrency::{cancellation_admission_open, claim_cancellation};
use crate::model::RuntimeId;
use vstd::prelude::*;

pub mod laws;

verus! {

/// One wake hook of a token.
#[derive(Clone, Copy, Debug, PartialEq, Eq, Structural)]
pub struct CancelHookEntry {
    /// Caller-chosen hook identity.
    pub hook: u64,
    /// The scope that keeps the hook alive, for a scoped hook.
    pub scope: Option<u64>,
    /// Whether that scope still holds; always true for an unscoped hook.
    pub active: bool,
}

impl CancelHookEntry {
    /// Returns whether a cancellation still runs this hook.
    pub fn is_active(&self) -> (active: bool)
        ensures
            active == self.active,
    {
        self.active
    }
}

/// The hooks that a cancellation runs, in registration order.
pub open spec fn active_hooks(hooks: Seq<CancelHookEntry>) -> Seq<u64>
    decreases hooks.len(),
{
    if hooks.len() == 0 {
        seq![]
    } else if hooks.last().active {
        active_hooks(hooks.drop_last()).push(hooks.last().hook)
    } else {
        active_hooks(hooks.drop_last())
    }
}

/// The hooks that a cancellation drops without running them.
pub open spec fn inactive_hooks(hooks: Seq<CancelHookEntry>) -> Seq<u64>
    decreases hooks.len(),
{
    if hooks.len() == 0 {
        seq![]
    } else if hooks.last().active {
        inactive_hooks(hooks.drop_last())
    } else {
        inactive_hooks(hooks.drop_last()).push(hooks.last().hook)
    }
}

/// The identities of a list of hooks.
pub open spec fn hook_ids(hooks: Seq<CancelHookEntry>) -> Seq<u64> {
    hooks.map_values(|entry: CancelHookEntry| entry.hook)
}

/// One token of the tree, as plain values.
#[verifier::ext_equal]
pub struct NodeModel {
    pub owner: Option<RuntimeId>,
    pub parent: Option<usize>,
    pub active: bool,
    pub cancelled: bool,
    pub live: bool,
    pub children: Seq<usize>,
    pub hooks: Seq<CancelHookEntry>,
}

impl NodeModel {
    /// Whether the token can be cancelled and can admit children.
    pub open spec fn is_open(self) -> bool {
        self.active && !self.cancelled
    }

    /// The token after it was cancelled.
    pub open spec fn sealed(self) -> NodeModel {
        NodeModel { cancelled: true, children: seq![], hooks: seq![], ..self }
    }

    /// The token after its work ended.
    pub open spec fn ended(self) -> NodeModel {
        NodeModel { active: false, children: seq![], hooks: seq![], ..self }
    }
}

/// One token's state.
pub struct CancellationNode {
    owner: Option<RuntimeId>,
    parent: Option<usize>,
    active: bool,
    cancelled: bool,
    live: bool,
    children: Vec<usize>,
    hooks: Vec<CancelHookEntry>,
}

impl View for CancellationNode {
    type V = NodeModel;

    closed spec fn view(&self) -> NodeModel {
        NodeModel {
            owner: self.owner,
            parent: self.parent,
            active: self.active,
            cancelled: self.cancelled,
            live: self.live,
            children: self.children@,
            hooks: self.hooks@,
        }
    }
}

proof fn lemma_hooks_partition_step(hooks: Seq<CancelHookEntry>, k: int)
    requires
        0 <= k < hooks.len(),
    ensures
        active_hooks(hooks.take(k + 1)) == if hooks[k].active {
            active_hooks(hooks.take(k)).push(hooks[k].hook)
        } else {
            active_hooks(hooks.take(k))
        },
        inactive_hooks(hooks.take(k + 1)) == if hooks[k].active {
            inactive_hooks(hooks.take(k))
        } else {
            inactive_hooks(hooks.take(k)).push(hooks[k].hook)
        },
{
    assert(hooks.take(k + 1).drop_last() =~= hooks.take(k));
    assert(hooks.take(k + 1).last() == hooks[k]);
}

impl CancellationNode {
    fn new(owner: Option<RuntimeId>, parent: Option<usize>) -> (node: Self)
        ensures
            node@ == (NodeModel {
                owner,
                parent,
                active: true,
                cancelled: false,
                live: true,
                children: seq![],
                hooks: seq![],
            }),
    {
        let node = CancellationNode {
            owner,
            parent,
            active: true,
            cancelled: false,
            live: true,
            children: Vec::new(),
            hooks: Vec::new(),
        };
        assert(node@.children =~= seq![]);
        assert(node@.hooks =~= seq![]);
        node
    }

    /// Returns whether the token's work has not ended.
    pub fn is_active(&self) -> (active: bool)
        ensures
            active == self@.active,
    {
        self.active
    }

    /// Cancels the token; true the first time only.
    pub fn claim_cancel(&mut self) -> (claimed: bool)
        ensures
            claimed == !old(self)@.cancelled,
            final(self)@ == (NodeModel { cancelled: true, ..old(self)@ }),
    {
        let claimed: bool = claim_cancellation(self.cancelled);
        self.cancelled = true;
        claimed
    }

    /// Ends the token's work; true the first time only.
    pub fn claim_deactivate(&mut self) -> (claimed: bool)
        ensures
            claimed == old(self)@.active,
            final(self)@ == (NodeModel { active: false, ..old(self)@ }),
    {
        let claimed: bool = self.active;
        self.active = false;
        claimed
    }

    /// Takes every hook, and separates those to run from those whose scope has ended.
    pub fn take_active_hooks(&mut self, active: &mut Vec<u64>, discarded: &mut Vec<u64>)
        ensures
            final(self)@ == (NodeModel { hooks: seq![], ..old(self)@ }),
            final(active)@ == old(active)@ + active_hooks(old(self)@.hooks),
            final(discarded)@ == old(discarded)@ + inactive_hooks(old(self)@.hooks),
    {
        let ghost hooks = self.hooks@;
        assert(hooks.take(0) =~= seq![]);
        let mut k: usize = 0;
        while k < self.hooks.len()
            invariant
                k <= self.hooks.len(),
                *self == *old(self),
                hooks == self.hooks@,
                active@ =~= old(active)@ + active_hooks(hooks.take(k as int)),
                discarded@ =~= old(discarded)@ + inactive_hooks(hooks.take(k as int)),
            decreases self.hooks.len() - k,
        {
            proof {
                lemma_hooks_partition_step(hooks, k as int);
            }
            if self.hooks[k].is_active() {
                active.push(self.hooks[k].hook);
            } else {
                discarded.push(self.hooks[k].hook);
            }
            k += 1;
        }
        assert(hooks.take(k as int) =~= hooks);
        self.hooks = Vec::new();
        assert(self@.hooks =~= seq![]);
    }

    /// Takes every hook without running any.
    pub fn take_discarded_hooks(&mut self, discarded: &mut Vec<u64>)
        ensures
            final(self)@ == (NodeModel { hooks: seq![], ..old(self)@ }),
            final(discarded)@ == old(discarded)@ + hook_ids(old(self)@.hooks),
    {
        let mut k: usize = 0;
        while k < self.hooks.len()
            invariant
                k <= self.hooks.len(),
                *self == *old(self),
                discarded@ =~= old(discarded)@ + hook_ids(self.hooks@.take(k as int)),
            decreases self.hooks.len() - k,
        {
            discarded.push(self.hooks[k].hook);
            k += 1;
        }
        assert(self.hooks@.take(k as int) =~= self.hooks@);
        self.hooks = Vec::new();
        assert(self@.hooks =~= seq![]);
    }

    /// Forgets every child.
    pub fn take_live_children(&mut self)
        ensures
            final(self)@ == (NodeModel { children: seq![], ..old(self)@ }),
    {
        self.children = Vec::new();
        assert(self@.children =~= seq![]);
    }
}

/// Every token of one cancellation hierarchy.
pub struct CancellationTree {
    nodes: Vec<CancellationNode>,
    next_scope: u64,
}

/// Handle of one token in a [`CancellationTree`].
#[derive(Clone, Copy, Debug, PartialEq, Eq, Structural)]
pub struct CancellationToken {
    pub node: usize,
}

/// Lifetime of a hook that only one blocking call uses.
#[derive(Clone, Copy, Debug, PartialEq, Eq, Structural)]
pub struct CancellationHookRegistration {
    pub token: CancellationToken,
    pub scope: u64,
}

/// What a registration attempt asks of its caller.
#[derive(Clone, Copy, Debug, PartialEq, Eq, Structural)]
pub enum HookAdmission {
    /// The token's work has ended: the hook will never run.
    Ignored,
    /// The token is cancelled: run the hook now.
    InvokeNow,
    /// The hook is kept for a later cancellation.
    Registered,
}

/// Hooks set free by sealing part of a tree. Run `hooks` in order, each on its own, once the
/// caller's locks are released, and drop `discarded`.
pub struct CancellationPropagation {
    pub hooks: Vec<u64>,
    pub discarded: Vec<u64>,
}

/// The shape that a tree always has.
pub open spec fn tree_shape(tree: Seq<NodeModel>) -> bool {
    &&& tree.len() <= usize::MAX
    &&& forall|i: int|
        0 <= i < tree.len() ==> ((#[trigger] tree[i]).parent matches Some(p) ==> p < i)
    &&& forall|i: int, k: int|
        #![trigger tree[i].children[k]]
        0 <= i < tree.len() && 0 <= k < tree[i].children.len() ==> {
            let child = tree[i].children[k] as int;
            i < child < tree.len() && tree[child].parent == Some(i as usize)
        }
    &&& forall|i: int, j: int, k: int|
        #![trigger tree[i].children[j], tree[i].children[k]]
        0 <= i < tree.len() && 0 <= j < k < tree[i].children.len() ==> tree[i].children[j]
            < tree[i].children[k]
}

/// Which child links a tree holds: every child that a cancellation of its parent must reach.
pub open spec fn tree_linked(tree: Seq<NodeModel>) -> bool {
    forall|i: int|
        0 <= i < tree.len() ==> ((#[trigger] tree[i]).parent matches Some(p) ==> (
        tree[p as int].is_open() && tree[i].active && tree[i].live
            ==> tree[p as int].children.contains(i as usize)))
}

/// What cancellation has achieved: below a token that is not open, every live child whose work goes
/// on is cancelled; and a token that is not open keeps neither children nor hooks.
pub open spec fn tree_sealed(tree: Seq<NodeModel>) -> bool {
    &&& forall|i: int|
        0 <= i < tree.len() ==> ((#[trigger] tree[i]).parent matches Some(p) ==> (
        !tree[p as int].is_open() && tree[i].active && tree[i].live ==> tree[i].cancelled))
    &&& forall|i: int|
        0 <= i < tree.len() ==> (!(#[trigger] tree[i]).is_open() ==> tree[i].children.len() == 0
            && tree[i].hooks.len() == 0)
}

/// The invariant of every tree.
pub open spec fn tree_valid(tree: Seq<NodeModel>) -> bool {
    tree_shape(tree) && tree_linked(tree) && tree_sealed(tree)
}

/// Whether cancelling token `id` reaches token `n`: both are open, and every token on the way down
/// is open and live.
pub open spec fn reached(tree: Seq<NodeModel>, id: int, n: int) -> bool
    decreases n,
{
    &&& 0 <= id <= n < tree.len()
    &&& tree[n].is_open()
    &&& (n == id || (tree[n].live && (tree[n].parent matches Some(p) && p < n && reached(
        tree,
        id,
        p as int,
    ))))
}

/// The tokens that cancelling `id` reaches, parents before children and older children first.
pub open spec fn cancel_order(tree: Seq<NodeModel>, id: int) -> Seq<usize>
    decreases tree.len() - id, tree[id].children.len() + 1,
{
    if 0 <= id < tree.len() && tree[id].is_open() {
        seq![id as usize] + children_order(tree, id, tree[id].children.len())
    } else {
        seq![]
    }
}

/// The part of [`cancel_order`] that lies below the first `count` children of `id`.
pub open spec fn children_order(tree: Seq<NodeModel>, id: int, count: nat) -> Seq<usize>
    decreases tree.len() - id, count,
{
    if count == 0 {
        seq![]
    } else {
        let child = tree[id].children[count - 1] as int;
        children_order(tree, id, (count - 1) as nat) + if id < child < tree.len()
            && tree[child].live {
            cancel_order(tree, child)
        } else {
            seq![]
        }
    }
}

/// The hooks that run when the tokens of `order` are cancelled one after the other.
pub open spec fn released_hooks(tree: Seq<NodeModel>, order: Seq<usize>) -> Seq<u64>
    decreases order.len(),
{
    if order.len() == 0 {
        seq![]
    } else {
        released_hooks(tree, order.drop_last()) + active_hooks(tree[order.last() as int].hooks)
    }
}

/// The hooks that are dropped when the tokens of `order` are cancelled.
pub open spec fn dropped_hooks(tree: Seq<NodeModel>, order: Seq<usize>) -> Seq<u64>
    decreases order.len(),
{
    if order.len() == 0 {
        seq![]
    } else {
        dropped_hooks(tree, order.drop_last()) + inactive_hooks(tree[order.last() as int].hooks)
    }
}

/// The tree after token `id` was cancelled.
pub open spec fn cancelled_tree(tree: Seq<NodeModel>, id: int) -> Seq<NodeModel> {
    Seq::new(
        tree.len(),
        |i: int|
            if reached(tree, id, i) {
                tree[i].sealed()
            } else {
                tree[i]
            },
    )
}

/// The tree after the work of token `id` ended: what a cancellation would reach below it is
/// cancelled.
pub open spec fn ended_tree(tree: Seq<NodeModel>, id: int) -> Seq<NodeModel> {
    Seq::new(
        tree.len(),
        |i: int|
            if i == id {
                tree[i].ended()
            } else if reached(tree, id, i) {
                tree[i].sealed()
            } else {
                tree[i]
            },
    )
}

proof fn lemma_reached_through_child(tree: Seq<NodeModel>, id: int, child: int, n: int)
    requires
        tree_shape(tree),
        0 <= id < child < tree.len(),
        tree[id].is_open(),
        tree[child].live,
        tree[child].parent == Some(id as usize),
        reached(tree, child, n),
    ensures
        reached(tree, id, n),
    decreases n,
{
    assert(reached(tree, id, id));
    if n != child {
        let p = tree[n].parent->0 as int;
        lemma_reached_through_child(tree, id, child, p);
    }
}

proof fn lemma_reached_from_one_sibling(
    tree: Seq<NodeModel>,
    id: int,
    first: int,
    second: int,
    n: int,
)
    requires
        tree_shape(tree),
        0 <= id < first < tree.len(),
        id < second < tree.len(),
        tree[first].parent == Some(id as usize),
        tree[second].parent == Some(id as usize),
        reached(tree, first, n),
        reached(tree, second, n),
    ensures
        first == second,
    decreases n,
{
    if n != first && n != second {
        let p = tree[n].parent->0 as int;
        lemma_reached_from_one_sibling(tree, id, first, second, p);
    } else if first != second {
        // The other sibling would have to lie on the way up from `n`, above `id`.
        assert(tree[n].parent == Some(id as usize));
        if n == first {
            assert(reached(tree, second, id));
        } else {
            assert(reached(tree, first, id));
        }
    }
}

pub(crate) proof fn lemma_order_is_reached(tree: Seq<NodeModel>, id: int, n: usize)
    requires
        tree_shape(tree),
        cancel_order(tree, id).contains(n),
    ensures
        reached(tree, id, n as int),
    decreases tree.len() - id, tree[id].children.len() + 1,
{
    let below = children_order(tree, id, tree[id].children.len());
    let k = choose|k: int| 0 <= k < cancel_order(tree, id).len() && cancel_order(tree, id)[k] == n;
    if k > 0 {
        assert(below[k - 1] == n);
        lemma_children_order_is_reached(tree, id, tree[id].children.len(), n);
    }
}

proof fn lemma_children_order_is_reached(tree: Seq<NodeModel>, id: int, count: nat, n: usize)
    requires
        tree_shape(tree),
        0 <= id < tree.len(),
        tree[id].is_open(),
        count <= tree[id].children.len(),
        children_order(tree, id, count).contains(n),
    ensures
        reached(tree, id, n as int),
        id < n,
        exists|k: int|
            #![trigger tree[id].children[k]]
            0 <= k < count && tree[tree[id].children[k] as int].live && cancel_order(
                tree,
                tree[id].children[k] as int,
            ).contains(n),
    decreases tree.len() - id, count,
{
    let child = tree[id].children[count - 1] as int;
    let before = children_order(tree, id, (count - 1) as nat);
    let last = if tree[child].live {
        cancel_order(tree, child)
    } else {
        seq![]
    };
    assert(children_order(tree, id, count) == before + last);
    let at = choose|k: int| 0 <= k < (before + last).len() && (before + last)[k] == n;
    if at < before.len() {
        assert(before[at] == n);
        lemma_children_order_is_reached(tree, id, (count - 1) as nat, n);
        let k = choose|k: int|
            #![trigger tree[id].children[k]]
            0 <= k < count - 1 && tree[tree[id].children[k] as int].live && cancel_order(
                tree,
                tree[id].children[k] as int,
            ).contains(n);
        assert(0 <= k < count && cancel_order(tree, tree[id].children[k] as int).contains(n));
    } else {
        assert(last[at - before.len()] == n);
        assert(cancel_order(tree, child).contains(n));
        lemma_order_is_reached(tree, child, n);
        lemma_reached_through_child(tree, id, child, n as int);
        assert(cancel_order(tree, tree[id].children[count - 1] as int).contains(n));
    }
}

proof fn lemma_children_order_contains(tree: Seq<NodeModel>, id: int, count: nat, k: int, n: usize)
    requires
        tree_shape(tree),
        0 <= id < tree.len(),
        0 <= k < count <= tree[id].children.len(),
        tree[tree[id].children[k] as int].live,
        cancel_order(tree, tree[id].children[k] as int).contains(n),
    ensures
        children_order(tree, id, count).contains(n),
    decreases count,
{
    let child = tree[id].children[count - 1] as int;
    let before = children_order(tree, id, (count - 1) as nat);
    let last = if tree[child].live {
        cancel_order(tree, child)
    } else {
        seq![]
    };
    assert(children_order(tree, id, count) == before + last);
    if k == count - 1 {
        let at = choose|at: int| 0 <= at < last.len() && last[at] == n;
        assert((before + last)[before.len() + at] == n);
    } else {
        lemma_children_order_contains(tree, id, (count - 1) as nat, k, n);
        let at = choose|at: int| 0 <= at < before.len() && before[at] == n;
        assert((before + last)[at] == n);
    }
}

proof fn lemma_order_is_closed(tree: Seq<NodeModel>, id: int, p: usize, k: int)
    requires
        tree_shape(tree),
        cancel_order(tree, id).contains(p),
        0 <= k < tree[p as int].children.len(),
        tree[tree[p as int].children[k] as int].live,
        tree[tree[p as int].children[k] as int].is_open(),
    ensures
        cancel_order(tree, id).contains(tree[p as int].children[k]),
    decreases tree.len() - id,
{
    let n = tree[p as int].children[k];
    let count = tree[id].children.len();
    let below = children_order(tree, id, count);
    let order = cancel_order(tree, id);
    assert(order == seq![id as usize] + below);
    lemma_order_is_reached(tree, id, p);
    assert(cancel_order(tree, n as int)[0] == n);
    if p == id {
        lemma_children_order_contains(tree, id, count, k, n);
    } else {
        let at = choose|at: int| 0 <= at < order.len() && order[at] == p;
        assert(below[at - 1] == p);
        lemma_children_order_is_reached(tree, id, count, p);
        let j = choose|j: int|
            #![trigger tree[id].children[j]]
            0 <= j < count && tree[tree[id].children[j] as int].live && cancel_order(
                tree,
                tree[id].children[j] as int,
            ).contains(p);
        lemma_order_is_closed(tree, tree[id].children[j] as int, p, k);
        lemma_children_order_contains(tree, id, count, j, n);
    }
    let at = choose|at: int| 0 <= at < below.len() && below[at] == n;
    assert(order[at + 1] == n);
}

proof fn lemma_reached_is_in_order(tree: Seq<NodeModel>, id: int, n: int)
    requires
        tree_valid(tree),
        reached(tree, id, n),
    ensures
        cancel_order(tree, id).contains(n as usize),
    decreases n,
{
    if n == id {
        assert(cancel_order(tree, id)[0] == n as usize);
    } else {
        let p = tree[n].parent->0;
        lemma_reached_is_in_order(tree, id, p as int);
        assert(tree[p as int].children.contains(n as usize));
        let k = choose|k: int|
            0 <= k < tree[p as int].children.len() && tree[p as int].children[k] == n as usize;
        lemma_order_is_closed(tree, id, p, k);
    }
}

proof fn lemma_order_has_no_duplicates(tree: Seq<NodeModel>, id: int)
    requires
        tree_shape(tree),
    ensures
        cancel_order(tree, id).no_duplicates(),
    decreases tree.len() - id, tree[id].children.len() + 1,
{
    if 0 <= id < tree.len() && tree[id].is_open() {
        let count = tree[id].children.len();
        let below = children_order(tree, id, count);
        lemma_children_order_has_no_duplicates(tree, id, count);
        assert forall|i: int| 0 <= i < below.len() implies below[i] != id by {
            assert(below.contains(below[i]));
            lemma_children_order_is_reached(tree, id, count, below[i]);
        }
        assert(cancel_order(tree, id) == seq![id as usize] + below);
    }
}

proof fn lemma_children_order_has_no_duplicates(tree: Seq<NodeModel>, id: int, count: nat)
    requires
        tree_shape(tree),
        0 <= id < tree.len(),
        tree[id].is_open(),
        count <= tree[id].children.len(),
    ensures
        children_order(tree, id, count).no_duplicates(),
    decreases tree.len() - id, count,
{
    if count > 0 {
        let child = tree[id].children[count - 1] as int;
        let before = children_order(tree, id, (count - 1) as nat);
        lemma_children_order_has_no_duplicates(tree, id, (count - 1) as nat);
        if tree[child].live {
            let last = cancel_order(tree, child);
            lemma_order_has_no_duplicates(tree, child);
            assert forall|i: int, j: int|
                0 <= i < before.len() && 0 <= j < last.len() implies before[i] != last[j] by {
                let n = before[i];
                assert(before.contains(n));
                lemma_children_order_is_reached(tree, id, (count - 1) as nat, n);
                let k = choose|k: int|
                    #![trigger tree[id].children[k]]
                    0 <= k < count - 1 && tree[tree[id].children[k] as int].live && cancel_order(
                        tree,
                        tree[id].children[k] as int,
                    ).contains(n);
                let older = tree[id].children[k] as int;
                lemma_order_is_reached(tree, older, n);
                if last[j] == n {
                    assert(last.contains(n));
                    lemma_order_is_reached(tree, child, n);
                    lemma_reached_from_one_sibling(tree, id, older, child, n as int);
                }
            }
            assert(children_order(tree, id, count) == before + last);
        } else {
            assert(children_order(tree, id, count) =~= before);
        }
    }
}

/// The children that are still worth remembering.
pub open spec fn kept_children(tree: Seq<NodeModel>, children: Seq<usize>) -> Seq<usize>
    decreases children.len(),
{
    if children.len() == 0 {
        seq![]
    } else {
        let last = tree[children.last() as int];
        if last.live && last.active {
            kept_children(tree, children.drop_last()).push(children.last())
        } else {
            kept_children(tree, children.drop_last())
        }
    }
}

/// The hooks whose scope still holds.
pub open spec fn kept_hooks(hooks: Seq<CancelHookEntry>) -> Seq<CancelHookEntry>
    decreases hooks.len(),
{
    if hooks.len() == 0 {
        seq![]
    } else if hooks.last().active {
        kept_hooks(hooks.drop_last()).push(hooks.last())
    } else {
        kept_hooks(hooks.drop_last())
    }
}

pub(crate) proof fn lemma_first_hook_is_kept(hooks: Seq<CancelHookEntry>)
    requires
        hooks.len() > 0,
        hooks[0].active,
    ensures
        kept_hooks(hooks).len() > 0,
        kept_hooks(hooks)[0] == hooks[0],
    decreases hooks.len(),
{
    if hooks.len() > 1 {
        lemma_first_hook_is_kept(hooks.drop_last());
    } else {
        assert(kept_hooks(hooks.drop_last()).len() == 0);
    }
}

/// The hooks after one scope ended.
pub open spec fn without_scope(hooks: Seq<CancelHookEntry>, scope: u64) -> Seq<CancelHookEntry> {
    hooks.map_values(
        |entry: CancelHookEntry|
            if entry.scope == Some(scope) {
                CancelHookEntry { active: false, ..entry }
            } else {
                entry
            },
    )
}

/// A new token below `parent`.
pub open spec fn fresh_node(owner: Option<RuntimeId>, parent: Option<usize>) -> NodeModel {
    NodeModel {
        owner,
        parent,
        active: true,
        cancelled: false,
        live: true,
        children: seq![],
        hooks: seq![],
    }
}

pub(crate) proof fn lemma_kept_children(tree: Seq<NodeModel>, children: Seq<usize>)
    requires
        forall|j: int, k: int|
            #![trigger children[j], children[k]]
            0 <= j < k < children.len() ==> children[j] < children[k],
    ensures
        forall|n: usize|
            #![trigger kept_children(tree, children).contains(n)]
            kept_children(tree, children).contains(n) <==> children.contains(n)
                && tree[n as int].live && tree[n as int].active,
        forall|j: int, k: int|
            #![trigger kept_children(tree, children)[j], kept_children(tree, children)[k]]
            0 <= j < k < kept_children(tree, children).len() ==> kept_children(tree, children)[j]
                < kept_children(tree, children)[k],
    decreases children.len(),
{
    if children.len() > 0 {
        let rest = children.drop_last();
        let kept = kept_children(tree, rest);
        lemma_kept_children(tree, rest);
        let all = kept_children(tree, children);
        let last = children.last();
        assert forall|n: usize| #![trigger all.contains(n)]
            all.contains(n) <==> children.contains(n) && tree[n as int].live
                && tree[n as int].active by {
            if children.contains(n) && tree[n as int].live && tree[n as int].active {
                let k = choose|k: int| 0 <= k < children.len() && children[k] == n;
                if k < rest.len() {
                    assert(rest[k] == n);
                    assert(kept.contains(n));
                    let j = choose|j: int| 0 <= j < kept.len() && kept[j] == n;
                    assert(all[j] == n);
                } else {
                    assert(all.last() == n);
                }
            }
            if all.contains(n) {
                let j = choose|j: int| 0 <= j < all.len() && all[j] == n;
                if j < kept.len() {
                    assert(kept[j] == n);
                    assert(kept.contains(n));
                    let k = choose|k: int| 0 <= k < rest.len() && rest[k] == n;
                    assert(children[k] == n);
                } else {
                    assert(n == last);
                    assert(children[children.len() - 1] == n);
                }
            }
        }
        assert forall|j: int, k: int| #![trigger all[j], all[k]]
            0 <= j < k < all.len() implies all[j] < all[k] by {
            if k == kept.len() {
                assert(kept.contains(kept[j]));
                let i = choose|i: int| 0 <= i < rest.len() && rest[i] == kept[j];
                assert(children[i] < children[children.len() - 1]);
            } else {
                assert(kept[j] < kept[k]);
            }
        }
    }
}

proof fn lemma_cancelled_tree_is_valid(tree: Seq<NodeModel>, id: int)
    requires
        tree_valid(tree),
    ensures
        tree_valid(cancelled_tree(tree, id)),
{
    let after = cancelled_tree(tree, id);
    assert forall|i: int| 0 <= i < after.len() implies ((#[trigger] after[i]).parent matches Some(p)
        ==> (!after[p as int].is_open() && after[i].active && after[i].live
        ==> after[i].cancelled)) by {
        assert(tree[i].parent == after[i].parent);
        if let Some(p) = tree[i].parent {
            if reached(tree, id, p as int) && tree[i].is_open() && tree[i].live {
                assert(reached(tree, id, i));
            }
        }
    }
    assert forall|i: int| 0 <= i < after.len() implies ((#[trigger] after[i]).parent matches Some(p)
        ==> (after[p as int].is_open() && after[i].active && after[i].live
        ==> after[p as int].children.contains(i as usize))) by {
        assert(tree[i].parent == after[i].parent);
    }
}

proof fn lemma_ended_tree_is_valid(tree: Seq<NodeModel>, id: int)
    requires
        tree_valid(tree),
        0 <= id < tree.len(),
    ensures
        tree_valid(ended_tree(tree, id)),
{
    let after = ended_tree(tree, id);
    assert forall|i: int| 0 <= i < after.len() implies ((#[trigger] after[i]).parent matches Some(p)
        ==> (!after[p as int].is_open() && after[i].active && after[i].live
        ==> after[i].cancelled)) by {
        assert(tree[i].parent == after[i].parent);
        if let Some(p) = tree[i].parent {
            if tree[p as int].is_open() && !after[p as int].is_open() && tree[i].is_open()
                && tree[i].live {
                assert(reached(tree, id, p as int));
                assert(reached(tree, id, i));
            }
        }
    }
    assert forall|i: int| 0 <= i < after.len() implies ((#[trigger] after[i]).parent matches Some(p)
        ==> (after[p as int].is_open() && after[i].active && after[i].live
        ==> after[p as int].children.contains(i as usize))) by {
        assert(tree[i].parent == after[i].parent);
    }
}

impl View for CancellationTree {
    type V = Seq<NodeModel>;

    closed spec fn view(&self) -> Seq<NodeModel> {
        self.nodes@.map_values(|node: CancellationNode| node@)
    }
}

impl CancellationTree {
    /// How many scoped hooks were registered so far.
    pub closed spec fn scopes(&self) -> u64 {
        self.next_scope
    }

    /// The tree's invariant.
    pub open spec fn valid(&self) -> bool {
        &&& tree_valid(self@)
        &&& forall|i: int, k: int|
            #![trigger self@[i].hooks[k]]
            0 <= i < self@.len() && 0 <= k < self@[i].hooks.len() ==> (
            self@[i].hooks[k].scope matches Some(scope) ==> scope < self.scopes())
    }

    /// Whether `token` belongs to this tree.
    pub open spec fn holds(&self, token: CancellationToken) -> bool {
        token.node < self@.len()
    }

    /// Creates a hierarchy without tokens.
    pub fn new() -> (tree: Self)
        ensures
            tree.valid(),
            tree@ == Seq::<NodeModel>::empty(),
            tree.scopes() == 0,
    {
        let tree = CancellationTree { nodes: Vec::new(), next_scope: 0 };
        assert(tree@ =~= Seq::<NodeModel>::empty());
        tree
    }

    /// Returns how many tokens were ever created.
    pub fn len(&self) -> (len: usize)
        ensures
            len == self@.len(),
    {
        self.nodes.len()
    }

    /// Returns whether another scoped hook can be numbered.
    pub fn scopes_left(&self) -> (left: bool)
        ensures
            left == (self.scopes() < u64::MAX),
    {
        self.next_scope < u64::MAX
    }

    fn collect(&self, id: usize, order: &mut Vec<usize>)
        requires
            tree_shape(self@),
            id < self@.len(),
        ensures
            final(order)@ == old(order)@ + cancel_order(self@, id as int),
        decreases self@.len() - id,
    {
        let ghost tree = self@;
        assert(tree[id as int] == self.nodes[id as int]@);
        if !cancellation_admission_open(self.nodes[id].active, self.nodes[id].cancelled) {
            assert(old(order)@ + cancel_order(tree, id as int) =~= old(order)@);
            return;
        }
        order.push(id);
        let ghost start = order@;
        assert(children_order(tree, id as int, 0) =~= seq![]);
        let mut k: usize = 0;
        while k < self.nodes[id].children.len()
            invariant
                tree == self@,
                tree_shape(tree),
                id < tree.len(),
                tree[id as int] == self.nodes[id as int]@,
                k <= self.nodes[id as int].children.len(),
                order@ =~= start + children_order(tree, id as int, k as nat),
            decreases self.nodes[id as int].children.len() - k,
        {
            let child: usize = self.nodes[id].children[k];
            assert(tree[id as int].children[k as int] == child);
            assert(tree[child as int] == self.nodes[child as int]@);
            if self.nodes[child].live {
                self.collect(child, order);
            }
            k += 1;
        }
        assert(order@ =~= old(order)@ + cancel_order(tree, id as int));
    }

    fn collect_children(&self, id: usize, order: &mut Vec<usize>)
        requires
            tree_shape(self@),
            id < self@.len(),
        ensures
            final(order)@ == old(order)@ + children_order(
                self@,
                id as int,
                self@[id as int].children.len(),
            ),
    {
        let ghost tree = self@;
        let ghost start = order@;
        assert(tree[id as int] == self.nodes[id as int]@);
        assert(children_order(tree, id as int, 0) =~= seq![]);
        let mut k: usize = 0;
        while k < self.nodes[id].children.len()
            invariant
                tree == self@,
                tree_shape(tree),
                id < tree.len(),
                tree[id as int] == self.nodes[id as int]@,
                k <= self.nodes[id as int].children.len(),
                order@ =~= start + children_order(tree, id as int, k as nat),
            decreases self.nodes[id as int].children.len() - k,
        {
            let child: usize = self.nodes[id].children[k];
            assert(tree[id as int].children[k as int] == child);
            assert(tree[child as int] == self.nodes[child as int]@);
            if self.nodes[child].live {
                self.collect(child, order);
            }
            k += 1;
        }
    }

    fn seal(
        &mut self,
        order: &Vec<usize>,
        hooks: &mut Vec<u64>,
        discarded: &mut Vec<u64>,
    )
        requires
            order@.no_duplicates(),
            forall|k: int| 0 <= k < order@.len() ==> (#[trigger] order@[k]) < old(self)@.len(),
        ensures
            final(self)@ == Seq::new(
                old(self)@.len(),
                |i: int|
                    if order@.contains(i as usize) {
                        old(self)@[i].sealed()
                    } else {
                        old(self)@[i]
                    },
            ),
            final(self).scopes() == old(self).scopes(),
            final(hooks)@ == old(hooks)@ + released_hooks(old(self)@, order@),
            final(discarded)@ == old(discarded)@ + dropped_hooks(old(self)@, order@),
    {
        let ghost tree = self@;
        assert(order@.take(0) =~= seq![]);
        assert(tree.len() == self.nodes.len());
        let mut k: usize = 0;
        while k < order.len()
            invariant
                k <= order.len(),
                tree.len() <= usize::MAX,
                tree == old(self)@,
                self@.len() == tree.len(),
                self.next_scope == old(self).next_scope,
                order@.no_duplicates(),
                forall|j: int| 0 <= j < order@.len() ==> (#[trigger] order@[j]) < tree.len(),
                forall|i: int|
                    0 <= i < tree.len() ==> (#[trigger] self@[i]) == if order@.take(
                        k as int,
                    ).contains(i as usize) {
                        tree[i].sealed()
                    } else {
                        tree[i]
                    },
                hooks@ =~= old(hooks)@ + released_hooks(tree, order@.take(k as int)),
                discarded@ =~= old(discarded)@ + dropped_hooks(tree, order@.take(k as int)),
            decreases order.len() - k,
        {
            let id: usize = order[k];
            let ghost before = self@;
            let ghost done = order@.take(k as int);
            let ghost next = order@.take(k + 1);
            proof {
                assert(self.nodes@.len() == tree.len());
                assert(before[id as int] == self.nodes[id as int]@);
                if done.contains(id) {
                    let j = choose|j: int| 0 <= j < done.len() && done[j] == id;
                    assert(order@[j] == order@[k as int]);
                }
                assert(next.drop_last() =~= done);
                assert(next.last() == id);
            }
            let node = &mut self.nodes[id];
            let _ = node.claim_cancel();
            node.take_active_hooks(hooks, discarded);
            node.take_live_children();
            proof {
                assert(self@ =~= before.update(id as int, tree[id as int].sealed()));
                assert forall|i: int| 0 <= i < tree.len() implies (#[trigger] self@[i])
                    == if next.contains(i as usize) {
                    tree[i].sealed()
                } else {
                    tree[i]
                } by {
                    if i == id {
                        assert(next[k as int] == id);
                    } else if done.contains(i as usize) {
                        let j = choose|j: int| 0 <= j < done.len() && done[j] == i as usize;
                        assert(next[j] == i as usize);
                    } else if next.contains(i as usize) {
                        let j = choose|j: int| 0 <= j < next.len() && next[j] == i as usize;
                        assert(done[j] == i as usize);
                    }
                }
            }
            k += 1;
        }
        assert(order@.take(k as int) =~= order@);
        assert(self@ =~= Seq::new(
            tree.len(),
            |i: int|
                if order@.contains(i as usize) {
                    tree[i].sealed()
                } else {
                    tree[i]
                },
        ));
    }
}

/// Cancels `node` and everything that its cancellation reaches.
///
/// The hooks to run are appended to `hooks`, parents before children, and the hooks whose scope has
/// ended to `discarded`.
pub fn seal_cancelled_tree(
    tree: &mut CancellationTree,
    node: CancellationToken,
    hooks: &mut Vec<u64>,
    discarded: &mut Vec<u64>,
)
    requires
        old(tree).valid(),
        old(tree).holds(node),
    ensures
        final(tree).valid(),
        final(tree)@ == cancelled_tree(old(tree)@, node.node as int),
        final(tree).scopes() == old(tree).scopes(),
        final(hooks)@ == old(hooks)@ + released_hooks(
            old(tree)@,
            cancel_order(old(tree)@, node.node as int),
        ),
        final(discarded)@ == old(discarded)@ + dropped_hooks(
            old(tree)@,
            cancel_order(old(tree)@, node.node as int),
        ),
{
    let ghost before = tree@;
    let ghost id = node.node as int;
    let mut order: Vec<usize> = Vec::new();
    tree.collect(node.node, &mut order);
    proof {
        assert(order@ =~= cancel_order(before, id));
        lemma_order_has_no_duplicates(before, id);
        assert forall|k: int| 0 <= k < order@.len() implies (#[trigger] order@[k])
            < before.len() by {
            assert(order@.contains(order@[k]));
            lemma_order_is_reached(before, id, order@[k]);
        }
    }
    tree.seal(&order, hooks, discarded);
    proof {
        assert forall|i: int| 0 <= i < before.len() implies (order@.contains(i as usize)
            <==> #[trigger] reached(before, id, i)) by {
            if order@.contains(i as usize) {
                lemma_order_is_reached(before, id, i as usize);
            }
            if reached(before, id, i) {
                lemma_reached_is_in_order(before, id, i);
            }
        }
        assert(tree@ =~= cancelled_tree(before, id));
        lemma_cancelled_tree_is_valid(before, id);
    }
}

/// Ends the work of `node`: its own hooks are dropped, and everything below it is cancelled.
pub fn seal_deactivated_tree(
    tree: &mut CancellationTree,
    node: CancellationToken,
    hooks: &mut Vec<u64>,
    discarded: &mut Vec<u64>,
)
    requires
        old(tree).valid(),
        old(tree).holds(node),
    ensures
        final(tree).valid(),
        final(tree)@ == ended_tree(old(tree)@, node.node as int),
        final(tree).scopes() == old(tree).scopes(),
        final(hooks)@ == old(hooks)@ + released_hooks(
            old(tree)@,
            children_order(
                old(tree)@,
                node.node as int,
                old(tree)@[node.node as int].children.len(),
            ),
        ),
        final(discarded)@ == old(discarded)@ + hook_ids(old(tree)@[node.node as int].hooks)
            + dropped_hooks(
            old(tree)@,
            children_order(
                old(tree)@,
                node.node as int,
                old(tree)@[node.node as int].children.len(),
            ),
        ),
{
    let ghost before = tree@;
    let ghost id = node.node as int;
    let ghost count = before[id].children.len();
    let mut order: Vec<usize> = Vec::new();
    tree.collect_children(node.node, &mut order);
    proof {
        assert(before[id] == tree.nodes[id]@);
        assert(order@ =~= children_order(before, id, count));
        if count > 0 {
            lemma_children_order_has_no_duplicates(before, id, count);
        } else {
            assert(order@ =~= seq![]);
        }
        assert forall|k: int| 0 <= k < order@.len() implies (#[trigger] order@[k])
            < before.len() && order@[k] != id && reached(before, id, order@[k] as int) by {
            assert(order@.contains(order@[k]));
            lemma_children_order_is_reached(before, id, count, order@[k]);
        }
    }
    let target = &mut tree.nodes[node.node];
    if !target.claim_deactivate() {
        proof {
            assert(before[id].ended() =~= before[id]);
            assert forall|i: int| 0 <= i < before.len() implies !#[trigger] reached(before, id, i)
                by {
                if reached(before, id, i) {
                    lemma_reached_is_in_order(before, id, i);
                }
            }
            assert(tree@ =~= before);
            assert(ended_tree(before, id) =~= before);
            assert(children_order(before, id, count) =~= seq![]);
            assert(hook_ids(before[id].hooks) =~= seq![]);
            assert(hooks@ =~= old(hooks)@ + released_hooks(before, seq![]));
            assert(discarded@ =~= old(discarded)@ + hook_ids(before[id].hooks) + dropped_hooks(
                before,
                seq![],
            ));
        }
        return;
    }
    target.take_discarded_hooks(discarded);
    target.take_live_children();
    let ghost middle = tree@;
    assert(middle =~= before.update(id, before[id].ended()));
    tree.seal(&order, hooks, discarded);
    proof {
        assert forall|i: int| 0 <= i < before.len() && i != id implies (order@.contains(i as usize)
            <==> #[trigger] reached(before, id, i)) by {
            if order@.contains(i as usize) {
                let k = choose|k: int| 0 <= k < order@.len() && order@[k] == i as usize;
                assert(reached(before, id, order@[k] as int));
            }
            if reached(before, id, i) {
                lemma_reached_is_in_order(before, id, i);
                let whole = cancel_order(before, id);
                let k = choose|k: int| 0 <= k < whole.len() && whole[k] == i as usize;
                assert(whole == seq![id as usize] + children_order(before, id, count));
                assert(order@[k - 1] == i as usize);
            }
        }
        assert(!order@.contains(id as usize));
        assert(tree@ =~= ended_tree(before, id));
        lemma_ended_tree_is_valid(before, id);
        lemma_hooks_agree(before, middle, order@);
        assert(discarded@ =~= old(discarded)@ + hook_ids(before[id].hooks) + dropped_hooks(
            before,
            order@,
        ));
    }
}

proof fn lemma_hooks_agree(left: Seq<NodeModel>, right: Seq<NodeModel>, order: Seq<usize>)
    requires
        forall|k: int|
            0 <= k < order.len() ==> left[(#[trigger] order[k]) as int].hooks
                == right[order[k] as int].hooks,
    ensures
        released_hooks(left, order) == released_hooks(right, order),
        dropped_hooks(left, order) == dropped_hooks(right, order),
    decreases order.len(),
{
    if order.len() > 0 {
        assert forall|k: int| 0 <= k < order.drop_last().len() implies left[(
        #[trigger] order.drop_last()[k]) as int].hooks == right[order.drop_last()[k] as int].hooks by {
            assert(order[k] == order.drop_last()[k]);
        }
        lemma_hooks_agree(left, right, order.drop_last());
        assert(order[order.len() - 1] == order.last());
    }
}

impl CancellationToken {
    /// Creates an uncancelled root token without an owning Runtime.
    pub fn root(tree: &mut CancellationTree) -> (token: Self)
        requires
            old(tree).valid(),
            old(tree)@.len() < usize::MAX,
        ensures
            final(tree).valid(),
            token.node == old(tree)@.len(),
            final(tree)@ == old(tree)@.push(fresh_node(None, None)),
            final(tree).scopes() == old(tree).scopes(),
    {
        Self::root_with_owner(tree, None)
    }

    /// Creates the root token of one Runtime.
    pub fn root_for_runtime(tree: &mut CancellationTree, owner: RuntimeId) -> (token: Self)
        requires
            old(tree).valid(),
            old(tree)@.len() < usize::MAX,
        ensures
            final(tree).valid(),
            token.node == old(tree)@.len(),
            final(tree)@ == old(tree)@.push(fresh_node(Some(owner), None)),
            final(tree).scopes() == old(tree).scopes(),
    {
        Self::root_with_owner(tree, Some(owner))
    }

    fn root_with_owner(tree: &mut CancellationTree, owner: Option<RuntimeId>) -> (token: Self)
        requires
            old(tree).valid(),
            old(tree)@.len() < usize::MAX,
        ensures
            final(tree).valid(),
            token.node == old(tree)@.len(),
            final(tree)@ == old(tree)@.push(fresh_node(owner, None)),
            final(tree).scopes() == old(tree).scopes(),
    {
        let ghost before = tree@;
        let node: usize = tree.nodes.len();
        tree.nodes.push(CancellationNode::new(owner, None));
        proof {
            assert(tree@ =~= before.push(fresh_node(owner, None)));
            lemma_push_keeps_tree_valid(before, fresh_node(owner, None));
        }
        CancellationToken { node }
    }

    /// Creates a child that is cancelled with this token; below a token that has ended or is
    /// cancelled, a child that is cancelled from the start and remembered nowhere.
    pub fn child(&self, tree: &mut CancellationTree) -> (token: Self)
        requires
            old(tree).valid(),
            old(tree).holds(*self),
            old(tree)@.len() < usize::MAX,
        ensures
            final(tree).valid(),
            token.node == old(tree)@.len(),
            final(tree).scopes() == old(tree).scopes(),
            final(tree)@ == if old(tree)@[self.node as int].is_open() {
                with_child(old(tree)@, self.node)
            } else {
                old(tree)@.push(fresh_node(old(tree)@[self.node as int].owner, None).sealed())
            },
    {
        let ghost before = tree@;
        match self.try_child(tree) {
            Some(child) => child,
            None => {
                assert(tree.nodes[self.node as int]@ == before[self.node as int]);
                let owner = tree.nodes[self.node].owner;
                let child = Self::root_with_owner(tree, owner);
                let ghost id = child.node as int;
                let ghost middle = tree@;
                let _ = child.cancel(tree);
                proof {
                    assert forall|i: int| 0 <= i < middle.len() && i != id implies !reached(
                        middle,
                        id,
                        i,
                    ) by {}
                    assert(reached(middle, id, id));
                    assert(tree@ =~= before.push(
                        fresh_node(before[self.node as int].owner, None).sealed(),
                    ));
                }
                child
            },
        }
    }

    /// Creates a child that is cancelled with this token; none below a token that has ended or is
    /// cancelled. History of ended and dropped children is pruned on the way.
    pub fn try_child(&self, tree: &mut CancellationTree) -> (token: Option<Self>)
        requires
            old(tree).valid(),
            old(tree).holds(*self),
            old(tree)@.len() < usize::MAX,
        ensures
            final(tree).valid(),
            final(tree).scopes() == old(tree).scopes(),
            token is Some <==> old(tree)@[self.node as int].is_open(),
            token matches Some(token) ==> token.node == old(tree)@.len() && final(tree)@
                == with_child(old(tree)@, self.node),
            token is None ==> final(tree)@ == old(tree)@,
    {
        let ghost before = tree@;
        let ghost id = self.node as int;
        let parent: usize = self.node;
        assert(before[id] == tree.nodes[id]@);
        if !cancellation_admission_open(tree.nodes[parent].active, tree.nodes[parent].cancelled) {
            return None;
        }
        let ghost all = before[id].children;
        let mut kept: Vec<usize> = Vec::new();
        let mut k: usize = 0;
        assert(all.take(0) =~= seq![]);
        assert(kept_children(before, seq![]) =~= seq![]);
        while k < tree.nodes[parent].children.len()
            invariant
                k <= tree.nodes[parent as int].children.len(),
                before == tree@,
                tree_shape(before),
                parent == id,
                parent < before.len(),
                before[id] == tree.nodes[id]@,
                all == before[id].children,
                kept@ =~= kept_children(before, all.take(k as int)),
            decreases tree.nodes[parent as int].children.len() - k,
        {
            let child: usize = tree.nodes[parent].children[k];
            proof {
                assert(all[k as int] == child);
                assert(before[child as int] == tree.nodes[child as int]@);
                assert(all.take(k + 1).drop_last() =~= all.take(k as int));
                assert(all.take(k + 1).last() == child);
            }
            if tree.nodes[child].live && tree.nodes[child].is_active() {
                kept.push(child);
            }
            k += 1;
        }
        assert(all.take(k as int) =~= all);
        let node: usize = tree.nodes.len();
        kept.push(node);
        let owner = tree.nodes[parent].owner;
        let target = &mut tree.nodes[parent];
        target.children = kept;
        tree.nodes.push(CancellationNode::new(owner, Some(parent)));
        proof {
            assert(tree@ =~= with_child(before, self.node));
            lemma_child_keeps_tree_valid(before, self.node);
        }
        Some(CancellationToken { node })
    }

    /// Returns whether this token is cancelled.
    pub fn is_cancelled(&self, tree: &CancellationTree) -> (cancelled: bool)
        requires
            tree.holds(*self),
        ensures
            cancelled == tree@[self.node as int].cancelled,
    {
        tree.nodes[self.node].cancelled
    }

    /// Returns whether this token's work has not ended.
    pub fn is_active(&self, tree: &CancellationTree) -> (active: bool)
        requires
            tree.holds(*self),
        ensures
            active == tree@[self.node as int].active,
    {
        tree.nodes[self.node].is_active()
    }

    /// Returns the Runtime that owns this token.
    pub fn owner(&self, tree: &CancellationTree) -> (owner: Option<RuntimeId>)
        requires
            tree.holds(*self),
        ensures
            owner == tree@[self.node as int].owner,
    {
        tree.nodes[self.node].owner
    }

    /// Returns how many children this token remembers.
    pub fn child_count(&self, tree: &CancellationTree) -> (count: usize)
        requires
            tree.holds(*self),
        ensures
            count == tree@[self.node as int].children.len(),
    {
        tree.nodes[self.node].children.len()
    }

    /// Returns how many hooks this token keeps.
    pub fn hook_count(&self, tree: &CancellationTree) -> (count: usize)
        requires
            tree.holds(*self),
        ensures
            count == tree@[self.node as int].hooks.len(),
    {
        tree.nodes[self.node].hooks.len()
    }

    /// Cancels this token and every live descendant exactly once, and returns the hooks to run.
    pub fn cancel(&self, tree: &mut CancellationTree) -> (propagation: CancellationPropagation)
        requires
            old(tree).valid(),
            old(tree).holds(*self),
        ensures
            final(tree).valid(),
            final(tree)@ == cancelled_tree(old(tree)@, self.node as int),
            final(tree).scopes() == old(tree).scopes(),
            propagation.hooks@ == released_hooks(
                old(tree)@,
                cancel_order(old(tree)@, self.node as int),
            ),
            propagation.discarded@ == dropped_hooks(
                old(tree)@,
                cancel_order(old(tree)@, self.node as int),
            ),
    {
        let mut hooks: Vec<u64> = Vec::new();
        let mut discarded: Vec<u64> = Vec::new();
        let ghost before = tree@;
        seal_cancelled_tree(tree, *self, &mut hooks, &mut discarded);
        assert(hooks@ =~= released_hooks(before, cancel_order(before, self.node as int)));
        assert(discarded@ =~= dropped_hooks(before, cancel_order(before, self.node as int)));
        CancellationPropagation { hooks, discarded }
    }

    /// Ends this token's work: its own hooks never run, and its live descendants are cancelled.
    pub fn deactivate(&self, tree: &mut CancellationTree) -> (propagation: CancellationPropagation)
        requires
            old(tree).valid(),
            old(tree).holds(*self),
        ensures
            final(tree).valid(),
            final(tree)@ == ended_tree(old(tree)@, self.node as int),
            final(tree).scopes() == old(tree).scopes(),
            propagation.hooks@ == released_hooks(
                old(tree)@,
                children_order(
                    old(tree)@,
                    self.node as int,
                    old(tree)@[self.node as int].children.len(),
                ),
            ),
            propagation.discarded@ == hook_ids(old(tree)@[self.node as int].hooks) + dropped_hooks(
                old(tree)@,
                children_order(
                    old(tree)@,
                    self.node as int,
                    old(tree)@[self.node as int].children.len(),
                ),
            ),
    {
        let mut hooks: Vec<u64> = Vec::new();
        let mut discarded: Vec<u64> = Vec::new();
        let ghost before = tree@;
        let ghost order = children_order(
            before,
            self.node as int,
            before[self.node as int].children.len(),
        );
        seal_deactivated_tree(tree, *self, &mut hooks, &mut discarded);
        assert(hooks@ =~= released_hooks(before, order));
        assert(discarded@ =~= hook_ids(before[self.node as int].hooks) + dropped_hooks(
            before,
            order,
        ));
        CancellationPropagation { hooks, discarded }
    }

    /// Drops the last handle of this token: later cancellations no longer reach it.
    pub fn release(&self, tree: &mut CancellationTree)
        requires
            old(tree).valid(),
            old(tree).holds(*self),
        ensures
            final(tree).valid(),
            final(tree).scopes() == old(tree).scopes(),
            final(tree)@ == old(tree)@.update(
                self.node as int,
                NodeModel { live: false, ..old(tree)@[self.node as int] },
            ),
    {
        let ghost before = tree@;
        let ghost id = self.node as int;
        assert(before[id] == tree.nodes[id]@);
        let target = &mut tree.nodes[self.node];
        target.live = false;
        proof {
            let after = before.update(id, NodeModel { live: false, ..before[id] });
            assert(tree@ =~= after);
            lemma_release_keeps_tree_valid(before, id);
        }
    }

    /// Registers a hook to run when this token is cancelled.
    pub fn on_cancel(&self, tree: &mut CancellationTree, hook: u64) -> (admission: HookAdmission)
        requires
            old(tree).valid(),
            old(tree).holds(*self),
        ensures
            final(tree).valid(),
            final(tree).scopes() == old(tree).scopes(),
            admission == hook_admission(old(tree)@[self.node as int]),
            final(tree)@ == with_hook(
                old(tree)@,
                self.node as int,
                CancelHookEntry { hook, scope: None, active: true },
            ),
    {
        self.register_hook(tree, hook, None)
    }

    /// Registers a hook that runs when this token is cancelled while the returned registration is
    /// not released.
    pub fn on_cancel_scoped(&self, tree: &mut CancellationTree, hook: u64) -> (registered: (
        CancellationHookRegistration,
        HookAdmission,
    ))
        requires
            old(tree).valid(),
            old(tree).holds(*self),
            old(tree).scopes() < u64::MAX,
        ensures
            final(tree).valid(),
            final(tree).scopes() == old(tree).scopes() + 1,
            registered.0.token == *self,
            registered.0.scope == old(tree).scopes(),
            registered.1 == hook_admission(old(tree)@[self.node as int]),
            final(tree)@ == with_hook(
                old(tree)@,
                self.node as int,
                CancelHookEntry { hook, scope: Some(old(tree).scopes()), active: true },
            ),
    {
        let scope: u64 = tree.next_scope;
        let ghost before = tree@;
        tree.next_scope = scope + 1;
        assert(tree@ == before);
        let admission = self.register_hook(tree, hook, Some(scope));
        (CancellationHookRegistration { token: *self, scope }, admission)
    }

    fn register_hook(
        &self,
        tree: &mut CancellationTree,
        hook: u64,
        scope: Option<u64>,
    ) -> (admission: HookAdmission)
        requires
            old(tree).valid(),
            old(tree).holds(*self),
            scope matches Some(scope) ==> scope < old(tree).scopes(),
        ensures
            final(tree).valid(),
            final(tree).scopes() == old(tree).scopes(),
            admission == hook_admission(old(tree)@[self.node as int]),
            final(tree)@ == with_hook(
                old(tree)@,
                self.node as int,
                CancelHookEntry { hook, scope, active: true },
            ),
    {
        let ghost before = tree@;
        let ghost id = self.node as int;
        assert(before[id] == tree.nodes[id]@);
        if !tree.nodes[self.node].is_active() {
            return HookAdmission::Ignored;
        }
        if tree.nodes[self.node].cancelled {
            return HookAdmission::InvokeNow;
        }
        let ghost all = before[id].hooks;
        let mut kept: Vec<CancelHookEntry> = Vec::new();
        let mut k: usize = 0;
        assert(all.take(0) =~= seq![]);
        while k < tree.nodes[self.node].hooks.len()
            invariant
                k <= tree.nodes[self.node as int].hooks.len(),
                before == tree@,
                self.node < before.len(),
                before[self.node as int] == tree.nodes[self.node as int]@,
                all == before[self.node as int].hooks,
                kept@ =~= kept_hooks(all.take(k as int)),
                forall|j: int|
                    0 <= j < kept@.len() ==> exists|m: int|
                        0 <= m < k && (#[trigger] all[m]) == #[trigger] kept@[j],
            decreases tree.nodes[self.node as int].hooks.len() - k,
        {
            let entry = tree.nodes[self.node].hooks[k];
            proof {
                assert(all[k as int] == entry);
                assert(all.take(k + 1).drop_last() =~= all.take(k as int));
                assert(all.take(k + 1).last() == entry);
            }
            let ghost so_far = kept@;
            if entry.is_active() {
                kept.push(entry);
            }
            proof {
                assert forall|j: int| 0 <= j < kept@.len() implies exists|m: int|
                    0 <= m < k + 1 && (#[trigger] all[m]) == #[trigger] kept@[j] by {
                    if j < so_far.len() {
                        assert(kept@[j] == so_far[j]);
                        let m = choose|m: int|
                            0 <= m < k && (#[trigger] all[m]) == so_far[j];
                        assert(all[m] == kept@[j]);
                    } else {
                        assert(all[k as int] == kept@[j]);
                    }
                }
            }
            k += 1;
        }
        assert(all.take(k as int) =~= all);
        let ghost pruned = kept@;
        kept.push(CancelHookEntry { hook, scope, active: true });
        let target = &mut tree.nodes[self.node];
        target.hooks = kept;
        proof {
            let entry = CancelHookEntry { hook, scope, active: true };
            let after = with_hook(before, id, entry);
            assert(tree@ =~= after);
            lemma_hooks_keep_tree_valid(before, id, after[id].hooks);
            assert forall|i: int, j: int| #![trigger after[i].hooks[j]]
                0 <= i < after.len() && 0 <= j < after[i].hooks.len() implies (
            after[i].hooks[j].scope matches Some(found) ==> found < tree.scopes()) by {
                if i == id && j < pruned.len() {
                    let m = choose|m: int| 0 <= m < k && (#[trigger] all[m]) == pruned[j];
                    assert(before[id].hooks[m] == after[i].hooks[j]);
                } else if i != id {
                    assert(before[i].hooks[j] == after[i].hooks[j]);
                }
            }
        }
        HookAdmission::Registered
    }
}

impl CancellationHookRegistration {
    /// Ends the scope: later cancellations skip its hook.
    pub fn release(&self, tree: &mut CancellationTree)
        requires
            old(tree).valid(),
            old(tree).holds(self.token),
        ensures
            final(tree).valid(),
            final(tree).scopes() == old(tree).scopes(),
            final(tree)@ == old(tree)@.update(
                self.token.node as int,
                NodeModel {
                    hooks: without_scope(old(tree)@[self.token.node as int].hooks, self.scope),
                    ..old(tree)@[self.token.node as int]
                },
            ),
    {
        let ghost before = tree@;
        let ghost id = self.token.node as int;
        assert(before[id] == tree.nodes[id]@);
        let ghost all = before[id].hooks;
        let target = &mut tree.nodes[self.token.node];
        let ghost start = target@;
        let mut k: usize = 0;
        while k < target.hooks.len()
            invariant
                k <= target.hooks.len(),
                target.hooks.len() == all.len(),
                target@ == (NodeModel { hooks: target.hooks@, ..start }),
                forall|j: int|
                    0 <= j < all.len() ==> (#[trigger] target.hooks@[j]) == if j < k {
                        without_scope(all, self.scope)[j]
                    } else {
                        all[j]
                    },
            decreases target.hooks.len() - k,
        {
            let mut entry = target.hooks[k];
            let ends: bool = match entry.scope {
                Some(scope) => scope == self.scope,
                None => false,
            };
            if ends {
                entry.active = false;
                target.hooks.set(k, entry);
            }
            k += 1;
        }
        assert(target.hooks@ =~= without_scope(all, self.scope));
        proof {
            let after = before.update(
                id,
                NodeModel { hooks: without_scope(all, self.scope), ..before[id] },
            );
            assert(tree@ =~= after);
            lemma_hooks_keep_tree_valid(before, id, without_scope(all, self.scope));
            assert forall|i: int, j: int| #![trigger after[i].hooks[j]]
                0 <= i < after.len() && 0 <= j < after[i].hooks.len() implies (
            after[i].hooks[j].scope matches Some(found) ==> found < tree.scopes()) by {
                assert(before[i].hooks[j].scope == after[i].hooks[j].scope);
            }
        }
    }
}

/// What registering a hook on a token asks of the caller.
pub open spec fn hook_admission(node: NodeModel) -> HookAdmission {
    if !node.active {
        HookAdmission::Ignored
    } else if node.cancelled {
        HookAdmission::InvokeNow
    } else {
        HookAdmission::Registered
    }
}

/// The tree after a hook was registered on token `id`: an open token keeps it, and forgets the hooks
/// whose scope has ended.
pub open spec fn with_hook(tree: Seq<NodeModel>, id: int, entry: CancelHookEntry) -> Seq<NodeModel> {
    if tree[id].is_open() {
        tree.update(id, NodeModel { hooks: kept_hooks(tree[id].hooks).push(entry), ..tree[id] })
    } else {
        tree
    }
}

/// The tree after an open token `parent` admitted a child.
pub open spec fn with_child(tree: Seq<NodeModel>, parent: usize) -> Seq<NodeModel> {
    let id = parent as int;
    tree.update(
        id,
        NodeModel {
            children: kept_children(tree, tree[id].children).push(tree.len() as usize),
            ..tree[id]
        },
    ).push(fresh_node(tree[id].owner, Some(parent)))
}

proof fn lemma_push_keeps_tree_valid(tree: Seq<NodeModel>, node: NodeModel)
    requires
        tree_valid(tree),
        tree.len() < usize::MAX,
        node.parent is None,
        node.children.len() == 0,
        node.is_open() || node.hooks.len() == 0,
    ensures
        tree_valid(tree.push(node)),
{
    let after = tree.push(node);
    assert forall|i: int, k: int| #![trigger after[i].children[k]]
        0 <= i < after.len() && 0 <= k < after[i].children.len() implies {
        let child = after[i].children[k] as int;
        i < child < after.len() && after[child].parent == Some(i as usize)
    } by {
        assert(tree[i].children[k] == after[i].children[k]);
    }
    assert forall|i: int, j: int, k: int| #![trigger after[i].children[j], after[i].children[k]]
        0 <= i < after.len() && 0 <= j < k < after[i].children.len() implies after[i].children[j]
        < after[i].children[k] by {
        assert(tree[i].children[j] < tree[i].children[k]);
    }
}

proof fn lemma_hooks_keep_tree_valid(tree: Seq<NodeModel>, id: int, hooks: Seq<CancelHookEntry>)
    requires
        tree_valid(tree),
        0 <= id < tree.len(),
        tree[id].is_open() || hooks.len() == 0,
    ensures
        tree_valid(tree.update(id, NodeModel { hooks, ..tree[id] })),
{
    let after = tree.update(id, NodeModel { hooks, ..tree[id] });
    assert forall|i: int| 0 <= i < after.len() implies (#[trigger] after[i]).children
        == tree[i].children && after[i].parent == tree[i].parent && after[i].is_open()
        == tree[i].is_open() && after[i].live == tree[i].live && after[i].active == tree[i].active
        && after[i].cancelled == tree[i].cancelled by {}
    assert forall|i: int, k: int| #![trigger after[i].children[k]]
        0 <= i < after.len() && 0 <= k < after[i].children.len() implies {
        let child = after[i].children[k] as int;
        i < child < after.len() && after[child].parent == Some(i as usize)
    } by {
        assert(tree[i].children[k] == after[i].children[k]);
    }
    assert forall|i: int, j: int, k: int| #![trigger after[i].children[j], after[i].children[k]]
        0 <= i < after.len() && 0 <= j < k < after[i].children.len() implies after[i].children[j]
        < after[i].children[k] by {
        assert(tree[i].children[j] < tree[i].children[k]);
    }
}

proof fn lemma_release_keeps_tree_valid(tree: Seq<NodeModel>, id: int)
    requires
        tree_valid(tree),
        0 <= id < tree.len(),
    ensures
        tree_valid(tree.update(id, NodeModel { live: false, ..tree[id] })),
{
    let after = tree.update(id, NodeModel { live: false, ..tree[id] });
    assert forall|i: int| 0 <= i < after.len() implies (#[trigger] after[i]).children
        == tree[i].children && after[i].parent == tree[i].parent && after[i].is_open()
        == tree[i].is_open() && (after[i].live ==> tree[i].live) && after[i].active
        == tree[i].active && after[i].cancelled == tree[i].cancelled && after[i].hooks
        == tree[i].hooks by {}
    assert forall|i: int, k: int| #![trigger after[i].children[k]]
        0 <= i < after.len() && 0 <= k < after[i].children.len() implies {
        let child = after[i].children[k] as int;
        i < child < after.len() && after[child].parent == Some(i as usize)
    } by {
        assert(tree[i].children[k] == after[i].children[k]);
    }
    assert forall|i: int, j: int, k: int| #![trigger after[i].children[j], after[i].children[k]]
        0 <= i < after.len() && 0 <= j < k < after[i].children.len() implies after[i].children[j]
        < after[i].children[k] by {
        assert(tree[i].children[j] < tree[i].children[k]);
    }
}

proof fn lemma_child_keeps_tree_valid(tree: Seq<NodeModel>, parent: usize)
    requires
        tree_valid(tree),
        tree.len() < usize::MAX,
        parent < tree.len(),
        tree[parent as int].is_open(),
    ensures
        tree_valid(with_child(tree, parent)),
{
    let id = parent as int;
    let after = with_child(tree, parent);
    let all = tree[id].children;
    let kept = kept_children(tree, all);
    let fresh = tree.len() as usize;
    assert forall|j: int, k: int| #![trigger all[j], all[k]]
        0 <= j < k < all.len() implies all[j] < all[k] by {
        assert(tree[id].children[j] < tree[id].children[k]);
    }
    lemma_kept_children(tree, all);
    assert forall|k: int| 0 <= k < kept.len() implies id < (#[trigger] kept[k]) < tree.len()
        && tree[kept[k] as int].parent == Some(parent) by {
        assert(kept.contains(kept[k]));
        let m = choose|m: int| 0 <= m < all.len() && all[m] == kept[k];
        assert(tree[id].children[m] == kept[k]);
    }
    assert forall|i: int, k: int| #![trigger after[i].children[k]]
        0 <= i < after.len() && 0 <= k < after[i].children.len() implies {
        let child = after[i].children[k] as int;
        i < child < after.len() && after[child].parent == Some(i as usize)
    } by {
        if i == id {
            if k < kept.len() {
                assert(after[i].children[k] == kept[k]);
            }
        } else if i < tree.len() {
            assert(tree[i].children[k] == after[i].children[k]);
        }
    }
    assert forall|i: int, j: int, k: int| #![trigger after[i].children[j], after[i].children[k]]
        0 <= i < after.len() && 0 <= j < k < after[i].children.len() implies after[i].children[j]
        < after[i].children[k] by {
        if i == id {
            assert(after[i].children[j] == kept[j]);
            if k < kept.len() {
                assert(kept[j] < kept[k]);
            }
        } else if i < tree.len() {
            assert(tree[i].children[j] < tree[i].children[k]);
        }
    }
    assert forall|i: int| 0 <= i < after.len() implies ((#[trigger] after[i]).parent matches Some(p)
        ==> (after[p as int].is_open() && after[i].active && after[i].live
        ==> after[p as int].children.contains(i as usize))) by {
        if i == tree.len() {
            let list = after[id].children;
            assert(list[kept.len() as int] == fresh);
        } else if let Some(p) = tree[i].parent {
            if p == parent && tree[i].active && tree[i].live {
                assert(all.contains(i as usize));
                assert(kept.contains(i as usize));
                let m = choose|m: int| 0 <= m < kept.len() && kept[m] == i as usize;
                assert(after[id].children[m] == i as usize);
            }
        }
    }
}

/// Whether token `n` is `id` or lies below it.
pub open spec fn descends(tree: Seq<NodeModel>, id: int, n: int) -> bool
    decreases n,
{
    &&& 0 <= id <= n < tree.len()
    &&& (n == id || (tree[n].parent matches Some(p) && p < n && descends(tree, id, p as int)))
}

/// Whether token `n` is `id`, or lies below it through live tokens whose work goes on.
pub open spec fn descends_live(tree: Seq<NodeModel>, id: int, n: int) -> bool
    decreases n,
{
    &&& 0 <= id <= n < tree.len()
    &&& tree[n].active
    &&& (n == id || (tree[n].live && (tree[n].parent matches Some(p) && p < n && descends_live(
        tree,
        id,
        p as int,
    ))))
}

/// Cancelling a token cancels every live descendant whose work goes on, however deep.
pub proof fn law_cancel_reaches_every_live_descendant(tree: Seq<NodeModel>, id: int, n: int)
    requires
        tree_valid(tree),
        descends_live(tree, id, n),
    ensures
        cancelled_tree(tree, id)[n].cancelled,
    decreases n,
{
    lemma_cancelled_tree_is_valid(tree, id);
    let after = cancelled_tree(tree, id);
    if n == id {
        if tree[id].is_open() {
            assert(reached(tree, id, id));
        }
    } else {
        let p = tree[n].parent->0 as int;
        law_cancel_reaches_every_live_descendant(tree, id, p);
        assert(after[n].parent == tree[n].parent);
    }
}

/// Ending a token's work cancels every live token below it whose work goes on.
pub proof fn law_ending_cancels_every_live_descendant(tree: Seq<NodeModel>, id: int, n: int)
    requires
        tree_valid(tree),
        descends_live(tree, id, n),
        n != id,
    ensures
        ended_tree(tree, id)[n].cancelled,
    decreases n,
{
    lemma_ended_tree_is_valid(tree, id);
    let after = ended_tree(tree, id);
    let p = tree[n].parent->0 as int;
    if p != id {
        law_ending_cancels_every_live_descendant(tree, id, p);
    }
    assert(after[n].parent == tree[n].parent);
    assert(!after[p].is_open());
}

proof fn lemma_reached_descends(tree: Seq<NodeModel>, id: int, n: int)
    requires
        reached(tree, id, n),
    ensures
        descends(tree, id, n),
    decreases n,
{
    if n != id {
        lemma_reached_descends(tree, id, tree[n].parent->0 as int);
    }
}

/// Cancelling or ending a token leaves every token outside its subtree as it was: its parent, its
/// siblings, and everything below those.
pub proof fn law_cancel_spares_the_rest_of_the_tree(tree: Seq<NodeModel>, id: int, n: int)
    requires
        0 <= n < tree.len(),
        !descends(tree, id, n),
    ensures
        cancelled_tree(tree, id)[n] == tree[n],
        0 <= id < tree.len() ==> ended_tree(tree, id)[n] == tree[n],
{
    if reached(tree, id, n) {
        lemma_reached_descends(tree, id, n);
    }
    if n == id {
        assert(descends(tree, id, id));
    }
}

/// Cancelling twice is cancelling once: the second call changes nothing and runs no hook.
pub proof fn law_cancel_is_idempotent(tree: Seq<NodeModel>, id: int)
    requires
        tree_valid(tree),
        0 <= id < tree.len(),
    ensures
        cancelled_tree(cancelled_tree(tree, id), id) == cancelled_tree(tree, id),
        cancel_order(cancelled_tree(tree, id), id) == Seq::<usize>::empty(),
{
    let once = cancelled_tree(tree, id);
    if tree[id].is_open() {
        assert(reached(tree, id, id));
    }
    assert(!once[id].is_open());
    assert forall|i: int| 0 <= i < once.len() implies !reached(once, id, i) by {
        lemma_reached_needs_open_root(once, id, i);
    }
    assert(cancelled_tree(once, id) =~= once);
    assert(cancel_order(once, id) =~= Seq::<usize>::empty());
}

proof fn lemma_reached_needs_open_root(tree: Seq<NodeModel>, id: int, n: int)
    ensures
        reached(tree, id, n) ==> tree[id].is_open(),
    decreases n,
{
    if reached(tree, id, n) && n != id {
        lemma_reached_needs_open_root(tree, id, tree[n].parent->0 as int);
    }
}

/// A cancellation visits each token at most once, takes the hooks of every token it visits, and
/// visits exactly the tokens it cancels: no hook runs twice and none is left behind.
pub proof fn law_each_hook_is_released_once(tree: Seq<NodeModel>, id: int, n: int)
    requires
        tree_valid(tree),
        0 <= n < tree.len(),
    ensures
        cancel_order(tree, id).no_duplicates(),
        cancel_order(tree, id).contains(n as usize) <==> reached(tree, id, n),
        reached(tree, id, n) ==> cancelled_tree(tree, id)[n].hooks.len() == 0
            && !tree[n].cancelled && cancelled_tree(tree, id)[n].cancelled,
{
    lemma_order_has_no_duplicates(tree, id);
    if cancel_order(tree, id).contains(n as usize) {
        lemma_order_is_reached(tree, id, n as usize);
    }
    if reached(tree, id, n) {
        lemma_reached_is_in_order(tree, id, n);
    }
}

proof fn lemma_active_hook_is_listed(hooks: Seq<CancelHookEntry>, k: int)
    requires
        0 <= k < hooks.len(),
        hooks[k].active,
    ensures
        active_hooks(hooks).contains(hooks[k].hook),
    decreases hooks.len(),
{
    let all = active_hooks(hooks);
    if k == hooks.len() - 1 {
        assert(all[all.len() - 1] == hooks[k].hook);
    } else {
        let rest = hooks.drop_last();
        let before = active_hooks(rest);
        lemma_active_hook_is_listed(rest, k);
        let m = choose|m: int| 0 <= m < before.len() && before[m] == rest[k].hook;
        assert(all[m] == hooks[k].hook);
    }
}

proof fn lemma_visited_token_releases_its_hooks(
    tree: Seq<NodeModel>,
    order: Seq<usize>,
    n: usize,
    k: int,
)
    requires
        order.contains(n),
        0 <= k < tree[n as int].hooks.len(),
        tree[n as int].hooks[k].active,
    ensures
        released_hooks(tree, order).contains(tree[n as int].hooks[k].hook),
    decreases order.len(),
{
    let hook = tree[n as int].hooks[k].hook;
    let all = released_hooks(tree, order);
    let before = released_hooks(tree, order.drop_last());
    let own = active_hooks(tree[order.last() as int].hooks);
    if order.last() == n {
        lemma_active_hook_is_listed(tree[n as int].hooks, k);
        let m = choose|m: int| 0 <= m < own.len() && own[m] == hook;
        assert(all[before.len() + m] == hook);
    } else {
        let i = choose|i: int| 0 <= i < order.len() && order[i] == n;
        assert(order.drop_last()[i] == n);
        lemma_visited_token_releases_its_hooks(tree, order.drop_last(), n, k);
        let m = choose|m: int| 0 <= m < before.len() && before[m] == hook;
        assert(all[m] == hook);
    }
}

/// A cancellation runs every hook, whose scope still holds, of every token that it reaches.
pub proof fn law_reached_token_releases_its_hooks(tree: Seq<NodeModel>, id: int, n: int, k: int)
    requires
        tree_valid(tree),
        reached(tree, id, n),
        0 <= k < tree[n].hooks.len(),
        tree[n].hooks[k].active,
    ensures
        released_hooks(tree, cancel_order(tree, id)).contains(tree[n].hooks[k].hook),
{
    lemma_reached_is_in_order(tree, id, n);
    lemma_visited_token_releases_its_hooks(tree, cancel_order(tree, id), n as usize, k);
}

/// A cancelled token stays cancelled, and ended work stays ended, under every later cancellation or
/// end of any token.
pub proof fn law_cancellation_is_permanent(tree: Seq<NodeModel>, id: int, n: int)
    requires
        0 <= n < tree.len(),
        0 <= id < tree.len(),
    ensures
        tree[n].cancelled ==> cancelled_tree(tree, id)[n].cancelled && ended_tree(
            tree,
            id,
        )[n].cancelled,
        !tree[n].active ==> !cancelled_tree(tree, id)[n].active && !ended_tree(tree, id)[n].active,
{
}

} // verus!
