//! What the cancellation tree promises of its nodes and their hooks, one link at a time.

use crate::cancellation::{
    active_hooks, cancel_order, cancelled_tree, children_order, dropped_hooks, ended_tree,
    hook_admission, inactive_hooks, kept_hooks, law_each_hook_is_released_once, reached,
    released_hooks, tree_valid, with_child, with_hook, without_scope, CancelHookEntry,
    HookAdmission, NodeModel,
};
use vstd::prelude::*;

verus! {

/// Cancelling an open token cancels it, and with every cancelled token each open child that is
/// held; nothing else changes. What is cancelled has no children and no hooks left, and keeps the
/// rest.
pub proof fn law_cancellation_goes_from_parent_to_child(tree: Seq<NodeModel>, id: int, n: int)
    requires
        tree_valid(tree),
        0 <= id < tree.len(),
        0 <= n < tree.len(),
    ensures
        ({
            let after = cancelled_tree(tree, id);
            let open = tree[n].active && !tree[n].cancelled;
            let now = open && after[n].cancelled;
            &&& after.len() == tree.len()
            &&& n == id && open ==> after[n].cancelled
            &&& n != id && open && tree[n].live && (tree[n].parent matches Some(p)
                && tree[p as int].active && !tree[p as int].cancelled && after[p as int].cancelled)
                ==> after[n].cancelled
            &&& now && n != id ==> tree[n].live && (tree[n].parent matches Some(p) && p < n
                && tree[p as int].active && !tree[p as int].cancelled && after[p as int].cancelled)
            &&& now ==> after[n].children.len() == 0 && after[n].hooks.len() == 0 && after[n].active
                && after[n].live == tree[n].live && after[n].owner == tree[n].owner
                && after[n].parent == tree[n].parent
            &&& !now ==> after[n] == tree[n]
        }),
{
    if n != id && reached(tree, id, n) {
        let p = tree[n].parent->0;
        assert(reached(tree, id, p as int));
    }
}

/// Ending a token makes it inactive, without children and hooks, and leaves whether it is cancelled
/// as it was; every open child of an open token that is held is cancelled.
pub proof fn law_ending_leaves_the_token_and_cancels_its_children(
    tree: Seq<NodeModel>,
    id: int,
    n: int,
)
    requires
        tree_valid(tree),
        0 <= id < tree.len(),
        0 <= n < tree.len(),
    ensures
        ({
            let after = ended_tree(tree, id);
            &&& after.len() == tree.len()
            &&& !after[id].active
            &&& after[id].cancelled == tree[id].cancelled
            &&& after[id].children.len() == 0 && after[id].hooks.len() == 0
            &&& after[id].owner == tree[id].owner && after[id].parent == tree[id].parent
                && after[id].live == tree[id].live
            &&& n != id && tree[id].active && !tree[id].cancelled && tree[n].active
                && !tree[n].cancelled && tree[n].live && tree[n].parent == Some(id as usize)
                ==> after[n].cancelled && after[n].active
            &&& n != id ==> after[n] == cancelled_tree(tree, id)[n]
        }),
{
    if n != id && tree[n].parent == Some(id as usize) && tree[id].is_open() && tree[n].is_open()
        && tree[n].live {
        assert(reached(tree, id, id));
        assert(reached(tree, id, n));
    }
}

proof fn lemma_released_from(tree: Seq<NodeModel>, order: Seq<usize>, hook: u64)
    requires
        released_hooks(tree, order).contains(hook),
    ensures
        exists|i: int|
            0 <= i < order.len() && active_hooks(
                tree[#[trigger] order[i] as int].hooks,
            ).contains(hook),
    decreases order.len(),
{
    if order.len() > 0 {
        let rest = order.drop_last();
        let before = released_hooks(tree, rest);
        let all = released_hooks(tree, order);
        let own = active_hooks(tree[order.last() as int].hooks);
        let k = choose|k: int| 0 <= k < all.len() && all[k] == hook;
        if k < before.len() {
            assert(before[k] == hook);
            lemma_released_from(tree, rest, hook);
            let i = choose|i: int|
                0 <= i < rest.len() && active_hooks(
                    tree[#[trigger] rest[i] as int].hooks,
                ).contains(hook);
            assert(order[i] == rest[i]);
        } else {
            assert(own[k - before.len()] == hook);
            assert(order[order.len() - 1] == order.last());
        }
    }
}

proof fn lemma_active_from(hooks: Seq<CancelHookEntry>, hook: u64)
    requires
        active_hooks(hooks).contains(hook),
    ensures
        exists|k: int|
            0 <= k < hooks.len() && (#[trigger] hooks[k]).active && hooks[k].hook == hook,
    decreases hooks.len(),
{
    if hooks.len() > 0 {
        let rest = hooks.drop_last();
        let before = active_hooks(rest);
        let all = active_hooks(hooks);
        let j = choose|j: int| 0 <= j < all.len() && all[j] == hook;
        if j < before.len() {
            assert(before[j] == hook);
            lemma_active_from(rest, hook);
            let k = choose|k: int|
                0 <= k < rest.len() && (#[trigger] rest[k]).active && rest[k].hook == hook;
            assert(hooks[k] == rest[k]);
        } else {
            assert(hooks[hooks.len() - 1] == hooks.last());
        }
    }
}

/// A cancellation runs no hook but the active ones of the tokens that it cancels.
pub proof fn law_only_hooks_of_cancelled_tokens_run(tree: Seq<NodeModel>, id: int, hook: u64)
    requires
        tree_valid(tree),
        0 <= id < tree.len(),
        released_hooks(tree, cancel_order(tree, id)).contains(hook),
    ensures
        exists|n: int, k: int|
            #![trigger tree[n].hooks[k]]
            0 <= n < tree.len() && 0 <= k < tree[n].hooks.len() && tree[n].hooks[k].active
                && tree[n].hooks[k].hook == hook && tree[n].active && !tree[n].cancelled
                && cancelled_tree(tree, id)[n].cancelled,
{
    let order = cancel_order(tree, id);
    lemma_released_from(tree, order, hook);
    let i = choose|i: int|
        0 <= i < order.len() && active_hooks(tree[#[trigger] order[i] as int].hooks).contains(hook);
    let n = order[i] as int;
    assert(order.contains(order[i]));
    crate::cancellation::lemma_order_is_reached(tree, id, order[i]);
    law_each_hook_is_released_once(tree, id, n);
    lemma_active_from(tree[n].hooks, hook);
    let k = choose|k: int|
        0 <= k < tree[n].hooks.len() && (#[trigger] tree[n].hooks[k]).active
            && tree[n].hooks[k].hook == hook;
    assert(tree[n].hooks[k].hook == hook);
}

proof fn lemma_released_concat(tree: Seq<NodeModel>, left: Seq<usize>, right: Seq<usize>)
    ensures
        released_hooks(tree, left + right) == released_hooks(tree, left) + released_hooks(
            tree,
            right,
        ),
        dropped_hooks(tree, left + right) == dropped_hooks(tree, left) + dropped_hooks(tree, right),
    decreases right.len(),
{
    if right.len() == 0 {
        assert(left + right =~= left);
        assert(released_hooks(tree, left) + released_hooks(tree, right) =~= released_hooks(
            tree,
            left,
        ));
        assert(dropped_hooks(tree, left) + dropped_hooks(tree, right) =~= dropped_hooks(
            tree,
            left,
        ));
    } else {
        let rest = right.drop_last();
        let all = left + right;
        assert(all.drop_last() =~= left + rest);
        assert(all.last() == right.last());
        lemma_released_concat(tree, left, rest);
        assert(released_hooks(tree, all) =~= released_hooks(tree, left) + released_hooks(
            tree,
            right,
        ));
        assert(dropped_hooks(tree, all) =~= dropped_hooks(tree, left) + dropped_hooks(tree, right));
    }
}

/// Cancelling an open token runs its own active hooks first and then those below it, in the order
/// in which its children were made; the hooks that were released before are dropped in the same
/// order. Ending it runs only those below it. A token that is not open runs nothing.
pub proof fn law_own_hooks_run_before_those_below(tree: Seq<NodeModel>, id: int)
    requires
        tree_valid(tree),
        0 <= id < tree.len(),
    ensures
        ({
            let below = children_order(tree, id, tree[id].children.len());
            let all = cancel_order(tree, id);
            let open = tree[id].active && !tree[id].cancelled;
            &&& open ==> released_hooks(tree, all) == active_hooks(tree[id].hooks) + released_hooks(
                tree,
                below,
            ) && dropped_hooks(tree, all) == inactive_hooks(tree[id].hooks) + dropped_hooks(
                tree,
                below,
            )
            &&& !open ==> released_hooks(tree, all).len() == 0 && released_hooks(tree, below).len()
                == 0 && dropped_hooks(tree, all).len() == 0
        }),
{
    let below = children_order(tree, id, tree[id].children.len());
    let own = seq![id as usize];
    if tree[id].is_open() {
        lemma_released_concat(tree, own, below);
        reveal_with_fuel(released_hooks, 2);
        reveal_with_fuel(dropped_hooks, 2);
        assert(own.drop_last().len() == 0);
        assert(released_hooks(tree, own) =~= active_hooks(tree[id].hooks));
        assert(dropped_hooks(tree, own) =~= inactive_hooks(tree[id].hooks));
    } else {
        assert(tree[id].children.len() == 0);
    }
}

/// The children of a token follow one another in the order in which they were made, each with
/// everything below it; a child that is not held any more is left out.
pub proof fn law_children_follow_in_order(tree: Seq<NodeModel>, id: int, count: nat)
    requires
        tree_valid(tree),
        0 <= id < tree.len(),
        count < tree[id].children.len(),
    ensures
        ({
            let child = tree[id].children[count as int] as int;
            &&& children_order(tree, id, 0).len() == 0
            &&& tree[child].live ==> children_order(tree, id, (count + 1) as nat)
                == children_order(tree, id, count) + cancel_order(tree, child)
            &&& !tree[child].live ==> children_order(tree, id, (count + 1) as nat)
                == children_order(tree, id, count)
        }),
{
    let child = tree[id].children[count as int] as int;
    assert(id < child < tree.len());
    if !tree[child].live {
        assert(children_order(tree, id, count) + Seq::<usize>::empty() =~= children_order(
            tree,
            id,
            count,
        ));
    }
}

/// The hooks of a token run in the order in which they were registered, those that were released
/// left out.
pub proof fn law_hooks_run_in_order(hooks: Seq<CancelHookEntry>, later: CancelHookEntry)
    ensures
        active_hooks(Seq::<CancelHookEntry>::empty()).len() == 0,
        inactive_hooks(Seq::<CancelHookEntry>::empty()).len() == 0,
        later.active ==> active_hooks(hooks.push(later)) == active_hooks(hooks).push(later.hook)
            && inactive_hooks(hooks.push(later)) == inactive_hooks(hooks),
        !later.active ==> active_hooks(hooks.push(later)) == active_hooks(hooks) && inactive_hooks(
            hooks.push(later),
        ) == inactive_hooks(hooks).push(later.hook),
        active_hooks(hooks).len() + inactive_hooks(hooks).len() == hooks.len(),
    decreases hooks.len(),
{
    assert(hooks.push(later).drop_last() =~= hooks);
    if hooks.len() > 0 {
        law_hooks_run_in_order(hooks.drop_last(), hooks.last());
        assert(hooks.drop_last().push(hooks.last()) =~= hooks);
    }
}

/// A hook on an open token waits there behind those registered before; on a cancelled one it runs
/// at once, and on an inactive one it never does.
pub proof fn law_hooks_are_admitted_by_the_state_of_their_token(
    tree: Seq<NodeModel>,
    id: int,
    entry: CancelHookEntry,
    n: int,
)
    requires
        0 <= id < tree.len(),
        0 <= n < tree.len(),
    ensures
        !tree[id].active ==> hook_admission(tree[id]) == HookAdmission::Ignored,
        tree[id].active && tree[id].cancelled ==> hook_admission(tree[id])
            == HookAdmission::InvokeNow,
        tree[id].active && !tree[id].cancelled ==> hook_admission(tree[id])
            == HookAdmission::Registered,
        hook_admission(tree[id]) != HookAdmission::Registered ==> with_hook(tree, id, entry)
            == tree,
        n != id ==> with_hook(tree, id, entry)[n] == tree[n],
        hook_admission(tree[id]) == HookAdmission::Registered ==> {
            let after = with_hook(tree, id, entry)[id];
            &&& after.hooks.last() == entry
            &&& active_hooks(after.hooks.drop_last()) == active_hooks(tree[id].hooks)
            &&& after.children == tree[id].children
            &&& after.active && !after.cancelled && after.live == tree[id].live
        },
{
    let kept = kept_hooks(tree[id].hooks);
    lemma_kept_hooks(tree[id].hooks);
    assert(kept.push(entry).drop_last() =~= kept);
}

proof fn lemma_kept_hooks(hooks: Seq<CancelHookEntry>)
    ensures
        active_hooks(kept_hooks(hooks)) == active_hooks(hooks),
    decreases hooks.len(),
{
    if hooks.len() > 0 {
        let rest = hooks.drop_last();
        lemma_kept_hooks(rest);
        if hooks.last().active {
            assert(kept_hooks(rest).push(hooks.last()).drop_last() =~= kept_hooks(rest));
        }
    }
}

/// Releasing a registration silences its own hook and no other.
pub proof fn law_release_silences_one_registration(
    hooks: Seq<CancelHookEntry>,
    scope: u64,
    k: int,
)
    requires
        0 <= k < hooks.len(),
    ensures
        without_scope(hooks, scope).len() == hooks.len(),
        without_scope(hooks, scope)[k].hook == hooks[k].hook,
        without_scope(hooks, scope)[k].scope == hooks[k].scope,
        hooks[k].scope == Some(scope) ==> !without_scope(hooks, scope)[k].active,
        hooks[k].scope != Some(scope) ==> without_scope(hooks, scope)[k] == hooks[k],
{
}

/// A child of a token starts open and held, without children and hooks, with the owner of its
/// parent; the parent knows it, and no other token changes.
pub proof fn law_child_starts_open_below_its_parent(tree: Seq<NodeModel>, parent: usize, n: int)
    requires
        tree_valid(tree),
        tree.len() < usize::MAX,
        parent < tree.len(),
        0 <= n < tree.len(),
    ensures
        ({
            let after = with_child(tree, parent);
            let child = after[tree.len() as int];
            &&& after.len() == tree.len() + 1
            &&& child.active && !child.cancelled && child.live
            &&& child.children.len() == 0 && child.hooks.len() == 0
            &&& child.parent == Some(parent)
            &&& child.owner == tree[parent as int].owner
            &&& after[parent as int].children.last() == tree.len()
            &&& after[parent as int].hooks == tree[parent as int].hooks
            &&& after[parent as int].active == tree[parent as int].active
            &&& after[parent as int].cancelled == tree[parent as int].cancelled
            &&& n != parent ==> after[n] == tree[n]
            &&& tree[parent as int].children.contains(n as usize) && tree[n].live && tree[n].active
                ==> after[parent as int].children.contains(n as usize)
        }),
{
    let children = tree[parent as int].children;
    let kept = crate::cancellation::kept_children(tree, children);
    assert forall|j: int, k: int| #![trigger children[j], children[k]]
        0 <= j < k < children.len() implies children[j] < children[k] by {
        assert(tree[parent as int].children[j] < tree[parent as int].children[k]);
    }
    crate::cancellation::lemma_kept_children(tree, children);
    if children.contains(n as usize) && tree[n].live && tree[n].active {
        assert(kept.contains(n as usize));
        let k = choose|k: int| 0 <= k < kept.len() && kept[k] == n as usize;
        assert(with_child(tree, parent)[parent as int].children[k] == n as usize);
    }
}

} // verus!
