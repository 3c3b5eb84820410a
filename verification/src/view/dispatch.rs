//! How an event travels through the tree of views.

use vstd::prelude::*;
use vstd::view::View as _;
use crate::view::{Event, Tree, View};

verus! {

/// What a handler did: the view afterwards, whether it captured the event,
/// what it sent to the hub and put on the bus, and the context afterwards.
pub struct Handled<V: View> {
    pub tree: Tree<V>,
    pub captured: bool,
    pub hub: Seq<Event>,
    pub bus: Seq<Event>,
    pub context: V::Context,
}

/// The outcome of a handler that was not asked.
pub open spec fn idle<V: View>(tree: Tree<V>, context: V::Context) -> Handled<V> {
    Handled { tree, captured: false, hub: Seq::empty(), bus: Seq::empty(), context }
}

/// The event on its way through a tree: the outcome, as for a handler, and
/// the views whose handler was asked, in the order of the asking, each by the
/// positions that lead to it from the root.
pub struct Routed<V: View> {
    pub outcome: Handled<V>,
    pub asked: Seq<Seq<int>>,
}

/// The children of a view after the event was offered to some of them.
pub struct Swept<V: View> {
    pub children: Seq<Tree<V>>,
    pub captured: bool,
    pub hub: Seq<Event>,
    pub bus: Seq<Event>,
    pub context: V::Context,
    pub asked: Seq<Seq<int>>,
}

/// The events of the children's bus offered to the view's own handler.
pub struct Relayed<V: View> {
    pub tree: Tree<V>,
    pub hub: Seq<Event>,
    pub bus: Seq<Event>,
    /// The events that the handler did not handle, in their order.
    pub kept: Seq<Event>,
    pub context: V::Context,
}

/// Whether the positions of `path` lead, from the root of `tree`, to a view.
pub open spec fn leads<W>(tree: Tree<W>, path: Seq<int>) -> bool
    decreases path.len(),
{
    path.len() == 0 || (0 <= path[0] < tree.children.len() && leads(
        tree.children[path[0]],
        path.drop_first(),
    ))
}

/// The view that the positions of `path` lead to from the root of `tree`.
pub open spec fn at<W>(tree: Tree<W>, path: Seq<int>) -> Tree<W>
    decreases path.len(),
{
    if path.len() == 0 {
        tree
    } else {
        at(tree.children[path[0]], path.drop_first())
    }
}

/// The paths of `paths`, each continued from position `k`.
pub open spec fn under(k: int, paths: Seq<Seq<int>>) -> Seq<Seq<int>> {
    paths.map_values(|p: Seq<int>| seq![k] + p)
}

/// The event offered to the children of `tree` from the topmost down to the
/// one at position `from`, until one captures it.
pub open spec fn sweep<V: View>(tree: Tree<V>, evt: Event, context: V::Context, from: int) -> Swept<
    V,
>
    decreases tree, tree.children.len() - from,
{
    if from < 0 || from >= tree.children.len() {
        Swept {
            children: tree.children,
            captured: false,
            hub: Seq::empty(),
            bus: Seq::empty(),
            context,
            asked: Seq::empty(),
        }
    } else {
        let above = sweep(tree, evt, context, from + 1);
        if above.captured {
            above
        } else {
            let child = route(tree.children[from], evt, above.context);
            Swept {
                children: above.children.update(from, child.outcome.tree),
                captured: child.outcome.captured,
                hub: above.hub + child.outcome.hub,
                bus: above.bus + child.outcome.bus,
                context: child.outcome.context,
                asked: above.asked + under(from, child.asked),
            }
        }
    }
}

/// The events `events`, oldest first, offered to the handler of `tree`.
pub open spec fn relay<V: View>(tree: Tree<V>, events: Seq<Event>, context: V::Context) -> Relayed<
    V,
>
    decreases events.len(),
{
    if events.len() == 0 {
        Relayed { tree, hub: Seq::empty(), bus: Seq::empty(), kept: Seq::empty(), context }
    } else {
        let before = relay(tree, events.drop_last(), context);
        let last = V::handled(before.tree, events.last(), before.context);
        Relayed {
            tree: last.tree,
            hub: before.hub + last.hub,
            bus: before.bus + last.bus,
            kept: if last.captured {
                before.kept
            } else {
                before.kept.push(events.last())
            },
            context: last.context,
        }
    }
}

/// The event on its way through `tree`.
///
/// A view without children is asked. A view with children that can skip the
/// event is passed over, with all that lies on it. Any other view offers the
/// event to its children, the topmost first, until one captures it; it is
/// then asked about each event that they put on their bus, and hands on those
/// that it does not handle, behind what it put on the bus itself; at last it
/// is asked about the event itself. The event is captured if a child or the
/// view captured it.
pub open spec fn route<V: View>(tree: Tree<V>, evt: Event, context: V::Context) -> Routed<V>
    decreases tree, tree.children.len() + 1,
{
    if tree.children.len() == 0 {
        Routed { outcome: V::handled(tree, evt, context), asked: seq![Seq::empty()] }
    } else if V::skips(tree, evt) {
        Routed { outcome: idle(tree, context), asked: Seq::empty() }
    } else {
        let swept = sweep(tree, evt, context, 0);
        let relayed = relay(Tree { children: swept.children, ..tree }, swept.bus, swept.context);
        let own = V::handled(relayed.tree, evt, relayed.context);
        Routed {
            outcome: Handled {
                tree: own.tree,
                captured: swept.captured || own.captured,
                hub: swept.hub + relayed.hub + own.hub,
                bus: relayed.bus + relayed.kept + own.bus,
                context: own.context,
            },
            asked: swept.asked.push(Seq::empty()),
        }
    }
}

/// What dispatching the event to `tree` does.
pub open spec fn dispatch<V: View>(tree: Tree<V>, evt: Event, context: V::Context) -> Handled<V> {
    route(tree, evt, context).outcome
}

/// A sweep leaves the children below `from` as they were, and keeps their
/// number.
pub proof fn lemma_sweep_spares_lower<V: View>(
    tree: Tree<V>,
    evt: Event,
    context: V::Context,
    from: int,
)
    requires
        0 <= from <= tree.children.len(),
    ensures
        sweep(tree, evt, context, from).children.len() == tree.children.len(),
        forall|j: int|
            0 <= j < from ==> #[trigger] sweep(tree, evt, context, from).children[j]
                == tree.children[j],
    decreases tree.children.len() - from,
{
    if from < tree.children.len() {
        lemma_sweep_spares_lower(tree, evt, context, from + 1);
    }
}

/// Once a child has captured the event, no child below it is offered the
/// event: the sweep down to any lower position is the sweep that ended with
/// the capture.
pub proof fn lemma_capture_ends_sweep<V: View>(
    tree: Tree<V>,
    evt: Event,
    context: V::Context,
    from: int,
    lower: int,
)
    requires
        0 <= lower <= from <= tree.children.len(),
        sweep(tree, evt, context, from).captured,
    ensures
        sweep(tree, evt, context, lower) == sweep(tree, evt, context, from),
    decreases from - lower,
{
    if lower < from {
        lemma_capture_ends_sweep(tree, evt, context, from, lower + 1);
    }
}

/// A view that a sweep asked lies on a child that was offered the event:
/// one at or above position `from`, above which no child had captured.
proof fn lemma_swept_views<V: View>(
    tree: Tree<V>,
    evt: Event,
    context: V::Context,
    from: int,
    path: Seq<int>,
)
    requires
        0 <= from <= tree.children.len(),
        sweep(tree, evt, context, from).asked.contains(path),
    ensures
        path.len() > 0,
        from <= path[0] < tree.children.len(),
        !sweep(tree, evt, context, path[0] + 1).captured,
        route(
            tree.children[path[0]],
            evt,
            sweep(tree, evt, context, path[0] + 1).context,
        ).asked.contains(path.drop_first()),
    decreases tree.children.len() - from,
{
    if from < tree.children.len() {
        let above = sweep(tree, evt, context, from + 1);
        if above.captured {
            lemma_swept_views(tree, evt, context, from + 1, path);
        } else {
            let child = route(tree.children[from], evt, above.context);
            let all = above.asked + under(from, child.asked);
            let i = choose|i: int| 0 <= i < all.len() && all[i] == path;
            if i < above.asked.len() {
                assert(above.asked[i] == path);
                lemma_swept_views(tree, evt, context, from + 1, path);
            } else {
                let p = child.asked[i - above.asked.len()];
                assert(path == seq![from] + p);
                assert(path.drop_first() =~= p);
            }
        }
    }
}

/// Dispatching an event asks no view that lies on a view which skips the
/// event, and no view that skips it: every view with children on the way to a
/// view that was asked, that view included, answered that it could not skip
/// the event.
pub proof fn lemma_skipped_views_are_not_asked<V: View>(
    tree: Tree<V>,
    evt: Event,
    context: V::Context,
    path: Seq<int>,
    upto: int,
)
    requires
        route(tree, evt, context).asked.contains(path),
        0 <= upto <= path.len(),
    ensures
        leads(tree, path),
        at(tree, path.take(upto)).children.len() > 0 ==> !V::skips(
            at(tree, path.take(upto)),
            evt,
        ),
    decreases tree,
{
    let asked = route(tree, evt, context).asked;
    let i = choose|i: int| 0 <= i < asked.len() && asked[i] == path;
    if tree.children.len() == 0 {
        assert(path.take(upto) =~= path);
    } else if V::skips(tree, evt) {
    } else {
        let swept = sweep(tree, evt, context, 0);
        if i < swept.asked.len() {
            assert(swept.asked[i] == path);
            lemma_swept_views(tree, evt, context, 0, path);
            let k = path[0];
            let rest = path.drop_first();
            let then = sweep(tree, evt, context, k + 1).context;
            if upto > 0 {
                lemma_skipped_views_are_not_asked(tree.children[k], evt, then, rest, upto - 1);
                assert(path.take(upto).drop_first() =~= rest.take(upto - 1));
            } else {
                lemma_skipped_views_are_not_asked(tree.children[k], evt, then, rest, 0);
            }
        } else {
            assert(path.take(upto) =~= path);
        }
    }
}

/// The topmost child that captures an event ends the dispatch among the
/// children. Where the child at position `k`, or one above it, captured the
/// event, the children below `k` are as they were before, and no view that
/// was asked lies on one of them.
pub proof fn lemma_capture_short_circuits<V: View>(
    tree: Tree<V>,
    evt: Event,
    context: V::Context,
    k: int,
)
    requires
        0 <= k < tree.children.len(),
        sweep(tree, evt, context, k).captured,
    ensures
        sweep(tree, evt, context, 0) == sweep(tree, evt, context, k),
        forall|j: int|
            0 <= j < k ==> #[trigger] sweep(tree, evt, context, 0).children[j] == tree.children[j],
        forall|path: Seq<int>|
            path.len() > 0 && #[trigger] route(tree, evt, context).asked.contains(path)
                ==> path[0] >= k,
{
    lemma_capture_ends_sweep(tree, evt, context, k, 0);
    lemma_sweep_spares_lower(tree, evt, context, k);
    assert forall|path: Seq<int>|
        path.len() > 0 && #[trigger] route(tree, evt, context).asked.contains(
            path,
        ) implies path[0] >= k by {
        let asked = route(tree, evt, context).asked;
        let i = choose|i: int| 0 <= i < asked.len() && asked[i] == path;
        if !V::skips(tree, evt) {
            let swept = sweep(tree, evt, context, 0);
            assert(swept.asked[i] == path);
            lemma_swept_views(tree, evt, context, k, path);
        }
    }
}

} // verus!
