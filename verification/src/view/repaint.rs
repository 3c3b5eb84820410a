//! How a changed region of the display gets painted anew.

use vstd::prelude::*;
use vstd::view::View as _;
use crate::framebuffer::{settled, Framebuffer};
use crate::geom::Rectangle;
use crate::view::dispatch::{at, leads, under};
use crate::view::{Tree, View};

verus! {

/// What a walk through the tree works on: the region that changed, the
/// surface and the fonts, the pending updates, and whether the walk has come
/// to the view that the change started from.
pub struct Canvas<V: View> {
    pub rect: Rectangle,
    pub fb: V::Surface,
    pub fonts: V::Fonts,
    pub updating: Map<u32, Rectangle>,
    pub above: bool,
}

/// The kinds of walk.
pub enum Pass {
    /// Paints what overlaps the region, from the view on whose rectangle is
    /// the region; waits for the pending updates first if `wait` says so.
    Render { wait: bool },
    /// Paints every leaf and every background that overlaps the region,
    /// after the pending updates.
    FillCrack,
}

/// The outcome of a walk: the canvas, and the views that were painted, in
/// the order of the painting, each by the positions that lead to it.
pub struct Walked<V: View> {
    pub canvas: Canvas<V>,
    pub painted: Seq<Seq<int>>,
}

/// Whether the walk, standing at the root of `tree`, has come to the view
/// that the change started from.
pub open spec fn is_above<V: View>(tree: Tree<V>, canvas: Canvas<V>, pass: Pass) -> bool {
    match pass {
        Pass::Render { .. } => canvas.above || tree.rect == canvas.rect,
        Pass::FillCrack => canvas.above,
    }
}

/// Whether the walk paints the root of `tree`.
pub open spec fn is_due<V: View>(tree: Tree<V>, canvas: Canvas<V>, pass: Pass) -> bool {
    match pass {
        Pass::Render { .. } => is_above(tree, canvas, pass) && tree.rect.overlaps(&canvas.rect),
        Pass::FillCrack => (tree.children.len() == 0 || V::background(tree))
            && tree.rect.overlaps(&canvas.rect),
    }
}

/// Whether the walk waits for pending updates before it paints.
pub open spec fn waits(pass: Pass) -> bool {
    match pass {
        Pass::Render { wait } => wait,
        Pass::FillCrack => true,
    }
}

/// The canvas after the walk has dealt with the root of `tree`. A view that
/// is due is painted, after the pending updates that touch it where the
/// walk waits, and the region grows to hold it.
pub open spec fn visit<V: View>(tree: Tree<V>, canvas: Canvas<V>, pass: Pass) -> Canvas<V> {
    if is_due(tree, canvas, pass) {
        Canvas {
            rect: canvas.rect.union(tree.rect),
            fb: V::painted(tree, canvas.fb, canvas.fonts).0,
            fonts: V::painted(tree, canvas.fb, canvas.fonts).1,
            updating: if waits(pass) {
                settled(canvas.updating, tree.rect, canvas.fb)
            } else {
                canvas.updating
            },
            above: is_above(tree, canvas, pass),
        }
    } else {
        Canvas { above: is_above(tree, canvas, pass), ..canvas }
    }
}

/// The walk through `tree`: the root first, then what lies on it, child by
/// child from the lowest, whether or not the root was painted.
pub open spec fn walk<V: View>(tree: Tree<V>, canvas: Canvas<V>, pass: Pass) -> Walked<V>
    decreases tree, tree.children.len() + 1,
{
    let below = walk_children(tree, visit(tree, canvas, pass), pass, tree.children.len() as int);
    Walked {
        canvas: below.canvas,
        painted: if is_due(tree, canvas, pass) {
            seq![Seq::<int>::empty()] + below.painted
        } else {
            below.painted
        },
    }
}

/// The walk through the first `upto` children of `tree`.
pub open spec fn walk_children<V: View>(
    tree: Tree<V>,
    canvas: Canvas<V>,
    pass: Pass,
    upto: int,
) -> Walked<V>
    decreases tree, upto,
{
    if upto <= 0 || upto > tree.children.len() {
        Walked { canvas, painted: Seq::empty() }
    } else {
        let before = walk_children(tree, canvas, pass, upto - 1);
        let last = walk(tree.children[upto - 1], before.canvas, pass);
        Walked { canvas: last.canvas, painted: before.painted + under(upto - 1, last.painted) }
    }
}

/// The region after it has grown to hold each view of `painted` in turn.
pub open spec fn absorbed<W>(tree: Tree<W>, rect: Rectangle, painted: Seq<Seq<int>>) -> Rectangle
    decreases painted.len(),
{
    if painted.len() == 0 {
        rect
    } else {
        absorbed(tree, rect, painted.drop_last()).union(at(tree, painted.last()).rect)
    }
}

/// Whether each view of `painted`, in turn, overlapped the region as it stood
/// when the views before it had been absorbed.
pub open spec fn each_overlapped<W>(tree: Tree<W>, rect: Rectangle, painted: Seq<Seq<int>>) -> bool
    decreases painted.len(),
{
    painted.len() == 0 || (each_overlapped(tree, rect, painted.drop_last()) && at(
        tree,
        painted.last(),
    ).rect.overlaps(&absorbed(tree, rect, painted.drop_last())))
}

/// The walk that `render` and `render_no_wait` make from the root of a tree.
pub open spec fn rendered<V: View>(
    tree: Tree<V>,
    rect: Rectangle,
    fb: V::Surface,
    fonts: V::Fonts,
    updating: Map<u32, Rectangle>,
    wait: bool,
) -> Walked<V> {
    walk(tree, Canvas { rect, fb, fonts, updating, above: false }, Pass::Render { wait })
}

/// The walk that `fill_crack` makes from the root of a tree.
pub open spec fn filled<V: View>(
    tree: Tree<V>,
    rect: Rectangle,
    fb: V::Surface,
    fonts: V::Fonts,
    updating: Map<u32, Rectangle>,
) -> Walked<V> {
    walk(tree, Canvas { rect, fb, fonts, updating, above: false }, Pass::FillCrack)
}

/// Absorbing two runs of views one after the other is absorbing them all.
proof fn lemma_absorbed_in_turn<W>(
    tree: Tree<W>,
    rect: Rectangle,
    first: Seq<Seq<int>>,
    then: Seq<Seq<int>>,
)
    ensures
        absorbed(tree, rect, first + then) == absorbed(tree, absorbed(tree, rect, first), then),
        each_overlapped(tree, rect, first + then) == (each_overlapped(tree, rect, first)
            && each_overlapped(tree, absorbed(tree, rect, first), then)),
    decreases then.len(),
{
    if then.len() == 0 {
        assert(first + then =~= first);
    } else {
        lemma_absorbed_in_turn(tree, rect, first, then.drop_last());
        assert((first + then).drop_last() =~= first + then.drop_last());
        assert((first + then).last() == then.last());
    }
}

/// Absorbing views of a child is the same seen from the child and from the
/// parent.
proof fn lemma_absorbed_under<W>(tree: Tree<W>, rect: Rectangle, k: int, painted: Seq<Seq<int>>)
    requires
        0 <= k < tree.children.len(),
    ensures
        absorbed(tree, rect, under(k, painted)) == absorbed(tree.children[k], rect, painted),
        each_overlapped(tree, rect, under(k, painted)) == each_overlapped(
            tree.children[k],
            rect,
            painted,
        ),
    decreases painted.len(),
{
    if painted.len() > 0 {
        lemma_absorbed_under(tree, rect, k, painted.drop_last());
        assert(under(k, painted).drop_last() =~= under(k, painted.drop_last()));
        let path = seq![k] + painted.last();
        assert(under(k, painted).last() == path);
        assert(path.drop_first() =~= painted.last());
    }
}

/// The region that a walk ends with holds the region that it started with,
/// and is that region grown by the views that were painted, each of which
/// overlapped the region as it stood.
pub proof fn lemma_region_absorbs_what_is_painted<V: View>(
    tree: Tree<V>,
    canvas: Canvas<V>,
    pass: Pass,
)
    ensures
        walk(tree, canvas, pass).canvas.rect.contains(&canvas.rect),
        walk(tree, canvas, pass).canvas.rect == absorbed(
            tree,
            canvas.rect,
            walk(tree, canvas, pass).painted,
        ),
        each_overlapped(tree, canvas.rect, walk(tree, canvas, pass).painted),
    decreases tree, tree.children.len() + 1,
{
    let here = visit(tree, canvas, pass);
    let below = walk_children(tree, here, pass, tree.children.len() as int);
    lemma_children_absorb_what_is_painted(tree, here, pass, tree.children.len() as int);
    if is_due(tree, canvas, pass) {
        let root = seq![Seq::<int>::empty()];
        reveal_with_fuel(absorbed, 2);
        reveal_with_fuel(each_overlapped, 2);
        assert(root.drop_last() =~= Seq::<Seq<int>>::empty());
        assert(root.last() == Seq::<int>::empty());
        assert(absorbed(tree, canvas.rect, root) == here.rect);
        assert(each_overlapped(tree, canvas.rect, root));
        lemma_absorbed_in_turn(tree, canvas.rect, root, below.painted);
    }
}

/// What `lemma_region_absorbs_what_is_painted` says, of the walk through the
/// first `upto` children.
proof fn lemma_children_absorb_what_is_painted<V: View>(
    tree: Tree<V>,
    canvas: Canvas<V>,
    pass: Pass,
    upto: int,
)
    requires
        0 <= upto <= tree.children.len(),
    ensures
        walk_children(tree, canvas, pass, upto).canvas.rect.contains(&canvas.rect),
        walk_children(tree, canvas, pass, upto).canvas.rect == absorbed(
            tree,
            canvas.rect,
            walk_children(tree, canvas, pass, upto).painted,
        ),
        each_overlapped(tree, canvas.rect, walk_children(tree, canvas, pass, upto).painted),
    decreases tree, upto,
{
    if upto > 0 {
        let before = walk_children(tree, canvas, pass, upto - 1);
        let last = walk(tree.children[upto - 1], before.canvas, pass);
        lemma_children_absorb_what_is_painted(tree, canvas, pass, upto - 1);
        lemma_region_absorbs_what_is_painted(tree.children[upto - 1], before.canvas, pass);
        lemma_absorbed_under(tree, before.canvas.rect, upto - 1, last.painted);
        lemma_absorbed_in_turn(tree, canvas.rect, before.painted, under(upto - 1, last.painted));
    }
}

/// Whether every pending update of `some` is one of `all`, for the same
/// rectangle.
pub open spec fn is_part_of(some: Map<u32, Rectangle>, all: Map<u32, Rectangle>) -> bool {
    forall|token: u32| #[trigger]
        some.contains_key(token) ==> all.contains_key(token) && some[token] == all[token]
}

/// A walk forgets pending updates and adds none.
pub proof fn lemma_updates_only_leave<V: View>(tree: Tree<V>, canvas: Canvas<V>, pass: Pass)
    ensures
        is_part_of(walk(tree, canvas, pass).canvas.updating, canvas.updating),
    decreases tree, tree.children.len() + 1,
{
    lemma_updates_only_leave_children(
        tree,
        visit(tree, canvas, pass),
        pass,
        tree.children.len() as int,
    );
}

/// What `lemma_updates_only_leave` says, of the walk through the first `upto`
/// children.
proof fn lemma_updates_only_leave_children<V: View>(
    tree: Tree<V>,
    canvas: Canvas<V>,
    pass: Pass,
    upto: int,
)
    requires
        0 <= upto <= tree.children.len(),
    ensures
        is_part_of(walk_children(tree, canvas, pass, upto).canvas.updating, canvas.updating),
    decreases tree, upto,
{
    if upto > 0 {
        let before = walk_children(tree, canvas, pass, upto - 1);
        lemma_updates_only_leave_children(tree, canvas, pass, upto - 1);
        lemma_updates_only_leave(tree.children[upto - 1], before.canvas, pass);
    }
}

/// Whether no pending update of `updating` touches a view of `painted`.
pub open spec fn all_clear<W>(
    tree: Tree<W>,
    painted: Seq<Seq<int>>,
    updating: Map<u32, Rectangle>,
) -> bool {
    forall|i: int, token: u32|
        #![trigger painted[i], updating.contains_key(token)]
        0 <= i < painted.len() && updating.contains_key(token) ==> !at(
            tree,
            painted[i],
        ).rect.overlaps(&updating[token])
}

/// On a surface where every wait succeeds, a walk that waits leaves no
/// pending update that touches a view which it painted: each such update was
/// waited for, and forgotten, before the view was painted.
pub proof fn lemma_no_update_pends_on_what_is_painted<V: View>(
    tree: Tree<V>,
    canvas: Canvas<V>,
    pass: Pass,
)
    requires
        waits(pass),
        forall|fb: V::Surface, token: u32| #[trigger] fb.completes(token),
    ensures
        all_clear(
            tree,
            walk(tree, canvas, pass).painted,
            walk(tree, canvas, pass).canvas.updating,
        ),
    decreases tree, tree.children.len() + 1,
{
    let here = visit(tree, canvas, pass);
    let below = walk_children(tree, here, pass, tree.children.len() as int);
    let end = walk(tree, canvas, pass);
    lemma_children_leave_no_update_pending(tree, here, pass, tree.children.len() as int);
    lemma_updates_only_leave_children(tree, here, pass, tree.children.len() as int);
    assert forall|i: int, token: u32|
        #![trigger end.painted[i], end.canvas.updating.contains_key(token)]
        0 <= i < end.painted.len() && end.canvas.updating.contains_key(token) implies !at(
        tree,
        end.painted[i],
    ).rect.overlaps(&end.canvas.updating[token]) by {
        assert(here.updating.contains_key(token));
        if is_due(tree, canvas, pass) {
            if i == 0 {
                assert(canvas.fb.completes(token));
            } else {
                let _ = below.painted[i - 1];
            }
        } else {
            let _ = below.painted[i];
        }
    }
}

/// What `lemma_no_update_pends_on_what_is_painted` says, of the walk through
/// the first `upto` children.
proof fn lemma_children_leave_no_update_pending<V: View>(
    tree: Tree<V>,
    canvas: Canvas<V>,
    pass: Pass,
    upto: int,
)
    requires
        0 <= upto <= tree.children.len(),
        waits(pass),
        forall|fb: V::Surface, token: u32| #[trigger] fb.completes(token),
    ensures
        all_clear(
            tree,
            walk_children(tree, canvas, pass, upto).painted,
            walk_children(tree, canvas, pass, upto).canvas.updating,
        ),
    decreases tree, upto,
{
    if upto > 0 {
        let before = walk_children(tree, canvas, pass, upto - 1);
        let last = walk(tree.children[upto - 1], before.canvas, pass);
        let end = walk_children(tree, canvas, pass, upto);
        lemma_children_leave_no_update_pending(tree, canvas, pass, upto - 1);
        lemma_no_update_pends_on_what_is_painted(tree.children[upto - 1], before.canvas, pass);
        lemma_updates_only_leave(tree.children[upto - 1], before.canvas, pass);
        assert forall|i: int, token: u32|
            #![trigger end.painted[i], end.canvas.updating.contains_key(token)]
            0 <= i < end.painted.len() && end.canvas.updating.contains_key(token) implies !at(
            tree,
            end.painted[i],
        ).rect.overlaps(&end.canvas.updating[token]) by {
            assert(before.canvas.updating.contains_key(token));
            if i < before.painted.len() {
                let _ = before.painted[i];
            } else {
                let p = last.painted[i - before.painted.len()];
                let path = seq![upto - 1] + p;
                assert(end.painted[i] == path);
                assert(path.drop_first() =~= p);
            }
        }
    }
}

/// A path is among the paths continued from `k` exactly when it starts with
/// `k` and goes on as one of them.
proof fn lemma_under_contains(k: int, paths: Seq<Seq<int>>, path: Seq<int>)
    ensures
        under(k, paths).contains(path) <==> path.len() > 0 && path[0] == k && paths.contains(
            path.drop_first(),
        ),
{
    if under(k, paths).contains(path) {
        let i = choose|i: int| 0 <= i < under(k, paths).len() && under(k, paths)[i] == path;
        assert(path == seq![k] + paths[i]);
        assert(path.drop_first() =~= paths[i]);
    }
    if path.len() > 0 && path[0] == k && paths.contains(path.drop_first()) {
        let i = choose|i: int| 0 <= i < paths.len() && paths[i] == path.drop_first();
        assert(under(k, paths)[i] =~= path);
    }
}

/// The walk through the first `upto` children painted a view exactly when
/// the view lies on one of these children and the walk through that child
/// painted it.
proof fn lemma_painted_on_children<V: View>(
    tree: Tree<V>,
    canvas: Canvas<V>,
    pass: Pass,
    upto: int,
    path: Seq<int>,
)
    requires
        0 <= upto <= tree.children.len(),
    ensures
        walk_children(tree, canvas, pass, upto).painted.contains(path) <==> path.len() > 0 && 0
            <= path[0] < upto && walk(
            tree.children[path[0]],
            walk_children(tree, canvas, pass, path[0]).canvas,
            pass,
        ).painted.contains(path.drop_first()),
    decreases upto,
{
    if upto > 0 {
        let before = walk_children(tree, canvas, pass, upto - 1);
        let last = walk(tree.children[upto - 1], before.canvas, pass);
        let here = under(upto - 1, last.painted);
        let all = before.painted + here;
        lemma_painted_on_children(tree, canvas, pass, upto - 1, path);
        lemma_under_contains(upto - 1, last.painted, path);
        if all.contains(path) {
            let i = choose|i: int| 0 <= i < all.len() && all[i] == path;
            if i < before.painted.len() {
                assert(before.painted[i] == path);
            } else {
                assert(here[i - before.painted.len()] == path);
            }
        }
        if before.painted.contains(path) {
            let i = choose|i: int| 0 <= i < before.painted.len() && before.painted[i] == path;
            assert(all[i] == path);
        }
        if here.contains(path) {
            let i = choose|i: int| 0 <= i < here.len() && here[i] == path;
            assert(all[before.painted.len() + i] == path);
        }
    }
}

/// A walk painted the root exactly when the root was due, and any other view
/// exactly when the walk through the children painted it.
proof fn lemma_painted_from_root<V: View>(
    tree: Tree<V>,
    canvas: Canvas<V>,
    pass: Pass,
    path: Seq<int>,
)
    ensures
        walk(tree, canvas, pass).painted.contains(path) <==> if path.len() == 0 {
            is_due(tree, canvas, pass)
        } else {
            walk_children(
                tree,
                visit(tree, canvas, pass),
                pass,
                tree.children.len() as int,
            ).painted.contains(path)
        },
{
    let below = walk_children(tree, visit(tree, canvas, pass), pass, tree.children.len() as int);
    let all = walk(tree, canvas, pass).painted;
    lemma_painted_on_children(
        tree,
        visit(tree, canvas, pass),
        pass,
        tree.children.len() as int,
        path,
    );
    if is_due(tree, canvas, pass) {
        let root = seq![Seq::<int>::empty()];
        assert(all == root + below.painted);
        assert(all[0] == Seq::<int>::empty());
        if path.len() == 0 {
            assert(path =~= Seq::<int>::empty());
        }
        if all.contains(path) && path.len() > 0 {
            let i = choose|i: int| 0 <= i < all.len() && all[i] == path;
            assert(below.painted[i - 1] == path);
        }
        if below.painted.contains(path) {
            let i = choose|i: int| 0 <= i < below.painted.len() && below.painted[i] == path;
            assert(all[i + 1] == path);
        }
    }
}

/// What a rendering walk paints, and the region that it ends with, depend on
/// the region that it starts with and on nothing else of the canvas.
pub proof fn lemma_painting_goes_by_the_region<V: View>(
    tree: Tree<V>,
    one: Canvas<V>,
    other: Canvas<V>,
    wait_one: bool,
    wait_other: bool,
)
    requires
        one.rect == other.rect,
        one.above == other.above,
    ensures
        walk(tree, one, Pass::Render { wait: wait_one }).painted == walk(
            tree,
            other,
            Pass::Render { wait: wait_other },
        ).painted,
        walk(tree, one, Pass::Render { wait: wait_one }).canvas.rect == walk(
            tree,
            other,
            Pass::Render { wait: wait_other },
        ).canvas.rect,
        walk(tree, one, Pass::Render { wait: wait_one }).canvas.above == walk(
            tree,
            other,
            Pass::Render { wait: wait_other },
        ).canvas.above,
    decreases tree, tree.children.len() + 1,
{
    lemma_children_painting_goes_by_the_region(
        tree,
        visit(tree, one, Pass::Render { wait: wait_one }),
        visit(tree, other, Pass::Render { wait: wait_other }),
        wait_one,
        wait_other,
        tree.children.len() as int,
    );
}

/// What `lemma_painting_goes_by_the_region` says, of the walk through the
/// first `upto` children.
proof fn lemma_children_painting_goes_by_the_region<V: View>(
    tree: Tree<V>,
    one: Canvas<V>,
    other: Canvas<V>,
    wait_one: bool,
    wait_other: bool,
    upto: int,
)
    requires
        0 <= upto <= tree.children.len(),
        one.rect == other.rect,
        one.above == other.above,
    ensures
        walk_children(tree, one, Pass::Render { wait: wait_one }, upto).painted == walk_children(
            tree,
            other,
            Pass::Render { wait: wait_other },
            upto,
        ).painted,
        walk_children(tree, one, Pass::Render { wait: wait_one }, upto).canvas.rect
            == walk_children(tree, other, Pass::Render { wait: wait_other }, upto).canvas.rect,
        walk_children(tree, one, Pass::Render { wait: wait_one }, upto).canvas.above
            == walk_children(tree, other, Pass::Render { wait: wait_other }, upto).canvas.above,
    decreases tree, upto,
{
    if upto > 0 {
        lemma_children_painting_goes_by_the_region(
            tree,
            one,
            other,
            wait_one,
            wait_other,
            upto - 1,
        );
        lemma_painting_goes_by_the_region(
            tree.children[upto - 1],
            walk_children(tree, one, Pass::Render { wait: wait_one }, upto - 1).canvas,
            walk_children(tree, other, Pass::Render { wait: wait_other }, upto - 1).canvas,
            wait_one,
            wait_other,
        );
    }
}

/// How a second walk, which starts with the region `goal`, stands to the
/// first: once it has come to a view with that rectangle, the first walk has
/// come to its origin too, and its region is `goal`.
spec fn follows<V: View>(first: Canvas<V>, second: Canvas<V>, goal: Rectangle) -> bool {
    second.rect == goal && (second.above ==> first.above && first.rect == goal)
}

proof fn lemma_second_walk<V: View>(
    tree: Tree<V>,
    first: Canvas<V>,
    second: Canvas<V>,
    wait: bool,
    again: bool,
    goal: Rectangle,
)
    requires
        goal.contains(&walk(tree, first, Pass::Render { wait }).canvas.rect),
        forall|p: Seq<int>|
            leads(tree, p) && at(tree, p).rect == goal ==> #[trigger] walk(
                tree,
                first,
                Pass::Render { wait },
            ).painted.contains(p),
        follows(first, second, goal),
    ensures
        follows(
            walk(tree, first, Pass::Render { wait }).canvas,
            walk(tree, second, Pass::Render { wait: again }).canvas,
            goal,
        ),
        forall|p: Seq<int>| #[trigger]
            walk(tree, second, Pass::Render { wait: again }).painted.contains(p) ==> walk(
                tree,
                first,
                Pass::Render { wait },
            ).painted.contains(p),
    decreases tree, tree.children.len() + 1,
{
    let pass1 = Pass::Render { wait };
    let pass2 = Pass::Render { wait: again };
    let here1 = visit(tree, first, pass1);
    let here2 = visit(tree, second, pass2);
    let len = tree.children.len() as int;
    let w1 = walk(tree, first, pass1);
    let w2 = walk(tree, second, pass2);
    lemma_children_absorb_what_is_painted(tree, here1, pass1, len);
    assert(goal.contains(&here1.rect));
    lemma_painted_from_root(tree, first, pass1, Seq::empty());
    if !second.above && tree.rect == goal {
        assert(leads(tree, Seq::<int>::empty()));
        assert(w1.painted.contains(Seq::empty()));
    }
    assert(follows(here1, here2, goal));
    assert forall|p: Seq<int>|
        p.len() > 0 && 0 <= p[0] < len && leads(tree, p) && at(tree, p).rect
            == goal implies #[trigger] walk_children(tree, here1, pass1, len).painted.contains(
        p,
    ) by {
        assert(w1.painted.contains(p));
        lemma_painted_from_root(tree, first, pass1, p);
    }
    lemma_second_walk_children(tree, here1, here2, wait, again, goal, len);
    assert forall|p: Seq<int>| #[trigger] w2.painted.contains(p) implies w1.painted.contains(p) by {
        lemma_painted_from_root(tree, first, pass1, p);
        lemma_painted_from_root(tree, second, pass2, p);
    }
}

proof fn lemma_second_walk_children<V: View>(
    tree: Tree<V>,
    first: Canvas<V>,
    second: Canvas<V>,
    wait: bool,
    again: bool,
    goal: Rectangle,
    upto: int,
)
    requires
        0 <= upto <= tree.children.len(),
        goal.contains(&walk_children(tree, first, Pass::Render { wait }, upto).canvas.rect),
        forall|p: Seq<int>|
            p.len() > 0 && 0 <= p[0] < upto && leads(tree, p) && at(tree, p).rect == goal
                ==> #[trigger] walk_children(
                tree,
                first,
                Pass::Render { wait },
                upto,
            ).painted.contains(p),
        follows(first, second, goal),
    ensures
        follows(
            walk_children(tree, first, Pass::Render { wait }, upto).canvas,
            walk_children(tree, second, Pass::Render { wait: again }, upto).canvas,
            goal,
        ),
        forall|p: Seq<int>| #[trigger]
            walk_children(tree, second, Pass::Render { wait: again }, upto).painted.contains(p)
                ==> walk_children(tree, first, Pass::Render { wait }, upto).painted.contains(p),
    decreases tree, upto,
{
    let pass1 = Pass::Render { wait };
    let pass2 = Pass::Render { wait: again };
    if upto > 0 {
        let k = upto - 1;
        let child = tree.children[k];
        let before1 = walk_children(tree, first, pass1, k);
        let before2 = walk_children(tree, second, pass2, k);
        let end1 = walk_children(tree, first, pass1, upto);
        let end2 = walk_children(tree, second, pass2, upto);
        lemma_region_absorbs_what_is_painted(child, before1.canvas, pass1);
        assert forall|p: Seq<int>|
            p.len() > 0 && 0 <= p[0] < k && leads(tree, p) && at(tree, p).rect
                == goal implies #[trigger] before1.painted.contains(p) by {
            assert(end1.painted.contains(p));
            lemma_painted_on_children(tree, first, pass1, upto, p);
            lemma_painted_on_children(tree, first, pass1, k, p);
        }
        lemma_second_walk_children(tree, first, second, wait, again, goal, k);
        assert forall|p: Seq<int>| leads(child, p) && at(child, p).rect == goal implies #[trigger] walk(
            child,
            before1.canvas,
            pass1,
        ).painted.contains(p) by {
            let path = seq![k] + p;
            assert(path.drop_first() =~= p);
            assert(leads(tree, path));
            assert(at(tree, path) == at(child, p));
            assert(end1.painted.contains(path));
            lemma_painted_on_children(tree, first, pass1, upto, path);
        }
        lemma_second_walk(child, before1.canvas, before2.canvas, wait, again, goal);
        assert forall|p: Seq<int>| #[trigger] end2.painted.contains(p) implies end1.painted.contains(
            p,
        ) by {
            lemma_painted_on_children(tree, second, pass2, upto, p);
            lemma_painted_on_children(tree, first, pass1, upto, p);
            if p[0] < k {
                lemma_painted_on_children(tree, second, pass2, k, p);
                lemma_painted_on_children(tree, first, pass1, k, p);
                assert(before2.painted.contains(p));
            } else {
                assert(walk(child, before2.canvas, pass2).painted.contains(p.drop_first()));
            }
        }
    }
}

/// Rendering once more, from the region that a first rendering ended with,
/// paints only views that the first rendering painted, and leaves the region
/// as it is. This holds where the first rendering left the region as it was,
/// or painted every view whose rectangle is the region that it ended with; a
/// view with that rectangle which the first walk passed before it came to its
/// origin would be painted by the second walk alone.
pub proof fn lemma_second_render_paints_no_more<V: View>(
    tree: Tree<V>,
    first: Canvas<V>,
    second: Canvas<V>,
    wait: bool,
    again: bool,
)
    requires
        !first.above,
        !second.above,
        second.rect == walk(tree, first, Pass::Render { wait }).canvas.rect,
        second.rect == first.rect || forall|p: Seq<int>|
            leads(tree, p) && at(tree, p).rect == second.rect ==> #[trigger] walk(
                tree,
                first,
                Pass::Render { wait },
            ).painted.contains(p),
    ensures
        walk(tree, second, Pass::Render { wait: again }).canvas.rect == second.rect,
        forall|p: Seq<int>| #[trigger]
            walk(tree, second, Pass::Render { wait: again }).painted.contains(p) ==> walk(
                tree,
                first,
                Pass::Render { wait },
            ).painted.contains(p),
{
    if second.rect == first.rect {
        lemma_painting_goes_by_the_region(tree, first, second, wait, again);
    } else {
        lemma_second_walk(tree, first, second, wait, again, second.rect);
    }
}

} // verus!
