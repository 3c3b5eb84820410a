use fnv::FnvHashMap;
use plato::framebuffer::{wait_for_overlapping, Framebuffer, Simulated};
use plato::metadata::SortMethod;
use plato::view::home::top_bar::TopBar;
use std::collections::VecDeque;
use plato::geom::{Point, Rectangle};
use plato::view::{
    fill_crack, handle_event, render, render_no_wait, Bus, Event, Hub, Node, View, ViewId,
};
use std::cell::RefCell;

fn rect(x0: i32, y0: i32, x1: i32, y1: i32) -> Rectangle {
    Rectangle { min: Point { x: x0, y: y0 }, max: Point { x: x1, y: y1 } }
}

/// A surface that records what happens to it.
#[derive(Default)]
struct Paper {
    log: RefCell<Vec<String>>,
    /// The tokens whose wait fails.
    stuck: Vec<u32>,
}

impl Framebuffer for Paper {
    fn wait(&self, token: u32) -> bool {
        self.log.borrow_mut().push(format!("wait {}", token));
        !self.stuck.contains(&token)
    }
}

struct Patch {
    name: &'static str,
    background: bool,
}

impl View for Patch {
    type Context = ();
    type Surface = Paper;
    type Fonts = u32;

    fn handle_event(_: &mut Node<Self>, _: &Event, _: &mut Hub, _: &mut Bus, _: &mut ()) -> bool {
        false
    }

    fn render(view: &Node<Self>, fb: &mut Paper, fonts: &mut u32) {
        fb.log.borrow_mut().push(format!("paint {}", view.widget.name));
        *fonts += 1;
    }

    fn might_skip(_: &Node<Self>, _: &Event) -> bool {
        false
    }

    fn is_background(view: &Node<Self>) -> bool {
        view.widget.background
    }

    fn id(_: &Node<Self>) -> Option<ViewId> {
        None
    }
}

fn patch(name: &'static str, r: Rectangle, children: Vec<Node<Patch>>) -> Node<Patch> {
    Node { rect: r, children, widget: Patch { name, background: false } }
}

fn log(fb: &Paper) -> Vec<String> {
    fb.log.borrow().clone()
}

#[test]
fn render_starts_at_the_view_that_changed() {
    // Three children; the middle one is where the change comes from. The
    // first child overlaps the region and is left alone all the same: the
    // walk passes it before it comes to the middle one.
    let root = patch(
        "root",
        rect(0, 0, 100, 100),
        vec![
            patch("first", rect(0, 0, 60, 60), vec![]),
            patch("middle", rect(10, 10, 20, 20), vec![]),
            patch("last", rect(15, 15, 70, 70), vec![]),
        ],
    );
    let mut region = rect(10, 10, 20, 20);
    let mut fb = Paper::default();
    let mut fonts = 0;
    let mut updating = FnvHashMap::default();
    render(&root, &mut region, &mut fb, &mut fonts, &mut updating);
    assert_eq!(log(&fb), vec!["paint middle", "paint last"]);
    assert_eq!(region, rect(10, 10, 70, 70));
    assert_eq!(fonts, 2);
}

#[test]
fn render_leaves_out_what_does_not_overlap() {
    let root = patch(
        "root",
        rect(0, 0, 100, 100),
        vec![
            patch("middle", rect(10, 10, 20, 20), vec![]),
            patch("far", rect(20, 10, 30, 20), vec![]),
            patch("near", rect(19, 19, 25, 25), vec![]),
            patch("caught", rect(24, 24, 26, 26), vec![]),
        ],
    );
    let mut region = rect(10, 10, 20, 20);
    let mut fb = Paper::default();
    let mut fonts = 0;
    let mut updating = FnvHashMap::default();
    render(&root, &mut region, &mut fb, &mut fonts, &mut updating);
    // `far` only touches the region; `caught` overlaps it once `near` is in.
    assert_eq!(log(&fb), vec!["paint middle", "paint near", "paint caught"]);
    assert_eq!(region, rect(10, 10, 26, 26));
}

#[test]
fn render_walks_into_a_view_that_is_not_painted() {
    let root = patch(
        "root",
        rect(0, 0, 100, 100),
        vec![
            patch("origin", rect(10, 10, 20, 20), vec![]),
            patch("aside", rect(50, 50, 60, 60), vec![patch("inside", rect(15, 15, 55, 55), vec![])]),
        ],
    );
    let mut region = rect(10, 10, 20, 20);
    let mut fb = Paper::default();
    let mut fonts = 0;
    let mut updating = FnvHashMap::default();
    render(&root, &mut region, &mut fb, &mut fonts, &mut updating);
    assert_eq!(log(&fb), vec!["paint origin", "paint inside"]);
    assert_eq!(region, rect(10, 10, 55, 55));
}

#[test]
fn render_paints_nothing_without_an_origin() {
    let root = patch("root", rect(0, 0, 100, 100), vec![patch("a", rect(0, 0, 50, 50), vec![])]);
    let mut region = rect(1, 1, 2, 2);
    let mut fb = Paper::default();
    let mut fonts = 0;
    let mut updating = FnvHashMap::default();
    updating.insert(7, rect(0, 0, 100, 100));
    render(&root, &mut region, &mut fb, &mut fonts, &mut updating);
    assert!(log(&fb).is_empty());
    assert_eq!(region, rect(1, 1, 2, 2));
    assert_eq!(updating.len(), 1);
}

#[test]
fn render_waits_for_the_updates_that_touch_a_view() {
    let root = patch(
        "root",
        rect(0, 0, 100, 100),
        vec![patch("a", rect(0, 0, 10, 10), vec![]), patch("b", rect(5, 5, 30, 30), vec![])],
    );
    let mut region = rect(0, 0, 10, 10);
    let mut fb = Paper { stuck: vec![3], ..Paper::default() };
    let mut fonts = 0;
    let mut updating = FnvHashMap::default();
    updating.insert(1, rect(8, 8, 9, 9));
    updating.insert(2, rect(20, 20, 40, 40));
    updating.insert(3, rect(0, 0, 5, 5));
    updating.insert(4, rect(50, 50, 60, 60));
    render(&root, &mut region, &mut fb, &mut fonts, &mut updating);
    let seen = log(&fb);
    let paint_a = seen.iter().position(|l| l == "paint a").unwrap();
    let paint_b = seen.iter().position(|l| l == "paint b").unwrap();
    let wait = |t: u32| seen.iter().position(|l| *l == format!("wait {}", t));
    // The updates 1 and 3 touch `a` and are waited for before it is painted;
    // 2 touches `b` only; nothing touches 4.
    assert!(wait(1).unwrap() < paint_a);
    assert!(wait(3).unwrap() < paint_a);
    assert!(paint_a < wait(2).unwrap() && wait(2).unwrap() < paint_b);
    assert_eq!(wait(4), None);
    assert_eq!(seen.iter().filter(|l| l.starts_with("wait 1")).count(), 1);
    // The update whose wait succeeded is forgotten, the stuck one is kept.
    let mut left: Vec<u32> = updating.keys().copied().collect();
    left.sort();
    assert_eq!(left, vec![3, 4]);
    assert_eq!(updating[&3], rect(0, 0, 5, 5));
}

#[test]
fn render_no_wait_leaves_the_updates_alone() {
    let root = patch("root", rect(0, 0, 10, 10), vec![patch("a", rect(0, 0, 10, 10), vec![])]);
    let mut region = rect(0, 0, 10, 10);
    let mut fb = Paper::default();
    let mut fonts = 0;
    let mut updating = FnvHashMap::default();
    updating.insert(1, rect(0, 0, 10, 10));
    render_no_wait(&root, &mut region, &mut fb, &mut fonts, &mut updating);
    assert_eq!(log(&fb), vec!["paint root", "paint a"]);
    assert_eq!(updating.len(), 1);
}

#[test]
fn a_second_pass_paints_no_more_than_the_first() {
    let root = patch(
        "root",
        rect(0, 0, 100, 100),
        vec![
            patch("a", rect(10, 10, 20, 20), vec![]),
            patch("b", rect(15, 15, 40, 40), vec![]),
            patch("c", rect(10, 10, 40, 40), vec![]),
        ],
    );
    let mut region = rect(10, 10, 20, 20);
    let mut fb = Paper::default();
    let mut fonts = 0;
    let mut updating = FnvHashMap::default();
    render(&root, &mut region, &mut fb, &mut fonts, &mut updating);
    assert_eq!(log(&fb), vec!["paint a", "paint b", "paint c"]);
    assert_eq!(region, rect(10, 10, 40, 40));
    let mut again = Paper::default();
    render(&root, &mut region, &mut again, &mut fonts, &mut updating);
    assert_eq!(log(&again), vec!["paint c"]);
    assert_eq!(region, rect(10, 10, 40, 40));
}

#[test]
fn a_view_that_equals_the_grown_region_is_painted_by_the_second_pass_only() {
    // The root has the rectangle that the region grows to, and the walk
    // passes it before it comes to the origin of the change.
    let root = patch(
        "root",
        rect(0, 0, 10, 10),
        vec![patch("b", rect(0, 0, 5, 5), vec![]), patch("c", rect(4, 4, 10, 10), vec![])],
    );
    let mut region = rect(0, 0, 5, 5);
    let mut fb = Paper::default();
    let mut fonts = 0;
    let mut updating = FnvHashMap::default();
    render(&root, &mut region, &mut fb, &mut fonts, &mut updating);
    assert_eq!(log(&fb), vec!["paint b", "paint c"]);
    assert_eq!(region, rect(0, 0, 10, 10));
    let mut again = Paper::default();
    render(&root, &mut region, &mut again, &mut fonts, &mut updating);
    assert_eq!(log(&again), vec!["paint root", "paint b", "paint c"]);
}

#[test]
fn fill_crack_paints_leaves_and_backgrounds() {
    let mut back = patch(
        "back",
        rect(0, 0, 50, 50),
        vec![patch("leaf", rect(0, 0, 20, 20), vec![]), patch("off", rect(30, 30, 40, 40), vec![])],
    );
    back.widget.background = true;
    let root = patch(
        "root",
        rect(0, 0, 100, 100),
        vec![back, patch("late", rect(40, 40, 60, 60), vec![])],
    );
    let mut crack = rect(5, 5, 10, 10);
    let mut fb = Paper::default();
    let mut fonts = 0;
    let mut updating = FnvHashMap::default();
    updating.insert(9, rect(0, 0, 1, 1));
    fill_crack(&root, &mut crack, &mut fb, &mut fonts, &mut updating);
    // The root has children and is no background; `back` is one, and once it
    // is in, the crack reaches `off` and `late`.
    assert_eq!(
        log(&fb),
        vec!["wait 9", "paint back", "paint leaf", "paint off", "paint late"]
    );
    assert_eq!(crack, rect(0, 0, 60, 60));
    assert!(updating.is_empty());
}

#[test]
fn a_simulated_display_completes_the_updates_that_it_holds() {
    let fb = Simulated { done: vec![2, 5] };
    assert!(fb.wait(5));
    assert!(!fb.wait(3));
    let mut updating = FnvHashMap::default();
    updating.insert(2, rect(0, 0, 10, 10));
    updating.insert(3, rect(0, 0, 10, 10));
    updating.insert(5, rect(20, 20, 30, 30));
    wait_for_overlapping(&rect(5, 5, 6, 6), &fb, &mut updating);
    let mut left: Vec<u32> = updating.keys().copied().collect();
    left.sort();
    assert_eq!(left, vec![3, 5]);
}

#[test]
fn the_top_bar_is_a_view_that_keeps_still() {
    let bar = TopBar::new(rect(0, 0, 600, 50), SortMethod::Opened, 80);
    let mut view = Node::leaf(bar.rect, bar);
    let mut hub = Hub::new();
    let mut bus: Bus = VecDeque::new();
    assert!(!handle_event(&mut view, &Event::ClockTick, &mut hub, &mut bus, &mut ()));
    assert_eq!((hub.len(), bus.len(), view.widget.children.len()), (0, 0, 5));
    let mut region = rect(0, 0, 600, 50);
    let mut fb = Simulated { done: vec![1] };
    let mut updating = FnvHashMap::default();
    updating.insert(1, rect(10, 10, 20, 20));
    updating.insert(2, rect(10, 10, 20, 20));
    render(&view, &mut region, &mut fb, &mut (), &mut updating);
    assert_eq!(region, rect(0, 0, 600, 50));
    assert_eq!(updating.keys().copied().collect::<Vec<u32>>(), vec![2]);
}
