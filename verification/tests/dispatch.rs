use plato::geom::{Point, Rectangle};
use plato::view::{
    handle_event, locate_by_id, toggle_by_id, Bus, Event, Hub, Node, Toggled, View, ViewId,
};
use std::collections::VecDeque;

fn rect(x0: i32, y0: i32, x1: i32, y1: i32) -> Rectangle {
    Rectangle { min: Point { x: x0, y: y0 }, max: Point { x: x1, y: y1 } }
}

/// A view that writes its name into the context when it is asked.
struct Probe {
    name: &'static str,
    /// Captures clock ticks.
    captures: bool,
    /// Skips clock ticks.
    skips: bool,
    /// Puts `Validate` on the bus when it is asked about a clock tick.
    asks_parent: bool,
    /// Handles `Validate` and `Cancel`.
    answers: bool,
    /// Pushes a child when it gets `Show(Keyboard)`.
    grows: bool,
}

fn probe(name: &'static str) -> Probe {
    Probe { name, captures: false, skips: false, asks_parent: false, answers: false, grows: false }
}

pub struct Screen;

impl plato::framebuffer::Framebuffer for Screen {
    fn wait(&self, _token: u32) -> bool {
        true
    }
}

impl View for Probe {
    type Context = Vec<String>;
    type Surface = Screen;
    type Fonts = ();

    fn handle_event(
        view: &mut Node<Self>,
        evt: &Event,
        hub: &mut Hub,
        bus: &mut Bus,
        context: &mut Vec<String>,
    ) -> bool {
        match evt {
            Event::ClockTick => {
                context.push(view.widget.name.to_string());
                if view.widget.asks_parent {
                    bus.push_back(Event::Validate);
                    bus.push_back(Event::Cancel);
                    bus.push_back(Event::Back);
                    hub.send(Event::Finished);
                }
                view.widget.captures
            }
            Event::Validate | Event::Cancel => {
                if view.widget.answers {
                    context.push(format!("{} answers", view.widget.name));
                    if matches!(evt, Event::Validate) {
                        bus.push_back(Event::Quit);
                    }
                    true
                } else {
                    false
                }
            }
            Event::Show(ViewId::Keyboard) => {
                if view.widget.grows {
                    view.children.push(Node::leaf(view.rect, probe("keyboard")));
                }
                view.widget.grows
            }
            _ => false,
        }
    }

    fn render(_view: &Node<Self>, _fb: &mut Screen, _fonts: &mut ()) {}

    fn might_skip(view: &Node<Self>, evt: &Event) -> bool {
        view.widget.skips && matches!(evt, Event::ClockTick)
    }

    fn is_background(_view: &Node<Self>) -> bool {
        false
    }

    fn id(view: &Node<Self>) -> Option<ViewId> {
        match view.widget.name {
            "menu" => Some(ViewId::MainMenu),
            "keyboard" => Some(ViewId::Keyboard),
            _ => None,
        }
    }
}

fn node(widget: Probe, children: Vec<Node<Probe>>) -> Node<Probe> {
    Node { rect: rect(0, 0, 10, 10), children, widget }
}

fn tick(root: &mut Node<Probe>) -> (bool, Vec<String>, Vec<Event>, Vec<Event>) {
    let mut hub = Hub::new();
    let mut bus: Bus = VecDeque::new();
    let mut asked = Vec::new();
    let captured = handle_event(root, &Event::ClockTick, &mut hub, &mut bus, &mut asked);
    (captured, asked, hub.take(), bus.into_iter().collect())
}

fn names(events: &[Event]) -> Vec<String> {
    events.iter().map(|e| format!("{:?}", e)).collect()
}

#[test]
fn a_leaf_is_asked() {
    let mut root = node(Probe { captures: true, ..probe("leaf") }, vec![]);
    let (captured, asked, _, _) = tick(&mut root);
    assert!(captured);
    assert_eq!(asked, vec!["leaf"]);
}

#[test]
fn a_leaf_that_could_skip_is_asked_all_the_same() {
    let mut root = node(Probe { skips: true, ..probe("leaf") }, vec![]);
    let (captured, asked, _, _) = tick(&mut root);
    assert!(!captured);
    assert_eq!(asked, vec!["leaf"]);
}

#[test]
fn children_are_asked_from_the_top_and_then_the_parent() {
    let mut root = node(
        probe("root"),
        vec![node(probe("a"), vec![]), node(probe("b"), vec![node(probe("b0"), vec![])]), node(probe("c"), vec![])],
    );
    let (captured, asked, _, _) = tick(&mut root);
    assert!(!captured);
    assert_eq!(asked, vec!["c", "b0", "b", "a", "root"]);
}

#[test]
fn nothing_on_a_skipping_view_is_asked() {
    let mut root = node(
        probe("root"),
        vec![
            node(probe("a"), vec![]),
            node(
                Probe { skips: true, captures: true, ..probe("b") },
                vec![node(Probe { captures: true, ..probe("b0") }, vec![node(probe("b00"), vec![])])],
            ),
        ],
    );
    let (captured, asked, _, _) = tick(&mut root);
    assert!(!captured);
    assert_eq!(asked, vec!["a", "root"]);
}

#[test]
fn a_skipping_root_returns_at_once() {
    let mut root = node(Probe { skips: true, ..probe("root") }, vec![node(probe("a"), vec![])]);
    let (captured, asked, hub, bus) = tick(&mut root);
    assert!(!captured);
    assert!(asked.is_empty());
    assert!(hub.is_empty());
    assert!(bus.is_empty());
}

#[test]
fn the_topmost_capture_spares_the_views_below() {
    let mut root = node(
        probe("root"),
        vec![
            node(Probe { captures: true, ..probe("a") }, vec![]),
            node(Probe { captures: true, ..probe("b") }, vec![]),
            node(probe("c"), vec![]),
        ],
    );
    let (captured, asked, _, _) = tick(&mut root);
    assert!(captured);
    assert_eq!(asked, vec!["c", "b", "root"]);
}

#[test]
fn the_parent_is_asked_after_a_capture_too() {
    let mut root = node(
        Probe { captures: false, ..probe("root") },
        vec![node(Probe { captures: true, ..probe("a") }, vec![])],
    );
    let (captured, asked, _, _) = tick(&mut root);
    assert!(captured);
    assert_eq!(asked, vec!["a", "root"]);
}

#[test]
fn the_parent_consumes_what_it_handles_and_forwards_the_rest() {
    let mut root = node(
        Probe { answers: true, asks_parent: true, ..probe("root") },
        vec![node(Probe { asks_parent: true, ..probe("a") }, vec![])],
    );
    let (captured, asked, hub, bus) = tick(&mut root);
    assert!(!captured);
    assert_eq!(asked, vec!["a", "root answers", "root answers", "root"]);
    assert_eq!(names(&hub), vec!["Finished", "Finished"]);
    // What the root put on the bus while it answered, then what it did not
    // handle, then what it put there when it was asked itself.
    assert_eq!(names(&bus), vec!["Quit", "Back", "Validate", "Cancel", "Back"]);
}

#[test]
fn unhandled_bus_events_climb_to_the_grandparent() {
    let mut root = node(
        Probe { answers: true, ..probe("root") },
        vec![node(probe("mid"), vec![node(Probe { asks_parent: true, ..probe("low") }, vec![])])],
    );
    let (_, asked, _, bus) = tick(&mut root);
    assert_eq!(asked, vec!["low", "mid", "root answers", "root answers", "root"]);
    assert_eq!(names(&bus), vec!["Quit", "Back"]);
}

#[test]
fn a_handler_may_change_the_tree() {
    let mut root = node(Probe { grows: true, ..probe("root") }, vec![]);
    let mut hub = Hub::new();
    let mut bus: Bus = VecDeque::new();
    let mut asked = Vec::new();
    assert!(handle_event(&mut root, &Event::Show(ViewId::Keyboard), &mut hub, &mut bus, &mut asked));
    assert_eq!(root.len(), 1);
    assert_eq!(root.child(0).widget.name, "keyboard");
}

#[test]
fn a_child_is_found_by_its_name() {
    let root = node(
        probe("root"),
        vec![
            node(probe("a"), vec![node(probe("keyboard"), vec![])]),
            node(probe("menu"), vec![]),
            node(probe("keyboard"), vec![]),
            node(probe("keyboard"), vec![]),
        ],
    );
    assert_eq!(locate_by_id(&root, ViewId::MainMenu), Some(1));
    assert_eq!(locate_by_id(&root, ViewId::Keyboard), Some(2));
    assert_eq!(locate_by_id(&root, ViewId::SortMenu), None);
    assert_eq!(locate_by_id(root.child(1), ViewId::MainMenu), None);
}

#[test]
fn a_floating_view_goes_and_leaves_its_rectangle_exposed() {
    let mut menu = node(probe("menu"), vec![]);
    menu.rect = rect(1, 2, 3, 4);
    let mut root = node(probe("root"), vec![node(probe("a"), vec![]), menu, node(probe("b"), vec![])]);
    let mut hub = Hub::new();
    assert_eq!(toggle_by_id(&mut root, ViewId::MainMenu, Some(true), &mut hub), Toggled::Unchanged);
    assert_eq!((root.len(), hub.len()), (3, 0));
    assert_eq!(toggle_by_id(&mut root, ViewId::MainMenu, None, &mut hub), Toggled::Closed);
    let names: Vec<&str> = root.children.iter().map(|c| c.widget.name).collect();
    assert_eq!(names, vec!["a", "b"]);
    let sent = hub.take();
    assert_eq!(sent.len(), 1);
    assert!(matches!(sent[0], Event::Expose(r) if r == rect(1, 2, 3, 4)));
    assert_eq!(toggle_by_id(&mut root, ViewId::MainMenu, Some(false), &mut hub), Toggled::Unchanged);
    assert_eq!(toggle_by_id(&mut root, ViewId::MainMenu, None, &mut hub), Toggled::Wanted);
    assert_eq!(toggle_by_id(&mut root, ViewId::MainMenu, Some(true), &mut hub), Toggled::Wanted);
    assert_eq!((root.len(), hub.len()), (2, 0));
}
