use plato::framebuffer::UpdateMode;
use plato::geom::{CycleDir, Point, Rectangle};
use plato::metadata::{Info, Metadata, SortMethod};
use plato::view::home::top_bar::{Part, TopBar};
use plato::view::home::{pages, Home, Layout, Refresh};
use plato::view::{Align, EntryId, EntryKind, Event, Hub, Toggled, ViewId};

fn open(metadata: &Metadata, summary_size: u8, lines: usize) -> Home {
    let rect = Rectangle { min: Point { x: 0, y: 0 }, max: Point { x: 600, y: 800 } };
    Home::new(rect, &mut Hub::new(), metadata, summary_size, lines)
}

fn rect(x0: i32, y0: i32, x1: i32, y1: i32) -> Rectangle {
    Rectangle { min: Point { x: x0, y: y0 }, max: Point { x: x1, y: y1 } }
}

#[test]
fn offsets_follow_the_alignment() {
    assert_eq!(Align::Left(7).offset(10, 100), 7);
    assert_eq!(Align::Right(7).offset(10, 100), 83);
    assert_eq!(Align::Center.offset(10, 100), 45);
    assert_eq!(Align::Center.offset(11, 100), 44);
    assert_eq!(Align::Center.offset(100, 11), -44);
    assert_eq!(Align::Right(-5).offset(10, 3), -2);
}

#[test]
fn rectangles_overlap_and_absorb() {
    let a = rect(0, 0, 10, 10);
    assert!(a.overlaps(&rect(9, 9, 20, 20)));
    assert!(!a.overlaps(&rect(10, 0, 20, 10)));
    assert!(!a.overlaps(&rect(0, -5, 10, 0)));
    assert!(a.overlaps(&a));
    assert!(!rect(3, 3, 3, 9).overlaps(&rect(3, 3, 3, 9)));
    let mut b = rect(2, 2, 4, 4);
    b.absorb(&rect(3, -1, 9, 3));
    assert_eq!(b, rect(2, -1, 9, 4));
    b.absorb(&rect(3, 0, 4, 1));
    assert_eq!(b, rect(2, -1, 9, 4));
    assert!(a.contains(&rect(0, 0, 10, 10)));
    assert!(!a.contains(&rect(0, 0, 10, 11)));
    assert!(a.includes(&Point { x: 0, y: 9 }));
    assert!(!a.includes(&Point { x: 10, y: 9 }));
    assert!(rect(1, 1, 1, 5).is_empty());
    assert_eq!((a.width(), rect(0, 0, 3, 7).height()), (10, 7));
    assert_eq!(rect(5, 5, 0, 0).width(), 0);
    assert_eq!(Rectangle::default(), rect(0, 0, 0, 0));
}

#[test]
fn menu_entries_tell_what_they_are() {
    let command = EntryKind::Command("Export".to_string(), EntryId::ExportMatches);
    let check = EntryKind::CheckBox("Reverse Order".to_string(), EntryId::ReverseOrder, true);
    let radio = EntryKind::RadioButton("Author".to_string(), EntryId::Sort(SortMethod::Author), false);
    let sub = EntryKind::SubMenu("Sort".to_string(), EntryId::SubSort);
    assert!(EntryKind::Separator.is_separator());
    assert!(!command.is_separator());
    assert_eq!(command.text(), "Export");
    assert_eq!(check.text(), "Reverse Order");
    assert_eq!(radio.text(), "Author");
    assert_eq!(sub.text(), "Sort");
    assert_eq!(EntryKind::Separator.text(), "");
    assert_eq!(command.id(), Some(EntryId::ExportMatches));
    assert_eq!(check.id(), Some(EntryId::ReverseOrder));
    assert_eq!(radio.id(), Some(EntryId::Sort(SortMethod::Author)));
    assert_eq!(sub.id(), Some(EntryId::SubSort));
    assert_eq!(EntryKind::Separator.id(), None);
}

#[test]
fn sort_methods_have_labels_and_directions() {
    assert_eq!(SortMethod::Opened.label(), "Date Opened");
    assert_eq!(SortMethod::Added.label(), "Date Added");
    assert_eq!(SortMethod::Progress.label(), "Progress");
    assert_eq!(SortMethod::Author.label(), "Author");
    assert_eq!(SortMethod::Size.label(), "File Size");
    assert_eq!(SortMethod::Kind.label(), "File Type");
    assert!(SortMethod::Opened.reverse_order());
    assert!(!SortMethod::Author.reverse_order());
    assert!(!SortMethod::Kind.reverse_order());
}

#[test]
fn the_hub_keeps_the_order() {
    let mut hub = Hub::new();
    hub.send(Event::Back);
    hub.send(Event::Quit);
    assert_eq!(hub.len(), 2);
    let events = hub.take();
    assert!(matches!(events[0], Event::Back));
    assert!(matches!(events[1], Event::Quit));
    assert_eq!(hub.len(), 0);
}

#[test]
fn the_top_bar_is_laid_out_from_its_rectangle() {
    let bar = TopBar::new(rect(0, 10, 600, 60), SortMethod::Author, 80);
    let rects: Vec<Rectangle> = bar.children.iter().map(|c| c.rect).collect();
    assert_eq!(
        rects,
        vec![
            rect(0, 10, 50, 60),
            rect(50, 10, 420, 60),
            rect(420, 10, 500, 60),
            rect(500, 10, 550, 60),
            rect(550, 10, 600, 60),
        ]
    );
    assert_eq!(bar.rect, rect(0, 10, 600, 60));
    match &bar.children[0].part {
        Part::Icon { name, event, .. } => {
            assert_eq!(name, "search");
            assert!(matches!(event, Event::Toggle(ViewId::SearchBar)));
        }
        _ => panic!("no icon"),
    }
    assert!(matches!(&bar.children[1].part, Part::SortLabel { text } if text == "Author"));
    assert!(matches!(bar.children[2].part, Part::Clock));
    match &bar.children[3].part {
        Part::Icon { name, event, .. } => {
            assert_eq!(name, "frontlight");
            assert!(matches!(event, Event::Show(ViewId::FrontlightMenu)));
        }
        _ => panic!("no icon"),
    }
    match &bar.children[4].part {
        Part::Icon { name, event, .. } => {
            assert_eq!(name, "menu");
            assert!(matches!(event, Event::ToggleNear(ViewId::MainMenu, r) if *r == rect(550, 10, 600, 60)));
        }
        _ => panic!("no icon"),
    }
}

#[test]
fn the_top_bar_updates_ask_for_paint() {
    let mut bar = TopBar::new(rect(0, 0, 600, 50), SortMethod::Opened, 80);
    let mut hub = Hub::new();
    bar.update_icon(true, &mut hub);
    assert!(matches!(&bar.children[0].part, Part::Icon { name, .. } if name == "home"));
    bar.update_icon(false, &mut hub);
    assert!(matches!(&bar.children[0].part, Part::Icon { name, .. } if name == "search"));
    bar.update_sort_label(SortMethod::Size, &mut hub);
    assert!(matches!(&bar.children[1].part, Part::SortLabel { text } if text == "File Size"));
    let events = hub.take();
    assert_eq!(events.len(), 3);
    assert!(matches!(events[0], Event::Render(r, UpdateMode::Gui) if r == rect(0, 0, 50, 50)));
    assert!(matches!(events[1], Event::Render(r, UpdateMode::Gui) if r == rect(0, 0, 50, 50)));
    assert!(matches!(events[2], Event::Render(r, UpdateMode::Gui) if r == rect(50, 0, 420, 50)));
}

#[test]
fn pages_are_counted_with_the_rest() {
    assert_eq!(pages(0, 5), 0);
    assert_eq!(pages(1, 5), 1);
    assert_eq!(pages(5, 5), 1);
    assert_eq!(pages(6, 5), 2);
    assert_eq!(pages(0, 0), 0);
    assert_eq!(pages(3, 0), usize::MAX);
    assert_eq!(pages(usize::MAX, 1), usize::MAX);
}

fn entry(title: &str, category: &str) -> Info {
    let mut info = Info::default();
    info.title = title.to_string();
    info.categories.insert(category);
    info
}

#[test]
fn the_browser_answers_its_events() {
    let metadata = vec![entry("A", "x/y"), entry("B", "x/z"), entry("C", "w")];
    let mut home = open(&metadata, 2, 2);
    let mut hub = Hub::new();
    let answer = home.handle_event(&Event::ToggleSelectCategory("x".to_string()), &metadata, 2, false, &mut hub);
    assert_eq!((answer.captured, answer.layout, answer.refresh), (true, Layout::Nothing, Refresh::List));
    assert_eq!(home.visible_books().len(), 2);
    assert_eq!(home.pages_count(), 1);
    let answer = home.handle_event(&Event::ToggleNegateCategoryChildren("x".to_string()), &metadata, 2, false, &mut hub);
    assert_eq!(answer.refresh, Refresh::List);
    assert_eq!(home.visible_books().len(), 0);
    home.handle_event(&Event::ToggleNegateCategory("x/y".to_string()), &metadata, 2, false, &mut hub);
    assert_eq!(home.visible_books().len(), 1);
    assert_eq!(home.visible_books()[0].title, "A");
    home.handle_event(&Event::ToggleSelectCategory("x".to_string()), &metadata, 1, false, &mut hub);
    assert_eq!(home.visible_books().len(), 2);
    assert_eq!(home.pages_count(), 2);
    assert!(home.is_filtering());

    let answer = home.handle_event(&Event::Page(CycleDir::Next), &metadata, 1, false, &mut hub);
    assert_eq!((answer.captured, answer.refresh), (true, Refresh::Page));
    assert_eq!(home.current_page(), 1);
    let answer = home.handle_event(&Event::Page(CycleDir::Next), &metadata, 1, false, &mut hub);
    assert_eq!((answer.captured, answer.refresh), (true, Refresh::Nothing));
    let answer = home.handle_event(&Event::GoTo(0), &metadata, 1, false, &mut hub);
    assert_eq!(answer.refresh, Refresh::Page);
    assert_eq!(home.current_page(), 0);
    assert_eq!(home.handle_event(&Event::GoTo(2), &metadata, 1, false, &mut hub).refresh, Refresh::Nothing);

    let answer = home.handle_event(&Event::Submit(ViewId::SearchInput, "C".to_string()), &metadata, 1, false, &mut hub);
    assert_eq!((answer.captured, answer.layout, answer.refresh), (true, Layout::Keyboard(false), Refresh::List));
    assert_eq!(home.query(), "C");
    assert_eq!(home.visible_books().len(), 1);
    assert_eq!(home.visible_books()[0].title, "C");
    let answer = home.handle_event(&Event::Submit(ViewId::GoToPageInput, "1".to_string()), &metadata, 1, false, &mut hub);
    assert!(!answer.captured);

    let answer = home.handle_event(&Event::Focus(Some(ViewId::SearchInput)), &metadata, 1, false, &mut hub);
    assert_eq!((answer.captured, answer.layout), (false, Layout::Keyboard(true)));
    assert_eq!(home.focus(), Some(ViewId::SearchInput));
    let answer = home.handle_event(&Event::Select(EntryId::Sort(SortMethod::Author)), &metadata, 1, false, &mut hub);
    assert_eq!((answer.captured, answer.layout), (true, Layout::Sort));
    assert_eq!((home.sort_method(), home.reverse_order()), (SortMethod::Author, false));
    home.handle_event(&Event::Select(EntryId::ReverseOrder), &metadata, 1, false, &mut hub);
    assert!(home.reverse_order());
    let r = rect(1, 2, 3, 4);
    assert_eq!(
        home.handle_event(&Event::ToggleNear(ViewId::SortMenu, r), &metadata, 1, false, &mut hub).layout,
        Layout::SortMenu(r, None)
    );
    assert_eq!(
        home.handle_event(&Event::Close(ViewId::MainMenu), &metadata, 1, false, &mut hub).layout,
        Layout::MainMenu(Rectangle::default(), Some(false))
    );
    let answer = home.handle_event(&Event::Close(ViewId::SearchBar), &metadata, 1, false, &mut hub);
    assert_eq!(
        (answer.layout, answer.refresh),
        (Layout::SearchBar(Toggled::Unchanged, false), Refresh::List)
    );
    assert_eq!(home.query(), "C");
    assert_eq!(home.handle_event(&Event::Back, &metadata, 1, false, &mut hub).layout, Layout::Reseed);
    assert!(!home.handle_event(&Event::ClockTick, &metadata, 1, false, &mut hub).captured);
    assert!(!home.handle_event(&Event::Toggle(ViewId::MainMenu), &metadata, 1, false, &mut hub).captured);
    assert_eq!(home.summary_size(), 2);
}

#[test]
fn the_category_list_takes_its_lines_from_the_screen() {
    let metadata = vec![entry("A", "a"), entry("B", "b"), entry("C", "c"), entry("D", "d")];
    // Three lines asked for of ten: eight are left to a page.
    let home = open(&metadata, 3, 10);
    assert_eq!((home.summary_size(), home.pages_count()), (3, 1));
    // None asked for: one is taken.
    let home = open(&metadata, 0, 2);
    assert_eq!((home.summary_size(), home.pages_count()), (1, 2));
    // More asked for than there are: the page keeps one line.
    let home = open(&metadata, 9, 3);
    assert_eq!((home.summary_size(), home.pages_count()), (3, 4));
    // The lines are counted in eight bits.
    let home = open(&metadata, 9, 256);
    assert_eq!((home.summary_size(), home.pages_count()), (0, 1));
    let home = open(&metadata, 1, 0);
    assert_eq!((home.summary_size(), home.pages_count()), (0, 4));
}

#[test]
fn a_page_shows_its_part_of_the_list() {
    let metadata = vec![entry("A", "a"), entry("B", "b"), entry("C", "c")];
    let mut home = open(&metadata, 1, 2);
    assert_eq!(home.page_range(2), (0, 2));
    assert!(home.go_to_page(1));
    assert_eq!(home.page_range(2), (2, 3));
    assert_eq!(home.page_range(3), (3, 3));
    assert_eq!(home.page_range(0), (0, 0));
}

#[test]
fn the_menus_of_the_browser() {
    let metadata = vec![entry("A", "a")];
    let mut home = open(&metadata, 1, 2);
    home.set_sort_method(SortMethod::Size);
    let entries = home.sort_menu_entries();
    let texts: Vec<&str> = entries.iter().map(|e| e.text()).collect();
    assert_eq!(
        texts,
        vec!["Date Opened", "Date Added", "Progress", "Author", "File Size", "File Type", "", "Reverse Order"]
    );
    let marks: Vec<bool> = entries
        .iter()
        .map(|e| match e {
            EntryKind::RadioButton(_, _, on) | EntryKind::CheckBox(_, _, on) => *on,
            _ => false,
        })
        .collect();
    assert_eq!(marks, vec![false, false, false, false, true, false, false, true]);
    assert_eq!(entries[3].id(), Some(EntryId::Sort(SortMethod::Author)));
    assert!(entries[6].is_separator());
    assert_eq!(entries[7].id(), Some(EntryId::ReverseOrder));
    let entries = home.matches_menu_entries();
    assert_eq!(entries.len(), 1);
    assert_eq!((entries[0].text(), entries[0].id()), ("Export", Some(EntryId::ExportMatches)));
}

#[test]
fn the_browser_opens_on_its_rectangle_and_asks_for_paint() {
    let metadata = vec![entry("A", "a")];
    let mut hub = Hub::new();
    hub.send(Event::ClockTick);
    let home = Home::new(rect(0, 0, 600, 800), &mut hub, &metadata, 1, 10);
    assert_eq!(home.rect(), rect(0, 0, 600, 800));
    assert_eq!(home.query(), "");
    assert_eq!(home.focus(), None);
    assert_eq!(home.current_page(), 0);
    assert!(home.selected_categories().is_empty() && home.negated_categories().is_empty());
    assert_eq!(home.visible_books().len(), 1);
    let sent = hub.take();
    assert_eq!(sent.len(), 2);
    assert!(matches!(sent[1], Event::Render(r, UpdateMode::Full) if r == rect(0, 0, 600, 800)));
}

#[test]
fn the_search_bar_takes_query_and_focus_with_it() {
    let metadata = vec![entry("Dune", "a"), entry("Emma", "b")];
    let mut home = open(&metadata, 1, 10);
    let mut hub = Hub::new();
    // The bar comes: it gets the focus, and says so.
    let answer = home.handle_event(&Event::Toggle(ViewId::SearchBar), &metadata, 10, false, &mut hub);
    assert_eq!((answer.captured, answer.layout), (true, Layout::SearchBar(Toggled::Wanted, false)));
    assert_eq!(home.focus(), Some(ViewId::SearchInput));
    let sent = hub.take();
    assert_eq!(sent.len(), 1);
    assert!(matches!(sent[0], Event::Focus(Some(ViewId::SearchInput))));
    home.handle_event(&Event::Submit(ViewId::SearchInput, "Dune".to_string()), &metadata, 10, true, &mut hub);
    assert_eq!(home.visible_books().len(), 1);
    // Asked to show while it is there: nothing happens.
    assert_eq!(home.toggle_search_bar(Some(true), true, &mut hub), (Toggled::Unchanged, false));
    assert_eq!(home.query(), "Dune");
    // The bar goes by a switch: query and focus go, the list stays.
    let answer = home.handle_event(&Event::Toggle(ViewId::SearchBar), &metadata, 10, true, &mut hub);
    assert_eq!((answer.layout, answer.refresh), (Layout::SearchBar(Toggled::Closed, true), Refresh::Nothing));
    assert_eq!((home.query().as_str(), home.focus()), ("", None));
    assert_eq!(home.visible_books().len(), 1);
    // The bar is closed: the list is computed anew.
    home.set_query("Emma");
    home.set_focus(Some(ViewId::GoToPageInput));
    let answer = home.handle_event(&Event::Close(ViewId::SearchBar), &metadata, 10, true, &mut hub);
    assert_eq!((answer.layout, answer.refresh), (Layout::SearchBar(Toggled::Closed, false), Refresh::List));
    assert_eq!((home.query().as_str(), home.focus()), ("", Some(ViewId::GoToPageInput)));
    assert_eq!(home.visible_books().len(), 2);
    assert_eq!(hub.len(), 0);
}

#[test]
fn a_bar_that_stands_on_its_head_is_laid_out_too() {
    let bar = TopBar::new(rect(0, 60, 600, 10), SortMethod::Author, 80);
    let rects: Vec<Rectangle> = bar.children.iter().map(|c| c.rect).collect();
    assert_eq!(
        rects,
        vec![
            rect(0, 60, -50, 10),
            rect(-50, 60, 620, 10),
            rect(620, 60, 700, 10),
            rect(700, 60, 650, 10),
            rect(650, 60, 600, 10),
        ]
    );
}

#[test]
fn a_bar_fits_where_its_coordinates_do() {
    assert!(TopBar::fits(&rect(0, 0, 600, 50), 80));
    assert!(TopBar::fits(&rect(0, 60, 600, 10), 80));
    assert!(!TopBar::fits(&rect(0, i32::MIN, 600, i32::MAX), 80));
    assert!(!TopBar::fits(&rect(i32::MAX - 10, 0, i32::MAX, 50), 80));
    assert!(!TopBar::fits(&rect(0, 0, 600, 50), i32::MIN));
    assert!(TopBar::fits(&rect(i32::MIN + 150, 0, 0, 50), 80));
    assert!(!TopBar::fits(&rect(0, 0, i32::MIN + 149, 50), 0));
}

#[test]
fn the_pages_are_counted_anew_for_another_page_size() {
    let metadata = vec![entry("A", "a"), entry("B", "b"), entry("C", "c")];
    let mut home = open(&metadata, 1, 1);
    home.set_page_size(2, 1);
    assert_eq!((home.pages_count(), home.current_page()), (2, 1));
    home.set_page_size(3, 4);
    assert_eq!((home.pages_count(), home.current_page()), (1, 0));
    home.set_page_size(0, 7);
    assert_eq!((home.pages_count(), home.current_page()), (usize::MAX, 7));
}
