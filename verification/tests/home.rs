use plato::category_set::CategorySet;
use plato::geom::{CycleDir, Point, Rectangle};
use plato::metadata::{Info, Metadata, SortMethod};
use plato::view::home::Home;
use plato::view::Hub;

fn entry(title: &str, categories: &[&str]) -> Info {
    let mut info = Info::default();
    info.title = title.to_string();
    let mut set = CategorySet::new();
    for c in categories {
        set.insert(c);
    }
    info.categories = set;
    info
}

fn open(metadata: &Metadata, summary_size: u8, lines: usize) -> Home {
    let rect = Rectangle { min: Point { x: 0, y: 0 }, max: Point { x: 600, y: 800 } };
    Home::new(rect, &mut Hub::new(), metadata, summary_size, lines)
}

fn titles(home: &Home) -> Vec<String> {
    home.visible_books().iter().map(|info| info.title.clone()).collect()
}

fn sorted(set: &CategorySet) -> Vec<String> {
    let mut list = set.to_vec();
    list.sort();
    list
}

fn shelf() -> Metadata {
    vec![
        entry("A", &["fiction/sci-fi"]),
        entry("B", &["fiction/mystery"]),
        entry("C", &[]),
    ]
}

#[test]
fn select_then_negate_narrows_the_list() {
    let metadata = shelf();
    let mut home = open(&metadata, 1, 10);
    assert_eq!(titles(&home), vec!["A", "B", "C"]);
    home.toggle_select_category("fiction");
    home.refresh_visibles(&metadata, 10, true);
    assert_eq!(titles(&home), vec!["A", "B"]);
    home.toggle_negate_category("fiction/mystery");
    home.refresh_visibles(&metadata, 10, true);
    assert_eq!(titles(&home), vec!["A"]);
    assert_eq!(sorted(home.selected_categories()), vec!["fiction"]);
    assert_eq!(sorted(home.negated_categories()), vec!["fiction/mystery"]);
}

#[test]
fn query_is_case_sensitive() {
    let metadata = vec![entry("Dune", &[]), entry("Foundation", &[])];
    let mut home = open(&metadata, 1, 10);
    home.set_query("dune");
    home.refresh_visibles(&metadata, 10, true);
    assert_eq!(titles(&home), Vec::<String>::new());
    home.set_query("Dune");
    home.refresh_visibles(&metadata, 10, true);
    assert_eq!(titles(&home), vec!["Dune"]);
}

#[test]
fn category_list_shows_top_levels_and_one_level_below_a_selection() {
    let metadata = shelf();
    let mut home = open(&metadata, 1, 10);
    assert_eq!(sorted(home.visible_categories()), vec!["fiction"]);
    home.toggle_select_category("fiction");
    home.refresh_visibles(&metadata, 10, true);
    assert_eq!(
        sorted(home.visible_categories()),
        vec!["fiction", "fiction/mystery", "fiction/sci-fi"]
    );
    home.toggle_negate_category_children("fiction");
    assert_eq!(
        sorted(home.negated_categories()),
        vec!["fiction/mystery", "fiction/sci-fi"]
    );
    assert_eq!(sorted(home.selected_categories()), vec!["fiction"]);
    home.refresh_visibles(&metadata, 10, true);
    assert_eq!(titles(&home), Vec::<String>::new());
    assert_eq!(
        sorted(home.visible_categories()),
        vec!["fiction", "fiction/mystery", "fiction/sci-fi"]
    );
}

#[test]
fn pages_follow_the_list() {
    let metadata = shelf();
    let mut home = open(&metadata, 1, 2);
    assert_eq!(home.pages_count(), 2);
    assert_eq!(home.sort_method(), SortMethod::Opened);
    assert!(home.reverse_order());
    assert!(home.set_current_page(CycleDir::Next));
    assert!(!home.set_current_page(CycleDir::Next));
    assert_eq!(home.current_page(), 1);
    home.toggle_select_category("fiction/sci-fi");
    home.refresh_visibles(&metadata, 2, false);
    assert_eq!(home.pages_count(), 1);
    assert_eq!(home.current_page(), 0);
    assert!(!home.go_to_page(1));
    assert!(home.go_to_page(0));
    assert!(!home.set_current_page(CycleDir::Previous));
}
