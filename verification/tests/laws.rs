use plato::category_set::CategorySet;
use plato::geom::{Point, Rectangle};
use plato::metadata::{Info, Metadata};
use plato::symbolic_path::is_descendant_of;
use plato::view::home::{lets_through, Home};
use plato::view::Hub;

fn entry(title: &str, path: &str, categories: &[&str]) -> Info {
    let mut info = Info::default();
    info.title = title.to_string();
    info.file.path = path.to_string();
    for c in categories {
        info.categories.insert(c);
    }
    info
}

fn open(metadata: &Metadata, summary_size: u8, lines: usize) -> Home {
    let rect = Rectangle { min: Point { x: 0, y: 0 }, max: Point { x: 600, y: 800 } };
    Home::new(rect, &mut Hub::new(), metadata, summary_size, lines)
}

fn sorted(set: &CategorySet) -> Vec<String> {
    let mut list = set.to_vec();
    list.sort();
    list
}

fn titles(home: &Home) -> Vec<String> {
    home.visible_books().iter().map(|info| info.title.clone()).collect()
}

fn is_antichain(set: &CategorySet) -> bool {
    let list = set.to_vec();
    list.iter().all(|a| list.iter().all(|b| !is_descendant_of(a, b)))
}

fn is_coherent(home: &Home) -> bool {
    let selected = home.selected_categories().to_vec();
    let negated = home.negated_categories().to_vec();
    is_antichain(home.selected_categories())
        && is_antichain(home.negated_categories())
        && selected.iter().all(|s| negated.iter().all(|n| s != n))
}

#[test]
fn two_selecting_taps_give_back_the_selection() {
    let metadata: Metadata = vec![];
    let mut home = open(&metadata, 1, 10);
    home.toggle_select_category("a/b");
    home.toggle_select_category("c");
    // On a path that is selected.
    home.toggle_select_category("c");
    home.toggle_select_category("c");
    assert_eq!(sorted(home.selected_categories()), vec!["a/b", "c"]);
    // On a path that has no relative among the selected ones.
    home.toggle_select_category("d/e");
    home.toggle_select_category("d/e");
    assert_eq!(sorted(home.selected_categories()), vec!["a/b", "c"]);
}

#[test]
fn two_selecting_taps_beside_a_relative_lose_the_relative() {
    let metadata: Metadata = vec![];
    let mut home = open(&metadata, 1, 10);
    home.toggle_select_category("fiction");
    home.toggle_select_category("fiction/sci-fi");
    assert_eq!(sorted(home.selected_categories()), vec!["fiction/sci-fi"]);
    home.toggle_select_category("fiction/sci-fi");
    assert!(home.selected_categories().is_empty());
}

#[test]
fn selecting_lifts_the_exclusion_of_the_path_and_of_what_lies_below() {
    let metadata: Metadata = vec![];
    let mut home = open(&metadata, 1, 10);
    home.toggle_negate_category("a");
    home.toggle_negate_category("b/c");
    home.toggle_negate_category("d/e/f");
    home.toggle_negate_category("d/g");
    home.toggle_negate_category("dd/x");
    home.toggle_select_category("a/x");
    home.toggle_select_category("b/c");
    home.toggle_select_category("d");
    // What is excluded above a selected path stays excluded.
    assert_eq!(sorted(home.negated_categories()), vec!["a", "dd/x"]);
    assert_eq!(sorted(home.selected_categories()), vec!["a/x", "b/c", "d"]);
}

#[test]
fn an_excluded_path_below_the_tapped_one_is_let_in() {
    let metadata = vec![entry("A", "", &["a/b"]), entry("B", "", &["a/c"])];
    let mut home = open(&metadata, 1, 10);
    home.toggle_negate_category("a/b");
    home.refresh_visibles(&metadata, 10, true);
    assert_eq!(titles(&home), vec!["B"]);
    home.toggle_select_category("a");
    home.refresh_visibles(&metadata, 10, true);
    assert!(home.negated_categories().is_empty());
    assert_eq!(titles(&home), vec!["A", "B"]);
}

#[test]
fn excluding_drops_the_path_and_what_lies_below_from_the_selection() {
    let metadata: Metadata = vec![];
    let mut home = open(&metadata, 1, 10);
    home.toggle_select_category("a/x");
    home.toggle_select_category("b");
    home.toggle_select_category("c");
    home.toggle_negate_category("a");
    home.toggle_negate_category("b");
    home.toggle_negate_category("c/y");
    assert_eq!(sorted(home.selected_categories()), vec!["c"]);
    assert_eq!(sorted(home.negated_categories()), vec!["a", "b", "c/y"]);
    home.toggle_negate_category("a/z");
    assert_eq!(sorted(home.negated_categories()), vec!["a/z", "b", "c/y"]);
    home.toggle_negate_category("b");
    assert_eq!(sorted(home.negated_categories()), vec!["a/z", "c/y"]);
}

#[test]
fn the_filter_stays_coherent_through_any_taps() {
    let paths = ["a", "a/b", "a/b/c", "a/d", "e", "e/f", "a/b/c/g"];
    let metadata: Metadata = vec![];
    let mut home = open(&metadata, 1, 10);
    let mut seed: u32 = 12345;
    for _ in 0..400 {
        seed = seed.wrapping_mul(1103515245).wrapping_add(12345);
        let path = paths[(seed >> 16) as usize % paths.len()];
        if (seed >> 8) % 2 == 0 {
            home.toggle_select_category(path);
        } else {
            home.toggle_negate_category(path);
        }
        assert!(is_coherent(&home));
    }
}

#[test]
fn a_lower_case_query_finds_the_file() {
    let metadata = vec![
        entry("Dune", "dune.epub", &[]),
        entry("Foundation", "foundation.epub", &[]),
    ];
    let mut home = open(&metadata, 1, 10);
    home.set_query("dune");
    home.refresh_visibles(&metadata, 10, true);
    assert_eq!(titles(&home), vec!["Dune"]);
}

#[test]
fn the_query_is_sought_in_every_text() {
    let mut info = entry("T", "dir/file.epub", &["cat/sub"]);
    info.subtitle = "S".to_string();
    info.author = "Au".to_string();
    info.publisher = "Pub".to_string();
    let none = CategorySet::new();
    for (query, found) in
        [("", true), ("T", true), ("S", true), ("Au", true), ("t/s", true), ("r/f", true), ("Pub", false), ("TS", false)]
    {
        assert_eq!(lets_through(&info, query, &none, &none), found, "{}", query);
    }
}

#[test]
fn an_entry_has_to_meet_every_selected_path_and_avoid_every_excluded_one() {
    let info = entry("T", "", &["a/b", "c"]);
    let set = |paths: &[&str]| {
        let mut s = CategorySet::new();
        for p in paths {
            s.insert(p);
        }
        s
    };
    let none = CategorySet::new();
    assert!(lets_through(&info, "", &set(&["a", "c"]), &none));
    assert!(lets_through(&info, "", &set(&["a/b"]), &none));
    assert!(!lets_through(&info, "", &set(&["a", "d"]), &none));
    assert!(!lets_through(&info, "", &set(&["a/b/x"]), &none));
    assert!(lets_through(&info, "", &none, &set(&["d", "a/b/x", "a/c"])));
    assert!(!lets_through(&info, "", &none, &set(&["a"])));
    assert!(!lets_through(&info, "", &none, &set(&["c"])));
    assert!(!lets_through(&info, "", &none, &set(&["a/b"])));
    assert!(!lets_through(&entry("T", "", &[]), "", &set(&["a"]), &none));
    assert!(lets_through(&entry("T", "", &[]), "", &none, &set(&["a"])));
}

#[test]
fn selected_and_excluded_paths_are_listed_with_what_lies_above() {
    let metadata = vec![entry("A", "", &["x/y/z", "u"])];
    let mut home = open(&metadata, 1, 10);
    assert_eq!(sorted(home.visible_categories()), vec!["u", "x"]);
    home.toggle_select_category("p/q/r");
    home.toggle_negate_category("m/n");
    home.refresh_visibles(&metadata, 10, true);
    assert!(titles(&home).is_empty());
    assert_eq!(sorted(home.visible_categories()), vec!["m", "m/n", "p", "p/q", "p/q/r"]);
    home.toggle_select_category("p/q/r");
    home.toggle_select_category("x/y");
    home.refresh_visibles(&metadata, 10, true);
    assert_eq!(titles(&home), vec!["A"]);
    assert_eq!(sorted(home.visible_categories()), vec!["m", "m/n", "u", "x", "x/y", "x/y/z"]);
}

#[test]
fn the_page_follows_a_list_that_got_shorter() {
    let metadata = vec![entry("A", "", &["a"]), entry("B", "", &["b"]), entry("C", "", &["b"])];
    let mut home = open(&metadata, 1, 1);
    assert_eq!(home.pages_count(), 3);
    assert!(home.go_to_page(2));
    home.toggle_select_category("b");
    home.refresh_visibles(&metadata, 1, false);
    assert_eq!((home.pages_count(), home.current_page()), (2, 1));
    home.toggle_negate_category("b");
    home.refresh_visibles(&metadata, 1, false);
    assert_eq!((home.pages_count(), home.current_page()), (1, 0));
    home.set_query("nothing");
    home.refresh_visibles(&metadata, 1, false);
    assert_eq!((home.pages_count(), home.current_page()), (0, 0));
}
