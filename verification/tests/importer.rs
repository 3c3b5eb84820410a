use plato::category_set::CategorySet;
use plato::importer::{
    category_from_path, consolidate, consolidate_one, file_name_from_info, import, is_consolidable,
    label_from_path, lookup_fields, lookup_terms, lookup_url, parse_lookup, retreive,
};
use plato::metadata::{FileInfo, Info};

fn titled(title: &str) -> Info {
    let mut info = Info::default();
    info.title = title.to_string();
    info
}

#[test]
fn consolidate_takes_the_subtitle_from_the_title() {
    let mut info = titled("the art of war :  an old book");
    consolidate_one(&mut info);
    assert_eq!(info.title, "The Art of War");
    assert_eq!(info.subtitle, "An Old Book");
}

#[test]
fn consolidate_keeps_a_subtitle_that_is_there() {
    let mut info = titled("one: two");
    info.subtitle = "three".to_string();
    info.language = "fr".to_string();
    consolidate_one(&mut info);
    assert_eq!(info.title, "one: two");
    assert_eq!(info.subtitle, "three");
}

#[test]
fn consolidate_leaves_the_case_alone_where_a_language_is_given() {
    let mut info = titled("l'art de la guerre: un livre");
    info.language = "fr".to_string();
    consolidate_one(&mut info);
    assert_eq!(info.title, "l’art de la guerre");
    assert_eq!(info.subtitle, "un livre");
}

#[test]
fn consolidate_curls_apostrophes_and_shortens_the_year() {
    let mut info = titled("x");
    info.language = "en".to_string();
    info.author = "O'Brien".to_string();
    info.series = "Dune's End".to_string();
    info.publisher = "'Press'".to_string();
    info.year = "2001-03-04".to_string();
    info.isbn = "it's".to_string();
    consolidate_one(&mut info);
    assert_eq!(info.author, "O’Brien");
    assert_eq!(info.series, "Dune’s End");
    assert_eq!(info.publisher, "’Press’");
    assert_eq!(info.year, "2001");
    assert_eq!(info.isbn, "it's");
    let mut short = titled("x");
    short.year = "1999".to_string();
    consolidate_one(&mut short);
    assert_eq!(short.year, "1999");
}

#[test]
fn consolidate_goes_through_the_catalog() {
    let mut metadata = vec![titled("a tale of two cities"), titled("war and peace")];
    consolidate(&mut metadata);
    assert_eq!(metadata[0].title, "A Tale of Two Cities");
    assert_eq!(metadata[1].title, "War and Peace");
}

#[test]
fn a_colon_at_the_end_gives_an_empty_subtitle() {
    let mut info = titled("title:");
    info.language = "en".to_string();
    consolidate_one(&mut info);
    assert_eq!(info.title, "title");
    assert_eq!(info.subtitle, "");
}

#[test]
fn labels_keep_letters_digits_hyphens_and_apostrophes() {
    assert_eq!(label_from_path("war_and.peace-2 (it's)"), "war and peace-2  it's ");
    assert_eq!(label_from_path("été2"), "été2");
    assert_eq!(label_from_path(""), "");
}

#[test]
fn file_names_are_made_of_what_the_entry_has() {
    let mut info = titled("Dune");
    info.file.kind = "epub".to_string();
    assert_eq!(file_name_from_info(&info, "Dune", "", ""), "Dune.epub");
    info.subtitle = "Sub".to_string();
    info.volume = "3".to_string();
    info.number = "7".to_string();
    info.author = "Frank Herbert".to_string();
    assert_eq!(
        file_name_from_info(&info, "Dune", "Sub", "Frank Herbert"),
        "Dune - Sub - 3 - 7 - Frank Herbert.epub"
    );
    info.series = "Dune".to_string();
    assert_eq!(
        file_name_from_info(&info, "Dune", "Sub", "Frank Herbert"),
        "Dune - Sub - 7 - Frank Herbert.epub"
    );
}

#[test]
fn file_names_lose_double_dots_and_spaced_slashes() {
    let mut info = titled("t");
    info.author = "a".to_string();
    info.file.kind = "pdf".to_string();
    assert_eq!(file_name_from_info(&info, "A... B", "", "X / Y Jr."), "A.. B - X, Y Jr.pdf");
    assert_eq!(file_name_from_info(&Info::default(), "x", "y", "z"), "");
}

fn file(path: &str) -> FileInfo {
    FileInfo { path: path.to_string(), kind: "epub".to_string(), size: 3 }
}

#[test]
fn import_adds_the_files_that_are_new() {
    let mut known = Info::default();
    known.file = file("fiction/old.epub");
    let metadata = vec![known];
    let files = vec![
        file("fiction/sci-fi/new.epub"),
        file("fiction/old.epub"),
        file("loose.epub"),
        file("fiction/sci-fi/new.epub"),
    ];
    let found = import(&files, &metadata, '/');
    let paths: Vec<&str> = found.iter().map(|info| info.file.path.as_str()).collect();
    assert_eq!(paths, vec!["fiction/sci-fi/new.epub", "loose.epub", "fiction/sci-fi/new.epub"]);
    assert_eq!(found[0].categories.to_vec(), vec!["fiction/sci-fi"]);
    assert_eq!(found[0].file.kind, "epub");
    assert_eq!(found[0].file.size, 3);
    assert_eq!(found[0].title, "");
    assert!(found[1].categories.is_empty());
}

#[test]
fn categories_follow_the_directories() {
    assert_eq!(category_from_path("a/b/c.epub", '/'), "a/b");
    assert_eq!(category_from_path("c.epub", '/'), "");
    assert_eq!(category_from_path("a\\b/c\\d.epub", '\\'), "a/bc");
    assert_eq!(category_from_path("a/", '/'), "a");
}

const PAGE: &str = "<html><a href=\"/Lookup/Book/0441013597/1\"> Dune &amp; Sons<\n/a> by <u>Frank \
                    Herbert</u> from\n<i>Ace &#66;ooks</i> in <i>2005</i> <i>more</i></html>";

#[test]
fn a_page_of_results_is_parsed() {
    let lookup = parse_lookup(PAGE).unwrap();
    assert_eq!(lookup.title, " Dune & Sons");
    assert_eq!(lookup.author, "Frank Herbert");
    assert_eq!(lookup.publisher, "Ace Books");
    assert_eq!(lookup.year, "2005");
    assert!(parse_lookup("<html>No results</html>").is_none());
}

#[test]
fn a_field_that_cannot_be_decoded_is_empty() {
    let page = "/Lookup/Book/1>T &bogus; x<b><u>A</u> by <i>P</i> in <i>Y</i>";
    let lookup = parse_lookup(page).unwrap();
    assert_eq!(lookup.title, "");
    assert_eq!(lookup.author, "A");
}

#[test]
fn the_fields_are_the_four_groups() {
    let text = |s: &str| Some(s.to_string());
    let groups = Some(vec![text("all"), text("t"), text("a"), text("p"), text("y")]);
    assert_eq!(lookup_fields(&groups), Some(vec!["t".to_string(), "a".into(), "p".into(), "y".into()]));
    let holed = Some(vec![text("all"), text("t"), None, text("p"), text("y")]);
    assert_eq!(lookup_fields(&holed), None);
    assert_eq!(lookup_fields(&Some(vec![text("all"), text("t")])), None);
    assert_eq!(lookup_fields(&None), None);
}

#[test]
fn retreive_fills_the_entry() {
    let mut info = Info::default();
    info.isbn = "0441013597".to_string();
    info.categories = {
        let mut set = CategorySet::new();
        set.insert("fiction");
        set
    };
    assert!(retreive(&mut info, PAGE));
    assert_eq!(info.title, " Dune & Sons");
    assert_eq!(info.author, "Frank Herbert");
    assert_eq!(info.publisher, "Ace Books");
    assert_eq!(info.year, "2005");
    assert_eq!(info.isbn, "0441013597");
    assert!(info.categories.contains("fiction"));
    let mut other = titled("kept");
    assert!(!retreive(&mut other, "nothing"));
    assert_eq!(other.title, "kept");
}

#[test]
fn the_terms_are_the_isbn_or_the_label() {
    let mut info = Info::default();
    assert_eq!(lookup_terms(&info, "war_and_peace", false), Some("war and peace".to_string()));
    assert_eq!(lookup_terms(&info, "war_and_peace", true), None);
    assert_eq!(lookup_terms(&info, "", false), None);
    info.isbn = "123".to_string();
    assert_eq!(lookup_terms(&info, "war_and_peace", false), Some("123".to_string()));
    assert_eq!(lookup_terms(&info, "war_and_peace", true), Some("123".to_string()));
    info.title = "known".to_string();
    assert_eq!(lookup_terms(&info, "war_and_peace", false), None);
    assert_eq!(lookup_url("123"), "http://lookupbyisbn.com/Search/Book/123/1");
}

#[test]
fn a_title_with_too_many_brackets_in_a_row_is_left_alone() {
    let nested = format!("{}a: b's", "(_".repeat(17));
    let fine = format!("{}a{} x: b's", "(".repeat(16), ")(".repeat(40));
    assert!(!is_consolidable(&titled(&nested)));
    assert!(is_consolidable(&titled(&fine)));
    assert!(is_consolidable(&titled("")));
    let mut given = titled(&nested);
    given.language = "en".to_string();
    assert!(is_consolidable(&given));
    let mut long_subtitle = titled("a: b");
    long_subtitle.subtitle = "((((((((((((((((((x".to_string();
    assert!(!is_consolidable(&long_subtitle));
    let mut metadata = vec![titled(&nested), titled("war and peace"), given];
    consolidate(&mut metadata);
    assert_eq!(metadata[0].title, nested);
    assert_eq!(metadata[0].subtitle, "");
    assert_eq!(metadata[1].title, "War and Peace");
    assert_eq!(metadata[2].title, format!("{}a", "(_".repeat(17)));
    assert_eq!(metadata[2].subtitle, "b’s");
}

#[test]
fn white_space_of_every_kind_is_trimmed_around_the_colon() {
    let mut info = titled("a\u{2003}\t\u{85}:\u{a0}\u{3000}\u{1680} b \u{200b}c");
    info.language = "fr".to_string();
    consolidate_one(&mut info);
    assert_eq!(info.title, "a");
    assert_eq!(info.subtitle, "b \u{200b}c");
    // The zero width space is no white space.
    let mut other = titled("a\u{200b}:\u{200b}b");
    other.language = "fr".to_string();
    consolidate_one(&mut other);
    assert_eq!(other.title, "a\u{200b}");
    assert_eq!(other.subtitle, "\u{200b}b");
}

#[test]
fn brackets_up_to_the_bound_are_put_in_title_case() {
    let mut info = titled("((((((((((((((((the end");
    assert!(is_consolidable(&info));
    consolidate_one(&mut info);
    assert_eq!(info.title, "((((((((((((((((The End");
}
