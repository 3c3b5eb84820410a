//! The catalog: one entry per document of the library.

use vstd::prelude::*;
use crate::category_set::CategorySet;

verus! {

/// The orders in which the catalog can be shown.
#[derive(Debug, Copy, Clone, Eq, PartialEq, Structural)]
pub enum SortMethod {
    Opened,
    Added,
    Progress,
    Author,
    Size,
    Kind,
}

impl SortMethod {
    /// Whether the order starts, by default, with the greatest entry.
    pub open spec fn reverse_order_spec(&self) -> bool {
        !(*self == SortMethod::Author || *self == SortMethod::Kind)
    }

    #[verifier::when_used_as_spec(reverse_order_spec)]
    pub fn reverse_order(&self) -> (b: bool)
        ensures
            b == self.reverse_order_spec(),
    {
        match *self {
            SortMethod::Author | SortMethod::Kind => false,
            _ => true,
        }
    }

    /// The name under which the order is offered to the reader.
    pub open spec fn label_spec(&self) -> Seq<char> {
        match *self {
            SortMethod::Opened => "Date Opened"@,
            SortMethod::Added => "Date Added"@,
            SortMethod::Progress => "Progress"@,
            SortMethod::Author => "Author"@,
            SortMethod::Size => "File Size"@,
            SortMethod::Kind => "File Type"@,
        }
    }

    pub fn label(&self) -> (name: &'static str)
        ensures
            name@ == self.label_spec(),
    {
        match *self {
            SortMethod::Opened => "Date Opened",
            SortMethod::Added => "Date Added",
            SortMethod::Progress => "Progress",
            SortMethod::Author => "Author",
            SortMethod::Size => "File Size",
            SortMethod::Kind => "File Type",
        }
    }
}

/// The part of each edge of a page that is cut away, each as the bit pattern
/// of a binary32 fraction of the page.
#[derive(Debug, Copy, Clone, Eq, PartialEq, Structural)]
pub struct Margin {
    pub top: u32,
    pub right: u32,
    pub bottom: u32,
    pub left: u32,
}

/// Where a document lies and what it is.
#[derive(Debug)]
pub struct FileInfo {
    /// The path of the file, relative to the library.
    pub path: String,
    /// The kind of document, as its extension names it.
    pub kind: String,
    /// The size of the file in bytes.
    pub size: u64,
}

impl Clone for FileInfo {
    fn clone(&self) -> (copy: FileInfo)
        ensures
            copy == *self,
    {
        FileInfo { path: self.path.clone(), kind: self.kind.clone(), size: self.size }
    }
}

impl Default for FileInfo {
    fn default() -> (file: FileInfo)
        ensures
            file.path@.len() == 0,
            file.kind@.len() == 0,
            file.size == 0,
    {
        FileInfo { path: String::new(), kind: String::new(), size: 0 }
    }
}

/// One entry of the catalog.
#[derive(Debug)]
pub struct Info {
    pub title: String,
    pub subtitle: String,
    pub author: String,
    pub year: String,
    pub language: String,
    pub publisher: String,
    pub series: String,
    pub volume: String,
    pub number: String,
    pub isbn: String,
    /// The categories the entry belongs to.
    pub categories: CategorySet,
    pub file: FileInfo,
}

/// What the filter reads of an entry: its texts and its categories.
pub struct InfoView {
    pub title: Seq<char>,
    pub subtitle: Seq<char>,
    pub author: Seq<char>,
    pub year: Seq<char>,
    pub language: Seq<char>,
    pub publisher: Seq<char>,
    pub series: Seq<char>,
    pub volume: Seq<char>,
    pub number: Seq<char>,
    pub isbn: Seq<char>,
    pub categories: Set<Seq<char>>,
    pub path: Seq<char>,
    pub kind: Seq<char>,
    pub size: u64,
}

impl View for Info {
    type V = InfoView;

    open spec fn view(&self) -> InfoView {
        InfoView {
            title: self.title@,
            subtitle: self.subtitle@,
            author: self.author@,
            year: self.year@,
            language: self.language@,
            publisher: self.publisher@,
            series: self.series@,
            volume: self.volume@,
            number: self.number@,
            isbn: self.isbn@,
            categories: self.categories@,
            path: self.file.path@,
            kind: self.file.kind@,
            size: self.file.size,
        }
    }
}

impl Clone for Info {
    fn clone(&self) -> (copy: Info)
        ensures
            copy@ == self@,
            copy.categories.order() == self.categories.order(),
    {
        Info {
            title: self.title.clone(),
            subtitle: self.subtitle.clone(),
            author: self.author.clone(),
            year: self.year.clone(),
            language: self.language.clone(),
            publisher: self.publisher.clone(),
            series: self.series.clone(),
            volume: self.volume.clone(),
            number: self.number.clone(),
            isbn: self.isbn.clone(),
            categories: self.categories.clone(),
            file: self.file.clone(),
        }
    }
}

impl Default for Info {
    fn default() -> (info: Info)
        ensures
            info@ == (InfoView {
                title: Seq::empty(),
                subtitle: Seq::empty(),
                author: Seq::empty(),
                year: Seq::empty(),
                language: Seq::empty(),
                publisher: Seq::empty(),
                series: Seq::empty(),
                volume: Seq::empty(),
                number: Seq::empty(),
                isbn: Seq::empty(),
                categories: Set::empty(),
                path: Seq::empty(),
                kind: Seq::empty(),
                size: 0,
            }),
    {
        let file = FileInfo::default();
        let info = Info {
            title: String::new(),
            subtitle: String::new(),
            author: String::new(),
            year: String::new(),
            language: String::new(),
            publisher: String::new(),
            series: String::new(),
            volume: String::new(),
            number: String::new(),
            isbn: String::new(),
            categories: CategorySet::new(),
            file,
        };
        assert(info.file.path@ =~= Seq::<char>::empty());
        assert(info.file.kind@ =~= Seq::<char>::empty());
        info
    }
}

/// The catalog.
pub type Metadata = Vec<Info>;

/// The views of the entries of a catalog.
pub open spec fn info_views(entries: Seq<Info>) -> Seq<InfoView> {
    entries.map_values(|info: Info| info@)
}

} // verus!
