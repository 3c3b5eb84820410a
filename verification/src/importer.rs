//! Bringing documents into the catalog, and tidying what the catalog says of
//! them.

use vstd::prelude::*;
use fnv::FnvHashSet;
use crate::category_set::CategorySet;
use crate::metadata::{info_views, FileInfo, Info, InfoView, Metadata};
use crate::symbolic_path::PATH_SEPARATOR;
use crate::text::{
    chars, find_char, first_index_of, is_letter_or_digit, replace, replaced, string_of, trim_end,
    trim_start_from, trimmed_end, trimmed_start,
};

verus! {

/// The text in title case, as `titlecase::titlecase` gives it: capitalized
/// after the style that John Gruber set out for the titles of posts.
pub uninterp spec fn title_cased(text: Seq<char>) -> Seq<char>;

/// The text with its HTML entities decoded, as
/// `html_entities::decode_html_entities` gives it; `None` where the text
/// holds an entity that is ill-formed, unknown or cut short.
pub uninterp spec fn entities_decoded(html: Seq<char>) -> Option<Seq<char>>;

/// The groups of the leftmost match of the regular expression `pattern` in
/// `text`, as `regex::Regex::captures` gives them for the expression that
/// `regex::Regex::new` makes of `pattern`: first the whole match, then each
/// group of the pattern, `None` for a group that took no part in the match.
/// `None` where `pattern` is no regular expression, or matches nowhere.
pub uninterp spec fn captured(pattern: Seq<char>, text: Seq<char>) -> Option<
    Seq<Option<Seq<char>>>,
>;

/// The paths that a set of paths holds.
pub uninterp spec fn held(set: FnvHashSet<String>) -> Set<Seq<char>>;

/// The views of the groups of a match.
pub open spec fn group_views(groups: Option<Vec<Option<String>>>) -> Option<
    Seq<Option<Seq<char>>>,
> {
    match groups {
        None => None,
        Some(list) => Some(
            list@.map_values(
                |group: Option<String>|
                    match group {
                        None => None,
                        Some(text) => Some(text@),
                    },
            ),
        ),
    }
}

/// Calls `titlecase::titlecase`. The text is no longer than `i32::MAX`
/// characters, because the crate counts the brackets of a word in an `i32`;
/// and no more than `MAX_BRACKETS` opening brackets follow one another in it,
/// because the crate calls itself once for each opening bracket that a word
/// starts with, underscores between them aside.
#[verifier::external_body]
fn title_case(text: &str) -> (out: String)
    requires
        can_be_cased(text@),
    ensures
        out@ == title_cased(text@),
{
    titlecase::titlecase(text)
}

/// Calls `html_entities::decode_html_entities`, and gives `None` for its
/// error.
#[verifier::external_body]
fn decode_entities(html: &str) -> (out: Option<String>)
    ensures
        out is Some == entities_decoded(html@) is Some,
        out matches Some(text) ==> text@ == entities_decoded(html@)->0,
{
    html_entities::decode_html_entities(html).ok()
}

/// Compiles `pattern` with `regex::Regex::new` and matches it against `text`
/// with `regex::Regex::captures`; hands out the text of each group.
#[verifier::external_body]
fn capture_groups(pattern: &str, text: &str) -> (groups: Option<Vec<Option<String>>>)
    ensures
        group_views(groups) == captured(pattern@, text@),
{
    let re = regex::Regex::new(pattern).ok()?;
    let caps = re.captures(text)?;
    Some(caps.iter().map(|group| group.map(|m| m.as_str().to_owned())).collect())
}

/// `FnvHashSet::default`: a set that holds nothing.
#[verifier::external_body]
fn no_paths() -> (set: FnvHashSet<String>)
    ensures
        held(set) == Set::<Seq<char>>::empty(),
{
    FnvHashSet::default()
}

/// `FnvHashSet::insert`, with a copy of the path: the set holds the path
/// too.
#[verifier::external_body]
fn remember_path(set: &mut FnvHashSet<String>, path: &str)
    ensures
        held(*final(set)) == held(*old(set)).insert(path@),
{
    set.insert(path.to_owned());
}

/// `FnvHashSet::contains`: whether the set holds the path.
#[verifier::external_body]
fn knows_path(set: &FnvHashSet<String>, path: &str) -> (known: bool)
    ensures
        known == held(*set).contains(path@),
{
    set.contains(path)
}

/// The text with each straight apostrophe replaced by a curly one.
pub open spec fn curly(text: Seq<char>) -> Seq<char> {
    text.map_values(
        |c: char|
            if c == '\'' {
                '’'
            } else {
                c
            },
    )
}

/// A title and a subtitle, the subtitle taken from the title where there was
/// none: what follows the first colon of the title, while the title keeps
/// what stands before it, both without the white space around the colon.
pub open spec fn split_title(title: Seq<char>, subtitle: Seq<char>) -> (Seq<char>, Seq<char>) {
    let colon = first_index_of(title, ':');
    if subtitle.len() == 0 && colon < title.len() {
        (trimmed_end(title.take(colon)), trimmed_start(title.skip(colon + 1)))
    } else {
        (title, subtitle)
    }
}

/// An entry, tidied: a subtitle is taken from the title where there was
/// none; title and subtitle are put in title case where no language is
/// given; straight apostrophes become curly ones in title, subtitle, author,
/// series and publisher; and the year keeps its first four characters.
pub open spec fn consolidated(info: InfoView) -> InfoView {
    let split = split_title(info.title, info.subtitle);
    let cased = if info.language.len() == 0 {
        (title_cased(split.0), title_cased(split.1))
    } else {
        split
    };
    InfoView {
        title: curly(cased.0),
        subtitle: curly(cased.1),
        author: curly(info.author),
        year: if info.year.len() > 4 {
            info.year.take(4)
        } else {
            info.year
        },
        series: curly(info.series),
        publisher: curly(info.publisher),
        ..info
    }
}

/// The most opening brackets that may follow one another in a text that is
/// put in title case.
pub const MAX_BRACKETS: usize = 16;

/// The number of opening brackets at the end of `text`, with nothing but
/// underscores between and behind them.
pub open spec fn brackets_at_end(text: Seq<char>) -> nat
    decreases text.len(),
{
    if text.len() == 0 {
        0
    } else if text.last() == '(' {
        1 + brackets_at_end(text.drop_last())
    } else if text.last() == '_' {
        brackets_at_end(text.drop_last())
    } else {
        0
    }
}

/// The greatest number of opening brackets that follow one another in
/// `text` with nothing but underscores between them.
pub open spec fn bracket_run(text: Seq<char>) -> nat
    decreases text.len(),
{
    if text.len() == 0 {
        0
    } else if brackets_at_end(text) > bracket_run(text.drop_last()) {
        brackets_at_end(text)
    } else {
        bracket_run(text.drop_last())
    }
}

/// Whether the text can be put in title case: it is no longer than
/// `i32::MAX` characters, and no more than `MAX_BRACKETS` opening brackets
/// follow one another in it.
pub open spec fn can_be_cased(text: Seq<char>) -> bool {
    text.len() <= i32::MAX && bracket_run(text) <= MAX_BRACKETS
}

/// Whether the entry can be tidied: where it gives no language, its title
/// and its subtitle, as `split_title` gives them, can be put in title case.
pub open spec fn can_consolidate(info: InfoView) -> bool {
    info.language.len() == 0 ==> can_be_cased(split_title(info.title, info.subtitle).0)
        && can_be_cased(split_title(info.title, info.subtitle).1)
}

/// Whether the text can be put in title case.
fn is_caseable(text: &Vec<char>) -> (b: bool)
    ensures
        b == can_be_cased(text@),
{
    let mut at_end: usize = 0;
    let mut best: usize = 0;
    let mut i: usize = 0;
    while i < text.len()
        invariant
            i <= text.len(),
            at_end == brackets_at_end(text@.take(i as int)),
            best == bracket_run(text@.take(i as int)),
            at_end <= i,
            best <= i,
        decreases text.len() - i,
    {
        proof {
            assert(text@.take(i + 1).drop_last() =~= text@.take(i as int));
            assert(text@.take(i + 1).last() == text[i as int]);
        }
        if text[i] == '(' {
            at_end = at_end + 1;
        } else if text[i] != '_' {
            at_end = 0;
        }
        if at_end > best {
            best = at_end;
        }
        i = i + 1;
    }
    assert(text@.take(i as int) =~= text@);
    text.len() <= 0x7fff_ffff && best <= MAX_BRACKETS
}

/// The title and the subtitle of the entry, the subtitle taken from the
/// title where there was none.
fn split(info: &Info) -> (parts: (Vec<char>, Vec<char>))
    ensures
        (parts.0@, parts.1@) == split_title(info@.title, info@.subtitle),
{
    let title = chars(info.title.as_str());
    let subtitle = chars(info.subtitle.as_str());
    if subtitle.len() == 0 {
        match find_char(&title, ':') {
            Some(colon) => {
                let head = first_chars(&title, colon);
                let tail = trim_start_from(&title, colon + 1);
                return (trim_end(&head), tail);
            },
            None => {},
        }
    }
    (title, subtitle)
}

/// Whether the entry can be tidied.
pub fn is_consolidable(info: &Info) -> (b: bool)
    ensures
        b == can_consolidate(info@),
{
    if info.language.as_str().unicode_len() > 0 {
        return true;
    }
    let parts = split(info);
    is_caseable(&parts.0) && is_caseable(&parts.1)
}

/// The text with each straight apostrophe replaced by a curly one.
fn curl(text: &Vec<char>) -> (out: String)
    ensures
        out@ == curly(text@),
{
    let mut out = String::new();
    let mut i: usize = 0;
    while i < text.len()
        invariant
            i <= text.len(),
            out@ == curly(text@.take(i as int)),
        decreases text.len() - i,
    {
        let c = text[i];
        proof {
            assert(text@.take(i + 1) =~= text@.take(i as int).push(c));
            assert(curly(text@.take(i as int).push(c)) =~= curly(text@.take(i as int)).push(
                if c == '\'' {
                    '’'
                } else {
                    c
                },
            ));
        }
        if c == '\'' {
            out.push('’');
        } else {
            out.push(c);
        }
        i = i + 1;
    }
    assert(text@.take(i as int) =~= text@);
    out
}

/// The first `count` characters.
fn first_chars(text: &Vec<char>, count: usize) -> (out: Vec<char>)
    requires
        count <= text.len(),
    ensures
        out@ == text@.take(count as int),
{
    let mut out: Vec<char> = Vec::new();
    let mut i: usize = 0;
    while i < count
        invariant
            i <= count <= text.len(),
            out@ == text@.take(i as int),
        decreases count - i,
    {
        out.push(text[i]);
        assert(text@.take(i + 1) =~= text@.take(i as int).push(text[i as int]));
        i = i + 1;
    }
    out
}

/// Tidies one entry.
pub fn consolidate_one(info: &mut Info)
    requires
        can_consolidate(old(info)@),
    ensures
        final(info)@ == consolidated(old(info)@),
{
    let parts = split(info);
    let mut title = parts.0;
    let mut subtitle = parts.1;
    if info.language.as_str().unicode_len() == 0 {
        let plain_title = string_of(&title);
        let plain_subtitle = string_of(&subtitle);
        let cased_title = title_case(plain_title.as_str());
        let cased_subtitle = title_case(plain_subtitle.as_str());
        title = chars(cased_title.as_str());
        subtitle = chars(cased_subtitle.as_str());
    }
    let author = chars(info.author.as_str());
    let series = chars(info.series.as_str());
    let publisher = chars(info.publisher.as_str());
    let year = chars(info.year.as_str());
    info.title = curl(&title);
    info.subtitle = curl(&subtitle);
    info.author = curl(&author);
    if year.len() > 4 {
        let short = first_chars(&year, 4);
        info.year = string_of(&short);
    }
    info.series = curl(&series);
    info.publisher = curl(&publisher);
}

/// Tidies every entry of the catalog that can be tidied, and leaves the
/// others as they are.
pub fn consolidate(metadata: &mut Metadata)
    ensures
        final(metadata).len() == old(metadata).len(),
        forall|i: int|
            0 <= i < old(metadata).len() ==> #[trigger] final(metadata)[i]@ == if can_consolidate(
                old(metadata)[i]@,
            ) {
                consolidated(old(metadata)[i]@)
            } else {
                old(metadata)[i]@
            },
{
    let mut i: usize = 0;
    while i < metadata.len()
        invariant
            i <= metadata.len(),
            metadata.len() == old(metadata).len(),
            forall|j: int|
                0 <= j < i ==> #[trigger] metadata[j]@ == if can_consolidate(old(metadata)[j]@) {
                    consolidated(old(metadata)[j]@)
                } else {
                    old(metadata)[j]@
                },
            forall|j: int| i <= j < metadata.len() ==> metadata[j] == old(metadata)[j],
        decreases metadata.len() - i,
    {
        if is_consolidable(&metadata[i]) {
            consolidate_one(&mut metadata[i]);
        }
        i = i + 1;
    }
}

/// The label under which a file is looked up: its stem with every character
/// that is no letter, no digit, no hyphen and no apostrophe replaced by a
/// space.
pub open spec fn label_of(stem: Seq<char>) -> Seq<char> {
    stem.map_values(
        |c: char|
            if !is_letter_or_digit(c) && c != '-' && c != '\'' {
                ' '
            } else {
                c
            },
    )
}

/// The label under which the file with the stem `stem` is looked up.
pub fn label_from_path(stem: &str) -> (label: String)
    ensures
        label@ == label_of(stem@),
{
    let text = chars(stem);
    let mut out = String::new();
    let mut i: usize = 0;
    while i < text.len()
        invariant
            i <= text.len(),
            text@ == stem@,
            out@ == label_of(text@.take(i as int)),
        decreases text.len() - i,
    {
        let c = text[i];
        proof {
            assert(text@.take(i + 1) =~= text@.take(i as int).push(c));
            assert(label_of(text@.take(i as int).push(c)) =~= label_of(text@.take(i as int)).push(
                if !is_letter_or_digit(c) && c != '-' && c != '\'' {
                    ' '
                } else {
                    c
                },
            ));
        }
        if !c.is_alphanumeric() && c != '-' && c != '\'' {
            out.push(' ');
        } else {
            out.push(c);
        }
        i = i + 1;
    }
    assert(text@.take(i as int) =~= text@);
    out
}

/// `base`, a separator and `part`, where `wanted` holds; else `base`.
pub open spec fn joined(base: Seq<char>, part: Seq<char>, wanted: bool) -> Seq<char> {
    if wanted {
        base + " - "@ + part
    } else {
        base
    }
}

/// The name that the file of an entry should have, made of the title, the
/// subtitle, the volume of a work outside a series, the number and the
/// author, as far as the entry has them, and of the kind of file. `title`,
/// `subtitle` and `author` are the texts of the entry in plain letters. An
/// entry without a title gets no name.
pub open spec fn file_name_of(
    info: InfoView,
    title: Seq<char>,
    subtitle: Seq<char>,
    author: Seq<char>,
) -> Seq<char> {
    if info.title.len() == 0 {
        Seq::empty()
    } else {
        let base = joined(title, subtitle, info.subtitle.len() > 0);
        let base = joined(base, info.volume, info.volume.len() > 0 && info.series.len() == 0);
        let base = joined(base, info.number, info.number.len() > 0);
        let base = joined(base, author, info.author.len() > 0);
        replaced(replaced(base + "."@ + info.kind, ".."@, "."@), " / "@, ", "@)
    }
}

/// Appends a separator and `part` to `base`.
fn join(base: &mut Vec<char>, part: &Vec<char>)
    ensures
        final(base)@ == old(base)@ + " - "@ + part@,
{
    proof {
        reveal_strlit(" - ");
    }
    let ghost start = base@;
    base.push(' ');
    base.push('-');
    base.push(' ');
    assert(base@ =~= start + " - "@);
    append(base, part);
}

/// Appends `part` to `base`.
fn append(base: &mut Vec<char>, part: &Vec<char>)
    ensures
        final(base)@ == old(base)@ + part@,
{
    let ghost start = base@;
    let mut i: usize = 0;
    assert(start + part@.take(0) =~= start);
    while i < part.len()
        invariant
            i <= part.len(),
            base@ == start + part@.take(i as int),
        decreases part.len() - i,
    {
        base.push(part[i]);
        assert(start + part@.take(i + 1) =~= (start + part@.take(i as int)).push(part[i as int]));
        i = i + 1;
    }
    assert(part@.take(i as int) =~= part@);
}

/// The name that the file of the entry should have; `title`, `subtitle` and
/// `author` are the entry's title, subtitle and author in plain letters.
pub fn file_name_from_info(info: &Info, title: &str, subtitle: &str, author: &str) -> (name:
    String)
    ensures
        name@ == file_name_of(info@, title@, subtitle@, author@),
{
    if info.title.as_str().unicode_len() == 0 {
        return String::new();
    }
    let mut base = chars(title);
    if info.subtitle.as_str().unicode_len() > 0 {
        join(&mut base, &chars(subtitle));
    }
    if info.volume.as_str().unicode_len() > 0 && info.series.as_str().unicode_len() == 0 {
        join(&mut base, &chars(info.volume.as_str()));
    }
    if info.number.as_str().unicode_len() > 0 {
        join(&mut base, &chars(info.number.as_str()));
    }
    if info.author.as_str().unicode_len() > 0 {
        join(&mut base, &chars(author));
    }
    proof {
        reveal_strlit(".");
    }
    let ghost stem = base@;
    base.push('.');
    assert(base@ =~= stem + "."@);
    append(&mut base, &chars(info.file.kind.as_str()));
    let once = replace(&base, &chars(".."), &chars("."));
    let twice = replace(&once, &chars(" / "), &chars(", "));
    string_of(&twice)
}

/// The directory of a file: what stands in its path before the last
/// separator; nothing where the path has no separator.
pub open spec fn dir_of(path: Seq<char>, separator: char) -> Seq<char>
    decreases path.len(),
{
    if path.len() == 0 {
        Seq::empty()
    } else if path.last() == separator {
        path.drop_last()
    } else {
        dir_of(path.drop_last(), separator)
    }
}

/// The category that a directory stands for: the directory with each
/// separator of the file system replaced by the separator of category paths,
/// and without any other occurrence of the latter.
pub open spec fn category_of(dir: Seq<char>, separator: char) -> Seq<char>
    decreases dir.len(),
{
    if dir.len() == 0 {
        Seq::empty()
    } else if dir.last() == separator {
        category_of(dir.drop_last(), separator).push(PATH_SEPARATOR)
    } else if dir.last() == PATH_SEPARATOR {
        category_of(dir.drop_last(), separator)
    } else {
        category_of(dir.drop_last(), separator).push(dir.last())
    }
}

/// The entry that a file comes into the catalog with: nothing but the file
/// and the category of its directory, if it lies in one.
pub open spec fn imported(file: FileInfo, separator: char) -> InfoView {
    let category = category_of(dir_of(file.path@, separator), separator);
    InfoView {
        title: Seq::empty(),
        subtitle: Seq::empty(),
        author: Seq::empty(),
        year: Seq::empty(),
        language: Seq::empty(),
        publisher: Seq::empty(),
        series: Seq::empty(),
        volume: Seq::empty(),
        number: Seq::empty(),
        isbn: Seq::empty(),
        categories: if category.len() == 0 {
            Set::empty()
        } else {
            Set::empty().insert(category)
        },
        path: file.path@,
        kind: file.kind@,
        size: file.size,
    }
}

/// Whether the catalog has an entry for the path.
pub open spec fn is_known(path: Seq<char>, entries: Seq<InfoView>) -> bool {
    exists|i: int| 0 <= i < entries.len() && #[trigger] entries[i].path == path
}

/// The entries that the files come into the catalog with, for the first
/// `upto` files: one for each file that the catalog has no entry for, in the
/// order of the files.
pub open spec fn fresh_entries(
    files: Seq<FileInfo>,
    entries: Seq<InfoView>,
    separator: char,
    upto: int,
) -> Seq<InfoView>
    decreases upto,
{
    if upto <= 0 || upto > files.len() {
        Seq::empty()
    } else if is_known(files[upto - 1].path@, entries) {
        fresh_entries(files, entries, separator, upto - 1)
    } else {
        fresh_entries(files, entries, separator, upto - 1).push(
            imported(files[upto - 1], separator),
        )
    }
}

/// The category that the directory of the file at `path` stands for.
pub fn category_from_path(path: &str, separator: char) -> (category: String)
    ensures
        category@ == category_of(dir_of(path@, separator), separator),
{
    let text = chars(path);
    let mut end: usize = text.len();
    assert(text@.take(end as int) =~= text@);
    while end > 0 && text[end - 1] != separator
        invariant
            end <= text.len(),
            dir_of(text@, separator) == dir_of(text@.take(end as int), separator),
        decreases end,
    {
        assert(text@.take(end as int).drop_last() =~= text@.take(end - 1));
        end = end - 1;
    }
    if end > 0 {
        assert(text@.take(end as int).drop_last() =~= text@.take(end - 1));
        end = end - 1;
    }
    let ghost dir = text@.take(end as int);
    assert(dir == dir_of(text@, separator));
    let mut out = String::new();
    let mut i: usize = 0;
    while i < end
        invariant
            i <= end <= text.len(),
            dir == text@.take(end as int),
            out@ == category_of(dir.take(i as int), separator),
        decreases end - i,
    {
        let c = text[i];
        proof {
            assert(dir.take(i + 1).drop_last() =~= dir.take(i as int));
            assert(dir.take(i + 1).last() == c);
        }
        if c == separator {
            out.push(PATH_SEPARATOR);
        } else if c != PATH_SEPARATOR {
            out.push(c);
        }
        i = i + 1;
    }
    assert(dir.take(end as int) =~= dir);
    out
}

/// The entries for the files that the catalog `metadata` does not know yet,
/// each with the category that its directory stands for; `separator` parts
/// the directories in a path.
pub fn import(files: &Vec<FileInfo>, metadata: &Metadata, separator: char) -> (found: Metadata)
    ensures
        info_views(found@) == fresh_entries(
            files@,
            info_views(metadata@),
            separator,
            files.len() as int,
        ),
{
    let ghost entries = info_views(metadata@);
    let mut known = no_paths();
    let mut k: usize = 0;
    while k < metadata.len()
        invariant
            k <= metadata.len(),
            entries == info_views(metadata@),
            forall|p: Seq<char>|
                held(known).contains(p) <==> exists|i: int|
                    0 <= i < k && #[trigger] entries[i].path == p,
        decreases metadata.len() - k,
    {
        let ghost before = held(known);
        remember_path(&mut known, metadata[k].file.path.as_str());
        proof {
            assert(entries[k as int].path == metadata[k as int].file.path@);
            assert forall|p: Seq<char>|
                held(known).contains(p) <==> exists|i: int|
                    0 <= i < k + 1 && #[trigger] entries[i].path == p by {
                if before.contains(p) {
                    let i = choose|i: int| 0 <= i < k && #[trigger] entries[i].path == p;
                    assert(0 <= i < k + 1 && entries[i].path == p);
                }
                if exists|i: int| 0 <= i < k + 1 && #[trigger] entries[i].path == p {
                    let i = choose|i: int| 0 <= i < k + 1 && #[trigger] entries[i].path == p;
                    if i < k {
                        assert(before.contains(p));
                    }
                }
            }
        }
        k = k + 1;
    }
    let mut found: Vec<Info> = Vec::new();
    let mut i: usize = 0;
    assert(info_views(found@) =~= Seq::<InfoView>::empty());
    while i < files.len()
        invariant
            i <= files.len(),
            entries == info_views(metadata@),
            forall|p: Seq<char>| held(known).contains(p) <==> is_known(p, entries),
            info_views(found@) == fresh_entries(files@, entries, separator, i as int),
        decreases files.len() - i,
    {
        let ghost before = info_views(found@);
        if !knows_path(&known, files[i].path.as_str()) {
            let mut info = Info::default();
            info.file = files[i].clone();
            let category = category_from_path(files[i].path.as_str(), separator);
            if category.as_str().unicode_len() > 0 {
                let mut categories = CategorySet::new();
                categories.insert(category.as_str());
                info.categories = categories;
            }
            proof {
                assert(info@.categories =~= imported(files[i as int], separator).categories);
                assert(info@ == imported(files[i as int], separator));
            }
            found.push(info);
            proof {
                assert(info_views(found@) =~= before.push(imported(files[i as int], separator)));
            }
        }
        i = i + 1;
    }
    found
}

/// The regular expression that finds, in a page of search results, the
/// first result: its title, its author, its publisher and its year.
pub const LOOKUP_PATTERN: &'static str =
    "(?s)/Lookup/Book/.+?>([^<]+)<.+?<u>([^<]+)</u>.+?<i>([^<]+)</i>.+?<i>([^<]+)</i>";

/// The address at which the catalog of books is asked.
pub const LOOKUP_ADDRESS: &'static str = "http://lookupbyisbn.com/Search/Book/";

/// What a search result says of a book.
#[derive(Debug)]
pub struct Lookup {
    pub title: String,
    pub author: String,
    pub publisher: String,
    pub year: String,
}

/// What a search result says of a book, as texts.
pub struct LookupView {
    pub title: Seq<char>,
    pub author: Seq<char>,
    pub publisher: Seq<char>,
    pub year: Seq<char>,
}

impl View for Lookup {
    type V = LookupView;

    open spec fn view(&self) -> LookupView {
        LookupView {
            title: self.title@,
            author: self.author@,
            publisher: self.publisher@,
            year: self.year@,
        }
    }
}

/// The text, or nothing where there is none.
pub open spec fn or_empty(text: Option<Seq<char>>) -> Seq<char> {
    match text {
        Some(text) => text,
        None => Seq::empty(),
    }
}

/// The four groups of a match of the lookup pattern, if each took part in
/// it.
pub open spec fn fields_of(groups: Option<Seq<Option<Seq<char>>>>) -> Option<Seq<Seq<char>>> {
    match groups {
        Some(g) => if g.len() == 5 && g[1] is Some && g[2] is Some && g[3] is Some && g[4] is Some {
            Some(seq![g[1]->0, g[2]->0, g[3]->0, g[4]->0])
        } else {
            None
        },
        None => None,
    }
}

/// What the first result of a page of search results says, with the HTML
/// entities decoded; a field that cannot be decoded is empty.
pub open spec fn looked_up(content: Seq<char>) -> Option<LookupView> {
    match fields_of(captured(LOOKUP_PATTERN@, content)) {
        Some(fields) => Some(
            LookupView {
                title: or_empty(entities_decoded(fields[0])),
                author: or_empty(entities_decoded(fields[1])),
                publisher: or_empty(entities_decoded(fields[2])),
                year: or_empty(entities_decoded(fields[3])),
            },
        ),
        None => None,
    }
}

/// The views of texts that may be missing.
pub open spec fn found_views(fields: Option<Vec<String>>) -> Option<Seq<Seq<char>>> {
    match fields {
        Some(list) => Some(list@.map_values(|text: String| text@)),
        None => None,
    }
}

/// The four groups of a match of the lookup pattern, if each took part in
/// it.
pub fn lookup_fields(groups: &Option<Vec<Option<String>>>) -> (fields: Option<Vec<String>>)
    ensures
        found_views(fields) == fields_of(group_views(*groups)),
{
    match groups {
        Some(list) => {
            if list.len() != 5 {
                return None;
            }
            proof {
                let g = group_views(*groups)->0;
                assert(g.len() == 5);
                assert(forall|j: int| 0 <= j < 5 ==> (#[trigger] g[j] is Some) == (list[j] is Some));
                assert(forall|j: int| 0 <= j < 5 && list[j] is Some ==> #[trigger] g[j]->0
                    == list[j]->0@);
            }
            match (&list[1], &list[2], &list[3], &list[4]) {
                (Some(title), Some(author), Some(publisher), Some(year)) => {
                    let mut fields: Vec<String> = Vec::new();
                    fields.push(title.clone());
                    fields.push(author.clone());
                    fields.push(publisher.clone());
                    fields.push(year.clone());
                    proof {
                        let g = group_views(*groups)->0;
                        let views = fields@.map_values(|text: String| text@);
                        assert(views =~= seq![g[1]->0, g[2]->0, g[3]->0, g[4]->0]);
                    }
                    Some(fields)
                },
                _ => None,
            }
        },
        None => None,
    }
}

/// The text with its HTML entities decoded, or nothing where it cannot be
/// decoded.
fn decode_or_empty(text: &str) -> (out: String)
    ensures
        out@ == or_empty(entities_decoded(text@)),
{
    match decode_entities(text) {
        Some(decoded) => decoded,
        None => String::new(),
    }
}

/// What the first result of a page of search results says of a book.
pub fn parse_lookup(content: &str) -> (found: Option<Lookup>)
    ensures
        found is Some == looked_up(content@) is Some,
        found matches Some(lookup) ==> lookup@ == looked_up(content@)->0,
{
    let groups = capture_groups(LOOKUP_PATTERN, content);
    match lookup_fields(&groups) {
        Some(fields) => {
            assert(fields@.map_values(|text: String| text@).len() == 4);
            assert(forall|j: int|
                0 <= j < 4 ==> fields@.map_values(|text: String| text@)[j] == #[trigger] fields[j]@);
            Some(
                Lookup {
                    title: decode_or_empty(fields[0].as_str()),
                    author: decode_or_empty(fields[1].as_str()),
                    publisher: decode_or_empty(fields[2].as_str()),
                    year: decode_or_empty(fields[3].as_str()),
                },
            )
        },
        None => None,
    }
}

/// The terms under which an entry is looked up: none for an entry that has
/// a title; else its ISBN or, where it has none and any terms will do, the
/// label of its file; none where these are empty.
pub open spec fn terms_of(info: InfoView, stem: Seq<char>, strict: bool) -> Option<Seq<char>> {
    let terms = if info.isbn.len() == 0 && !strict {
        label_of(stem)
    } else {
        info.isbn
    };
    if info.title.len() > 0 || terms.len() == 0 {
        None
    } else {
        Some(terms)
    }
}

/// The terms under which the entry is looked up, if it is to be looked up;
/// `stem` is the stem of its file's name.
pub fn lookup_terms(info: &Info, stem: &str, strict: bool) -> (terms: Option<String>)
    ensures
        terms is Some == terms_of(info@, stem@, strict) is Some,
        terms matches Some(text) ==> text@ == terms_of(info@, stem@, strict)->0,
{
    if info.title.as_str().unicode_len() > 0 {
        return None;
    }
    let terms = if info.isbn.as_str().unicode_len() == 0 && !strict {
        label_from_path(stem)
    } else {
        info.isbn.clone()
    };
    if terms.as_str().unicode_len() == 0 {
        None
    } else {
        Some(terms)
    }
}

/// The address of the page of search results for the terms.
pub fn lookup_url(terms: &str) -> (url: String)
    ensures
        url@ == LOOKUP_ADDRESS@ + terms@ + "/1"@,
{
    let mut url = chars(LOOKUP_ADDRESS);
    append(&mut url, &chars(terms));
    append(&mut url, &chars("/1"));
    string_of(&url)
}

/// Takes into the entry what the page of search results `content` says of
/// the book: title, author, publisher and year. Returns whether the page has
/// a result; where it has none, the entry stays as it is.
pub fn retreive(info: &mut Info, content: &str) -> (found: bool)
    ensures
        found == looked_up(content@) is Some,
        final(info)@ == match looked_up(content@) {
            Some(lookup) => InfoView {
                title: lookup.title,
                author: lookup.author,
                publisher: lookup.publisher,
                year: lookup.year,
                ..old(info)@
            },
            None => old(info)@,
        },
{
    match parse_lookup(content) {
        Some(lookup) => {
            info.title = lookup.title;
            info.author = lookup.author;
            info.publisher = lookup.publisher;
            info.year = lookup.year;
            true
        },
        None => false,
    }
}

} // verus!
