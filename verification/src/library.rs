//! The library of nodes that can be added to the graph: the items found
//! among the library files, the items made up from what the user typed, and
//! the filtering, selection and choice made in the library panel.
use vstd::prelude::*;
use crate::order::{
    lex_le, lex_le_exec, lemma_lex_le_total, lemma_lex_le_transitive, stable_sort, stably_sorted,
    KeyOrder,
};
use crate::text::{
    chars_of, contains_chars, contains_seq, ends_with, ends_with_chars, find_chars_from, find_from,
    lemma_find_from, slice_chars, string_from_chars,
};

verus! {

/// The kinds of node.
#[derive(Clone, Copy, Debug, PartialEq, Eq, Structural)]
pub enum NodeKind {
    EffectNode,
    ImageNode,
    MovieNode,
    UiBgNode,
    ScreenOutputNode,
    ProjectionMappedOutputNode,
    PlaceholderNode,
}

/// An item of the library: a node of kind `kind` with default props, named
/// `name` (effect, image and movie nodes carry the name in their props).
/// A custom item was made up from the text typed into the library's search
/// box rather than found among the library files.
#[derive(Clone, Debug)]
pub struct LibraryItem {
    pub name: String,
    pub kind: NodeKind,
    pub custom: bool,
}

/// An arbitrary number for each kind of node, by which items of the same
/// name are ordered.
pub open spec fn node_type_rank(kind: NodeKind) -> int {
    match kind {
        NodeKind::EffectNode => 0,
        NodeKind::ImageNode => 1,
        NodeKind::MovieNode => 2,
        NodeKind::UiBgNode => 3,
        NodeKind::ScreenOutputNode => 4,
        NodeKind::ProjectionMappedOutputNode => 5,
        NodeKind::PlaceholderNode => 6,
    }
}

/// The number of a kind of node (see `node_type_rank`).
pub fn node_type_index(kind: NodeKind) -> (r: u8)
    ensures
        r == node_type_rank(kind),
{
    match kind {
        NodeKind::EffectNode => 0,
        NodeKind::ImageNode => 1,
        NodeKind::MovieNode => 2,
        NodeKind::UiBgNode => 3,
        NodeKind::ScreenOutputNode => 4,
        NodeKind::ProjectionMappedOutputNode => 5,
        NodeKind::PlaceholderNode => 6,
    }
}

/// Two items are the same item when they have the same name and kind.
pub open spec fn same_item(a: LibraryItem, b: LibraryItem) -> bool {
    a.name@ == b.name@ && a.kind == b.kind
}

impl PartialEq for LibraryItem {
    fn eq(&self, other: &Self) -> (r: bool) {
        self.name == other.name && node_type_index(self.kind) == node_type_index(other.kind)
    }
}

impl vstd::std_specs::cmp::PartialEqSpecImpl for LibraryItem {
    open spec fn obeys_eq_spec() -> bool {
        true
    }

    open spec fn eq_spec(&self, other: &Self) -> bool {
        self.name@ == other.name@ && node_type_rank(self.kind) == node_type_rank(other.kind)
    }
}

impl Eq for LibraryItem {

}

/// Items are listed by name, then by kind.
impl KeyOrder for LibraryItem {
    open spec fn key_le(a: Self, b: Self) -> bool {
        if a.name@ == b.name@ {
            node_type_rank(a.kind) <= node_type_rank(b.kind)
        } else {
            lex_le(a.name@, b.name@)
        }
    }

    proof fn lemma_key_le_total(a: Self, b: Self) {
        lemma_lex_le_total(a.name@, b.name@);
    }

    proof fn lemma_key_le_transitive(a: Self, b: Self, c: Self) {
        if a.name@ != b.name@ && b.name@ != c.name@ {
            lemma_lex_le_transitive(a.name@, b.name@, c.name@);
            if a.name@ == c.name@ {
                crate::order::lemma_lex_le_antisymmetric(a.name@, b.name@);
            }
        }
    }

    fn key_le_exec(&self, other: &Self) -> (r: bool) {
        let left = chars_of(self.name.as_str());
        let right = chars_of(other.name.as_str());
        if crate::text::chars_eq(&left, &right) {
            node_type_index(self.kind) <= node_type_index(other.kind)
        } else {
            lex_le_exec(&left, &right)
        }
    }
}

impl LibraryItem {
    /// A copy of the item.
    pub fn duplicate(&self) -> (r: Self)
        ensures
            r == *self,
    {
        LibraryItem { name: self.name.clone(), kind: self.kind, custom: self.custom }
    }
}

// ---------------------------------------------------------------------------
// Library contents
// ---------------------------------------------------------------------------

/// The item for the library file `filename`: images (`.png`, `.jpg`,
/// `.gif`) and movies (`.mp4`, `.mkv`, `.avi`) by file name, effects
/// (`.wgsl`) by the name without the extension; other files give none.
pub open spec fn file_item(filename: Seq<char>) -> Option<(NodeKind, Seq<char>)> {
    if ends_with(filename, ".png"@) || ends_with(filename, ".jpg"@) || ends_with(filename, ".gif"@) {
        Some((NodeKind::ImageNode, filename))
    } else if ends_with(filename, ".mp4"@) || ends_with(filename, ".mkv"@) || ends_with(
        filename,
        ".avi"@,
    ) {
        Some((NodeKind::MovieNode, filename))
    } else if ends_with(filename, ".wgsl"@) {
        Some((NodeKind::EffectNode, filename.subrange(0, filename.len() - 5)))
    } else {
        None
    }
}

/// `item` is the item `file_item` gives for `filename`.
pub open spec fn is_file_item(item: LibraryItem, filename: Seq<char>) -> bool {
    &&& file_item(filename) matches Some((kind, name)) && item.kind == kind && item.name@ == name
    &&& !item.custom
}

/// A string that ends with a non-empty suffix ends with the suffix's last
/// character.
proof fn lemma_ends_with_last(s: Seq<char>, p: Seq<char>)
    requires
        p.len() > 0,
        ends_with(s, p),
    ensures
        s.last() == p.last(),
{
    assert(s.subrange(s.len() - p.len(), s.len() as int)[p.len() - 1] == s.last());
}

/// Which library files give which items, extension by extension: a file
/// ending in ".png", ".jpg" or ".gif" is an image node under its whole
/// file name; one ending in ".mp4", ".mkv" or ".avi" is a movie node under
/// its whole file name; one ending in ".wgsl" is an effect node under its
/// name without ".wgsl"; any other file gives no item.
pub proof fn lemma_library_file_kinds(filename: Seq<char>)
    ensures
        ends_with(filename, ".png"@) ==> file_item(filename) == Some((NodeKind::ImageNode, filename)),
        ends_with(filename, ".jpg"@) ==> file_item(filename) == Some((NodeKind::ImageNode, filename)),
        ends_with(filename, ".gif"@) ==> file_item(filename) == Some((NodeKind::ImageNode, filename)),
        ends_with(filename, ".mp4"@) ==> file_item(filename) == Some((NodeKind::MovieNode, filename)),
        ends_with(filename, ".mkv"@) ==> file_item(filename) == Some((NodeKind::MovieNode, filename)),
        ends_with(filename, ".avi"@) ==> file_item(filename) == Some((NodeKind::MovieNode, filename)),
        ends_with(filename, ".wgsl"@) ==> file_item(filename) == Some((NodeKind::EffectNode, filename.subrange(0, filename.len() - 5))),
        !ends_with(filename, ".png"@) && !ends_with(filename, ".jpg"@) && !ends_with(filename, ".gif"@)
            && !ends_with(filename, ".mp4"@) && !ends_with(filename, ".mkv"@)
            && !ends_with(filename, ".avi"@) && !ends_with(filename, ".wgsl"@)
            ==> file_item(filename) is None,
{
    reveal_strlit(".png");
    reveal_strlit(".jpg");
    reveal_strlit(".gif");
    reveal_strlit(".mp4");
    reveal_strlit(".mkv");
    reveal_strlit(".avi");
    reveal_strlit(".wgsl");
    if ends_with(filename, ".png"@) {
        lemma_ends_with_last(filename, ".png"@);
    }
    if ends_with(filename, ".jpg"@) {
        lemma_ends_with_last(filename, ".jpg"@);
    }
    if ends_with(filename, ".gif"@) {
        lemma_ends_with_last(filename, ".gif"@);
    }
    if ends_with(filename, ".mp4"@) {
        lemma_ends_with_last(filename, ".mp4"@);
    }
    if ends_with(filename, ".mkv"@) {
        lemma_ends_with_last(filename, ".mkv"@);
    }
    if ends_with(filename, ".avi"@) {
        lemma_ends_with_last(filename, ".avi"@);
    }
    if ends_with(filename, ".wgsl"@) {
        lemma_ends_with_last(filename, ".wgsl"@);
    }
}

/// The library item for the file `filename` (see `file_item` and
/// `lemma_library_file_kinds`).
pub fn filename_to_library_item(filename: &str) -> (r: Option<LibraryItem>)
    ensures
        match r {
            Some(item) => is_file_item(item, filename@),
            None => file_item(filename@) is None,
        },
            ends_with(filename@, ".png"@) ==> (r matches Some(item) && item.kind == NodeKind::ImageNode && item.name@ == filename@ && !item.custom),
            ends_with(filename@, ".jpg"@) ==> (r matches Some(item) && item.kind == NodeKind::ImageNode && item.name@ == filename@ && !item.custom),
            ends_with(filename@, ".gif"@) ==> (r matches Some(item) && item.kind == NodeKind::ImageNode && item.name@ == filename@ && !item.custom),
            ends_with(filename@, ".mp4"@) ==> (r matches Some(item) && item.kind == NodeKind::MovieNode && item.name@ == filename@ && !item.custom),
            ends_with(filename@, ".mkv"@) ==> (r matches Some(item) && item.kind == NodeKind::MovieNode && item.name@ == filename@ && !item.custom),
            ends_with(filename@, ".avi"@) ==> (r matches Some(item) && item.kind == NodeKind::MovieNode && item.name@ == filename@ && !item.custom),
            ends_with(filename@, ".wgsl"@) ==> (r matches Some(item) && item.kind == NodeKind::EffectNode && item.name@ == filename@.subrange(0, filename@.len() - 5) && !item.custom),
            !ends_with(filename@, ".png"@) && !ends_with(filename@, ".jpg"@) && !ends_with(filename@, ".gif"@) && !ends_with(filename@, ".mp4"@) && !ends_with(filename@, ".mkv"@) && !ends_with(filename@, ".avi"@) && !ends_with(filename@, ".wgsl"@) ==> r is None,
{
    proof {
        lemma_library_file_kinds(filename@);
    }
    let f = chars_of(filename);
    if ends_with_chars(&f, &chars_of(".png")) || ends_with_chars(&f, &chars_of(".jpg"))
        || ends_with_chars(&f, &chars_of(".gif")) {
        Some(LibraryItem { name: filename.to_owned(), kind: NodeKind::ImageNode, custom: false })
    } else if ends_with_chars(&f, &chars_of(".mp4")) || ends_with_chars(&f, &chars_of(".mkv"))
        || ends_with_chars(&f, &chars_of(".avi")) {
        Some(LibraryItem { name: filename.to_owned(), kind: NodeKind::MovieNode, custom: false })
    } else if ends_with_chars(&f, &chars_of(".wgsl")) {
        proof {
            reveal_strlit(".wgsl");
        }
        let stem = slice_chars(&f, 0, f.len() - 5);
        Some(
            LibraryItem {
                name: string_from_chars(stem.as_slice()),
                kind: NodeKind::EffectNode,
                custom: false,
            },
        )
    } else {
        None
    }
}

/// The items of the library files `filenames`, in the order of the files.
pub open spec fn items_of_files(items: Seq<LibraryItem>, filenames: Seq<String>) -> bool
    decreases filenames.len(),
{
    if filenames.len() == 0 {
        items.len() == 0
    } else {
        match file_item(filenames.last()@) {
            Some(_) => items.len() > 0 && is_file_item(items.last(), filenames.last()@)
                && items_of_files(items.drop_last(), filenames.drop_last()),
            None => items_of_files(items, filenames.drop_last()),
        }
    }
}

/// The items that every library offers, after those of its files.
pub open spec fn builtin_item(item: LibraryItem, name: Seq<char>, kind: NodeKind) -> bool {
    item.name@ == name && item.kind == kind && !item.custom
}

/// The library's contents: the items of its files, sorted by name then
/// kind, followed by the UI background, screen output and projection-mapped
/// output nodes.
pub fn library_contents(filenames: Vec<String>) -> (r: Vec<LibraryItem>)
    ensures
        r@.len() >= 3,
        exists|u: Seq<LibraryItem>|
            items_of_files(u, filenames@) && stably_sorted(u, r@.subrange(0, r@.len() - 3)),
        builtin_item(r@[r@.len() - 3], "UiBg"@, NodeKind::UiBgNode),
        builtin_item(r@[r@.len() - 2], "ScreenOutput"@, NodeKind::ScreenOutputNode),
        builtin_item(
            r@[r@.len() - 1],
            "ProjectionMappedOutput"@,
            NodeKind::ProjectionMappedOutputNode,
        ),
{
    let mut items: Vec<LibraryItem> = Vec::new();
    for i in 0..filenames.len()
        invariant
            items_of_files(items@, filenames@.take(i as int)),
    {
        assert(filenames@.take(i + 1).drop_last() == filenames@.take(i as int));
        assert(filenames@.take(i + 1).last() == filenames@[i as int]);
        match filename_to_library_item(filenames[i].as_str()) {
            Some(item) => {
                let ghost before = items@;
                items.push(item);
                assert(items@.drop_last() == before);
            },
            None => {},
        }
    }
    assert(filenames@.take(filenames.len() as int) == filenames@);
    let ghost u = items@;
    let mut contents = stable_sort(items);
    let ghost sorted = contents@;
    contents.push(LibraryItem { name: "UiBg".to_owned(), kind: NodeKind::UiBgNode, custom: false });
    contents.push(
        LibraryItem {
            name: "ScreenOutput".to_owned(),
            kind: NodeKind::ScreenOutputNode,
            custom: false,
        },
    );
    contents.push(
        LibraryItem {
            name: "ProjectionMappedOutput".to_owned(),
            kind: NodeKind::ProjectionMappedOutputNode,
            custom: false,
        },
    );
    assert(contents@.subrange(0, contents@.len() - 3) == sorted);
    contents
}

/// The items made up from the typed text `input`: none for no text, else a
/// movie node and an image node of that name.
pub open spec fn custom_items(items: Seq<LibraryItem>, input: Seq<char>) -> bool {
    if input.len() == 0 {
        items.len() == 0
    } else {
        &&& items.len() == 2
        &&& items[0].name@ == input && items[0].kind == NodeKind::MovieNode && items[0].custom
        &&& items[1].name@ == input && items[1].kind == NodeKind::ImageNode && items[1].custom
    }
}

/// The items made up from the typed text `input` (see `custom_items`).
pub fn custom_library_items(input: &str) -> (r: Vec<LibraryItem>)
    ensures
        custom_items(r@, input@),
{
    let mut items: Vec<LibraryItem> = Vec::new();
    if input.is_empty() {
        return items;
    }
    items.push(LibraryItem { name: input.to_owned(), kind: NodeKind::MovieNode, custom: true });
    items.push(LibraryItem { name: input.to_owned(), kind: NodeKind::ImageNode, custom: true });
    items
}

// ---------------------------------------------------------------------------
// Filtering and selection
// ---------------------------------------------------------------------------

/// The Unicode lower case of a string, as `str::to_lowercase` makes it (it
/// depends on the string alone).
pub uninterp spec fn unicode_lowercase(s: Seq<char>) -> Seq<char>;

/// `str::to_lowercase`: the Unicode lower case of `s`.
#[verifier::external_body]
fn to_lowercase(s: &str) -> (r: String)
    ensures
        r@ == unicode_lowercase(s@),
{
    s.to_lowercase()
}

/// What the library panel shows of an item: name, kind, whether custom.
pub open spec fn item_view(it: LibraryItem) -> (Seq<char>, NodeKind, bool) {
    (it.name@, it.kind, it.custom)
}

/// What the library panel shows of a list of items.
pub open spec fn item_views(items: Seq<LibraryItem>) -> Seq<(Seq<char>, NodeKind, bool)> {
    items.map_values(|it: LibraryItem| item_view(it))
}

/// The views of a sequence of strings.
pub open spec fn string_views(v: Seq<String>) -> Seq<Seq<char>> {
    v.map_values(|l: String| l@)
}

/// The number of bytes of the UTF-8 encoding of `c`.
pub open spec fn char_utf8_len(c: char) -> int {
    if (c as u32) < 0x80 {
        1
    } else if (c as u32) < 0x800 {
        2
    } else if (c as u32) < 0x10000 {
        3
    } else {
        4
    }
}

/// The number of bytes of the UTF-8 encoding of `s`.
pub open spec fn utf8_len(s: Seq<char>) -> int
    decreases s.len(),
{
    if s.len() == 0 {
        0
    } else {
        utf8_len(s.drop_last()) + char_utf8_len(s.last())
    }
}

/// How well a (lower-case) name matches the filter: the byte offset of the
/// filter's first occurrence in it (`str::find`), or `usize::MAX` when the
/// filter does not occur.
pub open spec fn match_rank(lowered_name: Seq<char>, filter: Seq<char>) -> int {
    let i = find_from(lowered_name, filter, 0);
    if i >= 0 {
        utf8_len(lowered_name.take(i))
    } else {
        usize::MAX as int
    }
}

/// The items of `contents` whose lower-case names (`lowered`) contain the
/// filter, in their order, each with its rank.
pub open spec fn matching_items(
    contents: Seq<(Seq<char>, NodeKind, bool)>,
    lowered: Seq<Seq<char>>,
    filter: Seq<char>,
) -> Seq<((Seq<char>, NodeKind, bool), int)>
    decreases contents.len(),
{
    if contents.len() == 0 || lowered.len() != contents.len() {
        seq![]
    } else {
        let rest = matching_items(contents.drop_last(), lowered.drop_last(), filter);
        if contains_seq(lowered.last(), filter) {
            rest.push((contents.last(), match_rank(lowered.last(), filter)))
        } else {
            rest
        }
    }
}

/// The items made up from the typed `text` (see `custom_items`).
pub open spec fn custom_views(text: Seq<char>) -> Seq<(Seq<char>, NodeKind, bool)> {
    if text.len() == 0 {
        seq![]
    } else {
        seq![(text, NodeKind::MovieNode, true), (text, NodeKind::ImageNode, true)]
    }
}

/// An item of the same name and kind as `v` is among `ranked`.
pub open spec fn has_same(ranked: Seq<((Seq<char>, NodeKind, bool), int)>, v: (Seq<char>, NodeKind, bool)) -> bool {
    exists|k: int| 0 <= k < ranked.len() && (#[trigger] ranked[k]).0.0 == v.0 && ranked[k].0.1 == v.1
}

/// Keeps the custom items of which no item of the same name and kind is
/// among `ranked`.
pub open spec fn keep_custom(ranked: Seq<((Seq<char>, NodeKind, bool), int)>) -> spec_fn(
    (Seq<char>, NodeKind, bool),
) -> bool {
    |v: (Seq<char>, NodeKind, bool)| !has_same(ranked, v)
}

/// Gives each item the rank `rank`.
pub open spec fn with_rank(items: Seq<(Seq<char>, NodeKind, bool)>, rank: int) -> Seq<
    ((Seq<char>, NodeKind, bool), int),
> {
    items.map_values(|v: (Seq<char>, NodeKind, bool)| (v, rank))
}

/// The items of a ranked list, without their ranks.
pub open spec fn unranked(ranked: Seq<((Seq<char>, NodeKind, bool), int)>) -> Seq<
    (Seq<char>, NodeKind, bool),
> {
    ranked.map_values(|e: ((Seq<char>, NodeKind, bool), int)| e.0)
}

/// The filtered list with ranks: the matching items, then the custom items
/// for `text` that are not among them, ranked as their lower-case name
/// (`lowered_text`) matches the filter.
pub open spec fn filtered_ranked(
    contents: Seq<(Seq<char>, NodeKind, bool)>,
    lowered: Seq<Seq<char>>,
    filter: Seq<char>,
    text: Seq<char>,
    lowered_text: Seq<char>,
) -> Seq<((Seq<char>, NodeKind, bool), int)> {
    let m = matching_items(contents, lowered, filter);
    m + with_rank(custom_views(text).filter(keep_custom(m)), match_rank(lowered_text, filter))
}

/// The filtered list repeats no listed item: each custom item that follows
/// the matching items differs, in name or kind, from every one of them.
pub proof fn lemma_custom_items_not_repeated(
    contents: Seq<(Seq<char>, NodeKind, bool)>,
    lowered: Seq<Seq<char>>,
    filter: Seq<char>,
    text: Seq<char>,
    lowered_text: Seq<char>,
    i: int,
    k: int,
)
    requires
        ({
            let n = matching_items(contents, lowered, filter).len();
            &&& n <= i < filtered_ranked(contents, lowered, filter, text, lowered_text).len()
            &&& 0 <= k < n
        }),
    ensures
        ({
            let m = matching_items(contents, lowered, filter);
            let f = filtered_ranked(contents, lowered, filter, text, lowered_text);
            !(f[i].0.0 == m[k].0.0 && f[i].0.1 == m[k].0.1)
        }),
{
    let m = matching_items(contents, lowered, filter);
    let kept = custom_views(text).filter(keep_custom(m));
    let f = filtered_ranked(contents, lowered, filter, text, lowered_text);
    let j = i - m.len();
    custom_views(text).lemma_filter_pred(keep_custom(m), j);
    assert(f[i].0 == kept[j]);
    if f[i].0.0 == m[k].0.0 && f[i].0.1 == m[k].0.1 {
        assert(has_same(m, kept[j]));
    }
}

/// `i` is the first of the best ranked entries.
pub open spec fn is_first_best(ranked: Seq<((Seq<char>, NodeKind, bool), int)>, i: int) -> bool {
    &&& 0 <= i < ranked.len()
    &&& forall|j: int| 0 <= j < ranked.len() ==> ranked[i].1 <= (#[trigger] ranked[j]).1
    &&& forall|j: int| 0 <= j < i ==> ranked[i].1 < (#[trigger] ranked[j]).1
}

fn utf8_len_exec(s: &Vec<char>, n: usize) -> (r: u128)
    requires
        n <= s.len(),
    ensures
        r as int == utf8_len(s@.take(n as int)),
{
    let mut total: u128 = 0;
    for i in 0..n
        invariant
            n <= s.len(),
            total as int == utf8_len(s@.take(i as int)),
            total <= 4 * i,
    {
        let c = s[i];
        let u: u32 = c as u32;
        let w: u128 = if u < 0x80 {
            1
        } else if u < 0x800 {
            2
        } else if u < 0x10000 {
            3
        } else {
            4
        };
        assert(s@.take(i + 1).drop_last() == s@.take(i as int));
        total = total + w;
    }
    total
}

fn match_rank_exec(lowered_name: &Vec<char>, filter: &Vec<char>) -> (r: u128)
    ensures
        r as int == match_rank(lowered_name@, filter@),
{
    match find_chars_from(lowered_name, filter, 0) {
        Some(i) => {
            proof {
                lemma_find_from(lowered_name@, filter@, 0);
            }
            utf8_len_exec(lowered_name, i)
        },
        None => usize::MAX as u128,
    }
}

/// The library's filtered list for the typed `text`, whose lower case is
/// `filter_text`, given the lower-case names of the contents: the matching
/// items, then the custom items not among them; and the first of the best
/// matches (the one where the filter starts earliest in the name), if any.
pub fn filter_library(
    contents: &Vec<LibraryItem>,
    lowered: &Vec<String>,
    text: &str,
    filter_text: &String,
) -> (r: (Vec<LibraryItem>, Option<usize>))
    requires
        contents.len() == lowered.len(),
    ensures
        ({
            let ranked = filtered_ranked(
                item_views(contents@),
                string_views(lowered@),
                filter_text@,
                text@,
                filter_text@,
            );
            &&& item_views(r.0@) == unranked(ranked)
            &&& match r.1 {
                Some(i) => is_first_best(ranked, i as int),
                None => ranked.len() == 0,
            }
        }),
{
    let ghost cv = item_views(contents@);
    let ghost lv = string_views(lowered@);
    let filter = chars_of(filter_text.as_str());
    let mut items: Vec<LibraryItem> = Vec::new();
    let mut ranks: Vec<u128> = Vec::new();
    for i in 0..contents.len()
        invariant
            contents.len() == lowered.len(),
            cv == item_views(contents@),
            lv == string_views(lowered@),
            filter@ == filter_text@,
            items.len() == ranks.len(),
            ({
                let m = matching_items(cv.take(i as int), lv.take(i as int), filter@);
                &&& m.len() == items.len()
                &&& forall|k: int|
                    0 <= k < m.len() ==> m[k] == (item_view(#[trigger] items@[k]), ranks@[k] as int)
            }),
    {
        let name = chars_of(lowered[i].as_str());
        let ghost m0 = matching_items(cv.take(i as int), lv.take(i as int), filter@);
        assert(cv.take(i + 1).drop_last() == cv.take(i as int));
        assert(lv.take(i + 1).drop_last() == lv.take(i as int));
        assert(cv.take(i + 1).last() == item_view(contents@[i as int]));
        assert(lv.take(i + 1).last() == lowered@[i as int]@);
        if contains_chars(&name, &filter) {
            let rank = match_rank_exec(&name, &filter);
            let ghost bi = items@;
            let ghost br = ranks@;
            items.push(contents[i].duplicate());
            ranks.push(rank);
            assert forall|k: int| 0 <= k < m0.len() + 1 implies matching_items(
                cv.take(i + 1),
                lv.take(i + 1),
                filter@,
            )[k] == (item_view(#[trigger] items@[k]), ranks@[k] as int) by {
                if k < m0.len() {
                    assert(items@[k] == bi[k]);
                    assert(ranks@[k] == br[k]);
                }
            }
        }
    }
    assert(cv.take(contents.len() as int) == cv);
    assert(lv.take(contents.len() as int) == lv);
    let ghost m = matching_items(cv, lv, filter@);
    let customs = custom_library_items(text);
    let custom_rank = match_rank_exec(&filter, &filter);
    let ghost kept_pred = keep_custom(m);
    let ghost cvs = custom_views(text@);
    assert(item_views(customs@) == cvs);
    let n_matching = items.len();
    let mut c: usize = 0;
    while c < customs.len()
        invariant
            c <= customs.len(),
            items.len() == ranks.len(),
            kept_pred == keep_custom(m),
            cvs == custom_views(text@),
            n_matching <= items.len(),
            n_matching == m.len(),
            customs.len() == cvs.len(),
            cvs == item_views(customs@),
            custom_rank as int == match_rank(filter_text@, filter_text@),
            forall|k: int| 0 <= k < n_matching ==> m[k] == (item_view(#[trigger] items@[k]), ranks@[k] as int),
            ({
                let kept = cvs.take(c as int).filter(kept_pred);
                &&& items.len() == n_matching + kept.len()
                &&& forall|k: int|
                    0 <= k < kept.len() ==> kept[k] == item_view(#[trigger] items@[n_matching + k])
                        && ranks@[n_matching + k] == custom_rank
            }),
        decreases customs.len() - c,
    {
        let ghost kept0 = cvs.take(c as int).filter(kept_pred);
        proof {
            assert(cvs.take(c + 1) == cvs.take(c as int).push(cvs[c as int]));
            cvs.take(c as int).lemma_filter_push(cvs[c as int], kept_pred);
        }
        let mut found = false;
        for k in 0..n_matching
            invariant
                n_matching <= items.len(),
                n_matching == m.len(),
                forall|j: int| 0 <= j < n_matching ==> m[j] == (item_view(#[trigger] items@[j]), ranks@[j] as int),
                found <==> exists|j: int| 0 <= j < k && (#[trigger] m[j]).0.0 == cvs[c as int].0 && m[j].0.1 == cvs[c as int].1,
                cvs == item_views(customs@),
                c < customs.len(),
        {
            assert(m[k as int].0 == item_view(items@[k as int]));
            if items[k] == customs[c] {
                found = true;
            }
        }
        assert(found == has_same(m, cvs[c as int]));
        assert(kept_pred(cvs[c as int]) == !found);
        assert(cvs[c as int] == item_view(customs@[c as int]));
        if !found {
            let ghost bi = items@;
            let ghost br = ranks@;
            items.push(customs[c].duplicate());
            ranks.push(custom_rank);
            assert forall|k: int| 0 <= k < n_matching implies m[k] == (item_view(#[trigger] items@[k]), ranks@[k] as int) by {
                assert(items@[k] == bi[k]);
            }
            assert forall|k: int| 0 <= k < kept0.len() + 1 implies cvs.take(c + 1).filter(kept_pred)[k] == item_view(#[trigger] items@[n_matching + k])
                        && ranks@[n_matching + k] == custom_rank by {
                if k < kept0.len() {
                    assert(items@[n_matching + k] == bi[n_matching + k]);
                }
            }
        }
        c = c + 1;
    }
    assert(cvs.take(customs.len() as int) == cvs);
    let ghost ranked = filtered_ranked(cv, lv, filter_text@, text@, filter_text@);
    assert(ranked.len() == items.len());
    let ghost kept = cvs.filter(kept_pred);
    assert(ranked == m + with_rank(kept, match_rank(filter_text@, filter_text@)));
    assert forall|k: int| 0 <= k < items.len() implies ranked[k] == (item_view(#[trigger] items@[k]), ranks@[k] as int) by {
        if k >= n_matching {
            let k2 = k - n_matching;
            assert(kept[k2] == item_view(items@[n_matching + k2]) && ranks@[n_matching + k2] == custom_rank);
            assert(ranked[k] == (kept[k2], match_rank(filter_text@, filter_text@)));
        }
    }
    assert(item_views(items@) =~= unranked(ranked));
    assert forall|k: int| 0 <= k < items.len() implies ranked[k].1 == #[trigger] ranks@[k] as int by {
        assert(ranked[k] == (item_view(items@[k]), ranks@[k] as int));
    }
    // The first of the best ranks.
    let mut best: Option<usize> = None;
    for i in 0..items.len()
        invariant
            items.len() == ranks.len(),
            ranked.len() == items.len(),
            forall|k: int| 0 <= k < items.len() ==> ranked[k].1 == #[trigger] ranks@[k] as int,
            match best {
                Some(b) => {
                    &&& b < i
                    &&& forall|j: int| 0 <= j < i ==> ranks@[b as int] <= #[trigger] ranks@[j]
                    &&& forall|j: int| 0 <= j < b ==> ranks@[b as int] < #[trigger] ranks@[j]
                },
                None => i == 0,
            },
    {
        match best {
            None => {
                best = Some(i);
            },
            Some(b) => {
                if ranks[i] < ranks[b] {
                    best = Some(i);
                }
            },
        }
    }
    proof {
        if let Some(b) = best {
            assert forall|j: int| 0 <= j < ranked.len() implies ranked[b as int].1 <= (#[trigger] ranked[j]).1 by {
                assert(ranked[j].1 == ranks@[j] as int);
            }
            assert forall|j: int| 0 <= j < b implies ranked[b as int].1 < (#[trigger] ranked[j]).1 by {
                assert(ranked[j].1 == ranks@[j] as int);
            }
        }
    }
    (items, best)
}

// ---------------------------------------------------------------------------
// The library panel
// ---------------------------------------------------------------------------

/// What the library panel asks of the application.
#[derive(Debug)]
pub enum LibraryResponse {
    Nothing,
    Close,
    AddNode(LibraryItem),
}

/// What the library panel remembers between frames.
#[derive(Debug)]
pub struct LibraryMemory {
    pub textedit: String,
    pub contents: Vec<LibraryItem>,
    pub filtered_items: Vec<LibraryItem>,
    pub selected_index: Option<usize>,
    pub last_filter_text: String,
}

/// The lower-case names of `items`.
pub open spec fn lowered_names(items: Seq<LibraryItem>) -> Seq<Seq<char>> {
    items.map_values(|it: LibraryItem| unicode_lowercase(it.name@))
}

impl LibraryMemory {
    /// The selection, if any, is one of the filtered items.
    pub open spec fn wf(&self) -> bool {
        self.selected_index matches Some(i) ==> i < self.filtered_items.len()
    }

    /// An empty panel.
    pub fn new() -> (r: Self)
        ensures
            r.wf(),
            r.textedit@.len() == 0,
            r.last_filter_text@.len() == 0,
            r.contents.len() == 0,
            r.filtered_items.len() == 0,
            r.selected_index is None,
    {
        LibraryMemory {
            textedit: String::new(),
            contents: Vec::new(),
            filtered_items: Vec::new(),
            selected_index: None,
            last_filter_text: String::new(),
        }
    }

    /// The panel as it opens with the library's `contents`: no text typed,
    /// every item listed, none selected.
    pub fn reopen(&mut self, contents: Vec<LibraryItem>)
        ensures
            final(self).wf(),
            final(self).textedit@.len() == 0,
            final(self).last_filter_text@.len() == 0,
            final(self).contents@ == contents@,
            item_views(final(self).filtered_items@) == item_views(contents@),
            final(self).selected_index is None,
    {
        self.textedit = String::new();
        self.last_filter_text = String::new();
        let mut filtered: Vec<LibraryItem> = Vec::new();
        for i in 0..contents.len()
            invariant
                filtered@ == contents@.take(i as int),
        {
            filtered.push(contents[i].duplicate());
            assert(contents@.take(i + 1) == contents@.take(i as int).push(contents@[i as int]));
        }
        assert(contents@.take(contents.len() as int) == contents@);
        self.contents = contents;
        self.filtered_items = filtered;
        self.selected_index = None;
    }

    /// Brings the list up to date with the typed text, when its lower case
    /// changed: an empty filter lists every item and selects none; otherwise
    /// the list is `filter_library`'s, with its best match selected.
    pub fn refresh_filter(&mut self)
        requires
            old(self).wf(),
        ensures
            final(self).wf(),
            final(self).textedit == old(self).textedit,
            final(self).contents@ == old(self).contents@,
            ({
                let f = unicode_lowercase(old(self).textedit@);
                if old(self).last_filter_text@ == f {
                    &&& final(self).last_filter_text@ == old(self).last_filter_text@
                    &&& final(self).filtered_items@ == old(self).filtered_items@
                    &&& final(self).selected_index == old(self).selected_index
                } else if f.len() == 0 {
                    &&& final(self).last_filter_text@ == f
                    &&& item_views(final(self).filtered_items@) == item_views(old(self).contents@)
                    &&& final(self).selected_index is None
                } else {
                    let ranked = filtered_ranked(
                        item_views(old(self).contents@),
                        lowered_names(old(self).contents@),
                        f,
                        old(self).textedit@,
                        f,
                    );
                    &&& final(self).last_filter_text@ == f
                    &&& item_views(final(self).filtered_items@) == unranked(ranked)
                    &&& match final(self).selected_index {
                        Some(i) => is_first_best(ranked, i as int),
                        None => ranked.len() == 0,
                    }
                }
            }),
    {
        let filter_text = to_lowercase(self.textedit.as_str());
        if self.last_filter_text == filter_text {
            return;
        }
        self.last_filter_text = filter_text.clone();
        if filter_text.as_str().is_empty() {
            let mut filtered: Vec<LibraryItem> = Vec::new();
            for i in 0..self.contents.len()
                invariant
                    filtered@ == self.contents@.take(i as int),
            {
                filtered.push(self.contents[i].duplicate());
                assert(self.contents@.take(i + 1) == self.contents@.take(i as int).push(
                    self.contents@[i as int],
                ));
            }
            assert(self.contents@.take(self.contents.len() as int) == self.contents@);
            self.filtered_items = filtered;
            self.selected_index = None;
            return;
        }
        let mut lowered: Vec<String> = Vec::new();
        for i in 0..self.contents.len()
            invariant
                lowered.len() == i,
                forall|j: int|
                    0 <= j < i ==> (#[trigger] lowered@[j])@ == unicode_lowercase(
                        self.contents@[j].name@,
                    ),
        {
            let l = to_lowercase(self.contents[i].name.as_str());
            lowered.push(l);
        }
        assert(string_views(lowered@) =~= lowered_names(self.contents@));
        let (filtered, best) = filter_library(
            &self.contents,
            &lowered,
            self.textedit.as_str(),
            &filter_text,
        );
        self.filtered_items = filtered;
        self.selected_index = best;
        proof {
            if let Some(b) = best {
                assert(b < unranked(
                    filtered_ranked(
                        item_views(self.contents@),
                        lowered_names(self.contents@),
                        filter_text@,
                        self.textedit@,
                        filter_text@,
                    ),
                ).len());
            }
        }
    }

    /// The down arrow selects the next item, wrapping around, or the first
    /// when none is selected.
    pub fn arrow_down(&mut self)
        requires
            old(self).wf(),
        ensures
            final(self).wf(),
            final(self).filtered_items@ == old(self).filtered_items@,
            final(self).selected_index == match old(self).selected_index {
                Some(i) => Some(((i + 1) % (old(self).filtered_items.len() as int)) as usize),
                None => if old(self).filtered_items.len() > 0 {
                    Some(0usize)
                } else {
                    None
                },
            },
    {
        let len = self.filtered_items.len();
        match self.selected_index {
            Some(i) => {
                self.selected_index = Some((i + 1) % len);
            },
            None => {
                if len > 0 {
                    self.selected_index = Some(0);
                }
            },
        }
    }

    /// The up arrow selects the previous item, or the last when none is
    /// selected. (The first item has no previous one.)
    pub fn arrow_up(&mut self)
        requires
            old(self).wf(),
            old(self).selected_index != Some(0usize),
        ensures
            final(self).wf(),
            final(self).filtered_items@ == old(self).filtered_items@,
            final(self).selected_index == match old(self).selected_index {
                Some(i) => Some((i - 1) as usize),
                None => if old(self).filtered_items.len() > 0 {
                    Some((old(self).filtered_items.len() - 1) as usize)
                } else {
                    None
                },
            },
    {
        let len = self.filtered_items.len();
        match self.selected_index {
            Some(i) => {
                proof {
                    vstd::arithmetic::div_mod::lemma_small_mod((i - 1) as nat, len as nat);
                }
                self.selected_index = Some((i - 1) % len);
            },
            None => {
                if len > 0 {
                    self.selected_index = Some(len - 1);
                }
            },
        }
    }

    /// Enter adds the selected item, or closes the panel when none is
    /// selected.
    pub fn enter(&self) -> (r: LibraryResponse)
        requires
            self.wf(),
        ensures
            match self.selected_index {
                Some(i) => r matches LibraryResponse::AddNode(item) && item
                    == self.filtered_items@[i as int],
                None => r is Close,
            },
    {
        match self.selected_index {
            Some(i) => LibraryResponse::AddNode(self.filtered_items[i].duplicate()),
            None => LibraryResponse::Close,
        }
    }
}

} // verus!
