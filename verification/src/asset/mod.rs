//! The library of reference material: images, how they are sorted and marked, and their colors.

use vstd::prelude::*;
use vstd::string::*;

use crate::asset::pictures::image_dimensions_of;
use crate::canvas;
use crate::codegen::wrap;
use crate::css;
use crate::ecosystem::templates;
use crate::ecosystem::templates::{any_tag_holds, holds_tag};
use crate::json;
use crate::num::{Num, NumView};
use crate::text;
use crate::text::{contains, number, position, same, to_lowercase};

pub mod colors;
pub mod pictures;

verus! {

/// The most pixels that an image has.
pub const MAX_PIXELS: u64 = 64_000_000;

/// The largest file that is taken in, in bytes.
pub const MAX_IMAGE_FILE_SIZE: u64 = 104_857_600;

/// The kinds of material.
#[derive(Debug, Clone, Copy, PartialEq, Eq, Structural)]
pub enum AssetKind {
    Image,
    Icon,
    Illustration,
    Other,
}

/// A mark on a piece of material.
#[derive(Debug)]
pub struct Annotation {
    pub id: String,
    pub x: Num,
    pub y: Num,
    pub w: Num,
    pub h: Num,
    pub label: String,
    pub color: Option<String>,
    pub note: Option<String>,
}

/// The main colors of an image, how much of it each makes up, and the tokens that stand for them.
#[derive(Debug)]
pub struct ColorExtraction {
    pub dominant_colors: Vec<String>,
    pub weights: Vec<Num>,
    pub bound_tokens: Vec<(String, String)>,
}

/// A piece of material.
#[derive(Debug)]
pub struct AssetItem {
    pub id: String,
    pub name: String,
    pub kind: AssetKind,
    pub file_path: String,
    pub categories: Vec<String>,
    pub tags: Vec<String>,
    pub annotations: Vec<Annotation>,
    pub color_extraction: Option<ColorExtraction>,
    pub design_system_id: Option<String>,
    pub file_size: u64,
    pub width: u32,
    pub height: u32,
    pub created_at: u64,
    pub updated_at: u64,
}

/// A category.
#[derive(Debug)]
pub struct AssetCategory {
    pub id: String,
    pub name: String,
    pub parent_id: Option<String>,
    pub icon: String,
    pub description: String,
}

/// The material and the categories, each under its key.
#[derive(Debug)]
pub struct AssetLibrary {
    pub items: Vec<(String, AssetItem)>,
    pub categories: Vec<(String, AssetCategory)>,
}

/// What an `Annotation` holds.
#[verifier::ext_equal]
pub struct AnnotationView {
    pub id: Seq<char>,
    pub x: NumView,
    pub y: NumView,
    pub w: NumView,
    pub h: NumView,
    pub label: Seq<char>,
    pub color: Option<Seq<char>>,
    pub note: Option<Seq<char>>,
}

/// What a `ColorExtraction` holds.
#[verifier::ext_equal]
pub struct ExtractionView {
    pub dominant_colors: Seq<Seq<char>>,
    pub weights: Seq<NumView>,
    pub bound_tokens: Seq<(Seq<char>, Seq<char>)>,
}

/// What an `AssetItem` holds.
#[verifier::ext_equal]
pub struct ItemView {
    pub id: Seq<char>,
    pub name: Seq<char>,
    pub kind: AssetKind,
    pub file_path: Seq<char>,
    pub categories: Seq<Seq<char>>,
    pub tags: Seq<Seq<char>>,
    pub annotations: Seq<AnnotationView>,
    pub color_extraction: Option<ExtractionView>,
    pub design_system_id: Option<Seq<char>>,
    pub file_size: u64,
    pub width: u32,
    pub height: u32,
    pub created_at: u64,
    pub updated_at: u64,
}

/// What an `AssetCategory` holds.
#[verifier::ext_equal]
pub struct CategoryView {
    pub id: Seq<char>,
    pub name: Seq<char>,
    pub parent_id: Option<Seq<char>>,
    pub icon: Seq<char>,
    pub description: Seq<char>,
}

/// What an `AssetLibrary` holds.
#[verifier::ext_equal]
pub struct LibraryView {
    pub items: Seq<(Seq<char>, ItemView)>,
    pub categories: Seq<(Seq<char>, CategoryView)>,
}

impl Annotation {
    pub open spec fn view(&self) -> AnnotationView {
        AnnotationView {
            id: self.id@,
            x: self.x@,
            y: self.y@,
            w: self.w@,
            h: self.h@,
            label: self.label@,
            color: text::opt_text(self.color),
            note: text::opt_text(self.note),
        }
    }
}

impl ColorExtraction {
    pub open spec fn view(&self) -> ExtractionView {
        ExtractionView {
            dominant_colors: text::texts(self.dominant_colors@),
            weights: self.weights@.map_values(|n: Num| n@),
            bound_tokens: canvas::pair_views(self.bound_tokens@),
        }
    }
}

pub open spec fn annotation_views(s: Seq<Annotation>) -> Seq<AnnotationView> {
    s.map_values(|a: Annotation| a@)
}

pub open spec fn opt_extraction(o: Option<ColorExtraction>) -> Option<ExtractionView> {
    match o {
        Some(e) => Some(e@),
        None => None,
    }
}

impl AssetItem {
    pub open spec fn view(&self) -> ItemView {
        ItemView {
            id: self.id@,
            name: self.name@,
            kind: self.kind,
            file_path: self.file_path@,
            categories: text::texts(self.categories@),
            tags: text::texts(self.tags@),
            annotations: annotation_views(self.annotations@),
            color_extraction: opt_extraction(self.color_extraction),
            design_system_id: text::opt_text(self.design_system_id),
            file_size: self.file_size,
            width: self.width,
            height: self.height,
            created_at: self.created_at,
            updated_at: self.updated_at,
        }
    }
}

impl AssetCategory {
    pub open spec fn view(&self) -> CategoryView {
        CategoryView {
            id: self.id@,
            name: self.name@,
            parent_id: text::opt_text(self.parent_id),
            icon: self.icon@,
            description: self.description@,
        }
    }
}

pub open spec fn entry_view(e: (String, AssetItem)) -> (Seq<char>, ItemView) {
    (e.0@, e.1@)
}

pub open spec fn category_entry_view(e: (String, AssetCategory)) -> (Seq<char>, CategoryView) {
    (e.0@, e.1@)
}

pub open spec fn entry_views(s: Seq<(String, AssetItem)>) -> Seq<(Seq<char>, ItemView)> {
    s.map_values(|e: (String, AssetItem)| entry_view(e))
}

pub open spec fn category_entry_views(s: Seq<(String, AssetCategory)>) -> Seq<
    (Seq<char>, CategoryView),
> {
    s.map_values(|e: (String, AssetCategory)| category_entry_view(e))
}

pub open spec fn category_views(s: Seq<AssetCategory>) -> Seq<CategoryView> {
    s.map_values(|c: AssetCategory| c@)
}

/// The items that references point to.
pub open spec fn item_views(s: Seq<&AssetItem>) -> Seq<ItemView> {
    s.map_values(|i: &AssetItem| i@)
}

impl AssetLibrary {
    pub open spec fn view(&self) -> LibraryView {
        LibraryView {
            items: entry_views(self.items@),
            categories: category_entry_views(self.categories@),
        }
    }

    /// No key occurs twice.
    pub open spec fn wf(&self) -> bool {
        distinct_keys(self@.items) && distinct_keys(self@.categories)
    }
}

/// Why something cannot be done with the library.
#[derive(Debug)]
pub enum AssetError {
    NotFound(String),
    NoColorExtraction(String),
    FileNotFound(String),
    Io(String),
    Serde(String),
    FileTooLarge(u64, u64),
    ImageTooLarge(u32, u32, u64),
}

impl AssetError {
    /// The error in words.
    pub fn message(&self) -> (r: String)
        ensures
            r@ == match *self {
                AssetError::NotFound(s) => "素材 "@ + s@ + " 未找到"@,
                AssetError::NoColorExtraction(s) => "素材 "@ + s@ + " 无色彩提取结果"@,
                AssetError::FileNotFound(s) => "文件不存在: "@ + s@,
                AssetError::Io(s) => "IO 错误: "@ + s@,
                AssetError::Serde(s) => "序列化错误: "@ + s@,
                AssetError::FileTooLarge(a, b) => "文件过大: "@ + text::decimal(a as nat)
                    + " 字节，超过上限 "@ + text::decimal(b as nat) + " 字节"@,
                AssetError::ImageTooLarge(w, h, n) => "图片像素数超限: "@ + text::decimal(w as nat)
                    + "x"@ + text::decimal(h as nat) + " = "@ + text::decimal(n as nat)
                    + " 像素"@,
            },
    {
        match self {
            AssetError::NotFound(s) => wrap("素材 ", s.as_str(), " 未找到"),
            AssetError::NoColorExtraction(s) => wrap("素材 ", s.as_str(), " 无色彩提取结果"),
            AssetError::FileNotFound(s) => "文件不存在: ".to_owned().concat(s.as_str()),
            AssetError::Io(s) => "IO 错误: ".to_owned().concat(s.as_str()),
            AssetError::Serde(s) => "序列化错误: ".to_owned().concat(s.as_str()),
            AssetError::FileTooLarge(a, b) => wrap(
                "文件过大: ",
                number(*a).as_str(),
                " 字节，超过上限 ",
            ).concat(number(*b).as_str()).concat(" 字节"),
            AssetError::ImageTooLarge(w, h, n) => wrap(
                "图片像素数超限: ",
                number(*w as u64).as_str(),
                "x",
            ).concat(number(*h as u64).as_str()).concat(" = ").concat(number(*n).as_str()).concat(
                " 像素",
            ),
        }
    }
}

// ---------------------------------------------------------------------------
// Keys
// ---------------------------------------------------------------------------

/// No key occurs twice.
pub open spec fn distinct_keys<V>(s: Seq<(Seq<char>, V)>) -> bool {
    forall|i: int, j: int|
        0 <= i < j < s.len() ==> (#[trigger] s[i]).0 != (#[trigger] s[j]).0
}

/// The position of a key; the length where it does not occur.
pub open spec fn key_at<V>(s: Seq<(Seq<char>, V)>, key: Seq<char>) -> int
    decreases s.len(),
{
    if s.len() == 0 {
        0
    } else if s[0].0 == key {
        0
    } else {
        1 + key_at(s.skip(1), key)
    }
}

/// The key occurs.
pub open spec fn has_key<V>(s: Seq<(Seq<char>, V)>, key: Seq<char>) -> bool {
    key_at(s, key) < s.len()
}

/// What stands under the key.
pub open spec fn value_at<V>(s: Seq<(Seq<char>, V)>, key: Seq<char>) -> Option<V> {
    if has_key(s, key) {
        Some(s[key_at(s, key)].1)
    } else {
        None
    }
}

/// The entries with a value under a key, in the place of the old one or at the end.
pub open spec fn with_value<V>(s: Seq<(Seq<char>, V)>, key: Seq<char>, v: V) -> Seq<
    (Seq<char>, V),
> {
    if has_key(s, key) {
        s.update(key_at(s, key), (key, v))
    } else {
        s.push((key, v))
    }
}

/// The entries without a key.
pub open spec fn without_key<V>(s: Seq<(Seq<char>, V)>, key: Seq<char>) -> Seq<(Seq<char>, V)> {
    if has_key(s, key) {
        s.remove(key_at(s, key))
    } else {
        s
    }
}

proof fn lemma_key_at<V>(s: Seq<(Seq<char>, V)>, key: Seq<char>)
    ensures
        0 <= key_at(s, key) <= s.len(),
        forall|i: int| 0 <= i < key_at(s, key) ==> (#[trigger] s[i]).0 != key,
        key_at(s, key) < s.len() ==> s[key_at(s, key)].0 == key,
    decreases s.len(),
{
    if s.len() > 0 && s[0].0 != key {
        let rest = s.skip(1);
        lemma_key_at(rest, key);
        assert forall|i: int| 0 <= i < key_at(s, key) implies (#[trigger] s[i]).0 != key by {
            if i > 0 {
                assert(s[i] == rest[i - 1]);
            }
        }
        if key_at(s, key) < s.len() {
            assert(s[key_at(s, key)] == rest[key_at(rest, key)]);
        }
    }
}

proof fn lemma_key_at_is<V>(s: Seq<(Seq<char>, V)>, key: Seq<char>, i: int)
    requires
        0 <= i <= s.len(),
        forall|k: int| 0 <= k < i ==> (#[trigger] s[k]).0 != key,
        i < s.len() ==> s[i].0 == key,
    ensures
        key_at(s, key) == i,
{
    lemma_key_at(s, key);
    let k = key_at(s, key);
    if k < i {
        assert(s[k].0 != key);
    } else if i < k {
        assert(s[i].0 != key);
    }
}

proof fn lemma_with_value_distinct<V>(s: Seq<(Seq<char>, V)>, key: Seq<char>, v: V)
    requires
        distinct_keys(s),
    ensures
        distinct_keys(with_value(s, key, v)),
{
    lemma_key_at(s, key);
}

proof fn lemma_without_key_distinct<V>(s: Seq<(Seq<char>, V)>, key: Seq<char>)
    requires
        distinct_keys(s),
    ensures
        distinct_keys(without_key(s, key)),
{
    lemma_key_at(s, key);
    let r = without_key(s, key);
    if has_key(s, key) {
        let k = key_at(s, key);
        assert forall|i: int, j: int| 0 <= i < j < r.len() implies (#[trigger] r[i]).0 != (
        #[trigger] r[j]).0 by {
            let a = if i < k {
                i
            } else {
                i + 1
            };
            let b = if j < k {
                j
            } else {
                j + 1
            };
            assert(r[i] == s[a]);
            assert(r[j] == s[b]);
        }
    }
}

fn find_item(items: &Vec<(String, AssetItem)>, key: &str) -> (r: usize)
    ensures
        r as int == key_at(entry_views(items@), key@),
        r <= items@.len(),
        r < items@.len() ==> items@[r as int].0@ == key@,
{
    let ghost views = entry_views(items@);
    let mut i: usize = 0;
    while i < items.len()
        invariant
            i <= items@.len(),
            views == entry_views(items@),
            forall|k: int| 0 <= k < i ==> (#[trigger] views[k]).0 != key@,
        decreases items.len() - i,
    {
        proof {
            assert(views[i as int].0 == items@[i as int].0@);
        }
        if same(items[i].0.as_str(), key) {
            proof {
                lemma_key_at_is(views, key@, i as int);
            }
            return i;
        }
        i = i + 1;
    }
    proof {
        lemma_key_at_is(views, key@, i as int);
    }
    i
}

fn find_category(categories: &Vec<(String, AssetCategory)>, key: &str) -> (r: usize)
    ensures
        r as int == key_at(category_entry_views(categories@), key@),
        r <= categories@.len(),
{
    let ghost views = category_entry_views(categories@);
    let mut i: usize = 0;
    while i < categories.len()
        invariant
            i <= categories@.len(),
            views == category_entry_views(categories@),
            forall|k: int| 0 <= k < i ==> (#[trigger] views[k]).0 != key@,
        decreases categories.len() - i,
    {
        proof {
            assert(views[i as int].0 == categories@[i as int].0@);
        }
        if same(categories[i].0.as_str(), key) {
            proof {
                lemma_key_at_is(views, key@, i as int);
            }
            return i;
        }
        i = i + 1;
    }
    proof {
        lemma_key_at_is(views, key@, i as int);
    }
    i
}

// ---------------------------------------------------------------------------
// Search
// ---------------------------------------------------------------------------

/// The item is in the category.
pub open spec fn in_category(i: ItemView, category: Seq<char>) -> bool {
    i.categories.contains(category)
}

/// One of the item's categories has a name that holds the words.
pub open spec fn category_holds(
    cs: Seq<(Seq<char>, CategoryView)>,
    i: ItemView,
    words: Seq<char>,
) -> bool {
    exists|k: int|
        0 <= k < i.categories.len() && (value_at(cs, #[trigger] i.categories[k]) matches Some(c)
            && text::occurs(text::lowercase(c.name), words))
}

/// The item answers the query: its name, one of its tags or the name of one of its categories
/// holds the words, whatever their case. An empty query is answered by all.
pub open spec fn answers(
    cs: Seq<(Seq<char>, CategoryView)>,
    i: ItemView,
    query: Seq<char>,
) -> bool {
    let words = text::lowercase(query);
    words.len() == 0 || text::occurs(text::lowercase(i.name), words) || templates::any_holds(
        i.tags,
        words,
    ) || category_holds(cs, i, words)
}

/// The item has all the tags, whatever their case.
pub open spec fn has_all_tags(i: ItemView, tags: Seq<Seq<char>>) -> bool {
    forall|k: int| 0 <= k < tags.len() ==> templates::has_tag(i.tags, #[trigger] tags[k])
}

/// The items of which something holds, in their order.
pub open spec fn chosen(s: Seq<(Seq<char>, ItemView)>, p: spec_fn(ItemView) -> bool) -> Seq<
    ItemView,
>
    decreases s.len(),
{
    if s.len() == 0 {
        Seq::empty()
    } else {
        let rest = chosen(s.drop_last(), p);
        if p(s.last().1) {
            rest.push(s.last().1)
        } else {
            rest
        }
    }
}

fn any_category_holds(library: &AssetLibrary, item: &AssetItem, words: &str) -> (r: bool)
    ensures
        r == category_holds(library@.categories, item@, words@),
{
    let ghost views = item@.categories;
    let mut i: usize = 0;
    while i < item.categories.len()
        invariant
            i <= item.categories@.len(),
            views == item@.categories,
            forall|k: int|
                0 <= k < i ==> !(value_at(library@.categories, #[trigger] views[k]) matches Some(c)
                    && text::occurs(text::lowercase(c.name), words@)),
        decreases item.categories.len() - i,
    {
        proof {
            assert(views[i as int] == item.categories@[i as int]@);
        }
        let at = find_category(&library.categories, item.categories[i].as_str());
        if at < library.categories.len() {
            proof {
                assert(library@.categories[at as int].1 == library.categories@[at as int].1@);
            }
            if contains(to_lowercase(library.categories[at].1.name.as_str()).as_str(), words) {
                return true;
            }
        }
        i = i + 1;
    }
    false
}

fn holds_all_tags(item: &AssetItem, tags: &Vec<String>) -> (r: bool)
    ensures
        r == has_all_tags(item@, text::texts(tags@)),
{
    let ghost views = text::texts(tags@);
    let mut i: usize = 0;
    while i < tags.len()
        invariant
            i <= tags@.len(),
            views == text::texts(tags@),
            forall|k: int| 0 <= k < i ==> templates::has_tag(item@.tags, #[trigger] views[k]),
        decreases tags.len() - i,
    {
        proof {
            assert(views[i as int] == tags@[i as int]@);
        }
        if !holds_tag(&item.tags, tags[i].as_str()) {
            return false;
        }
        i = i + 1;
    }
    true
}

fn answers_query(library: &AssetLibrary, item: &AssetItem, query: &str) -> (r: bool)
    ensures
        r == answers(library@.categories, item@, query@),
{
    let words = to_lowercase(query);
    let w = words.as_str();
    w.is_empty() || contains(to_lowercase(item.name.as_str()).as_str(), w) || any_tag_holds(
        &item.tags,
        w,
    ) || any_category_holds(library, item, w)
}

/// What the items are chosen by.
enum Choice<'a> {
    Category(&'a str),
    Query(&'a str),
    Tags(&'a Vec<String>),
    Kind(AssetKind),
}

spec fn choice_holds(
    cs: Seq<(Seq<char>, CategoryView)>,
    choice: Choice,
    i: ItemView,
) -> bool {
    match choice {
        Choice::Category(c) => in_category(i, c@),
        Choice::Query(q) => answers(cs, i, q@),
        Choice::Tags(ts) => has_all_tags(i, text::texts(ts@)),
        Choice::Kind(k) => i.kind == k,
    }
}

impl AssetLibrary {
    fn choose_items(&self, choice: Choice) -> (r: Vec<&AssetItem>)
        ensures
            item_views(r@) == chosen(
                self@.items,
                |i: ItemView| choice_holds(self@.categories, choice, i),
            ),
    {
        let ghost views = self@.items;
        let ghost p = |i: ItemView| choice_holds(self@.categories, choice, i);
        let mut out: Vec<&AssetItem> = Vec::new();
        proof {
            assert(item_views(out@) =~= Seq::empty());
        }
        let mut i: usize = 0;
        while i < self.items.len()
            invariant
                i <= self.items@.len(),
                views == self@.items,
                p == (|i: ItemView| choice_holds(self@.categories, choice, i)),
                item_views(out@) == chosen(views.take(i as int), p),
            decreases self.items.len() - i,
        {
            let item = &self.items[i].1;
            let ghost so_far = item_views(out@);
            proof {
                text::lemma_take_step(views, i as int);
                assert(views[i as int].1 == item@);
            }
            let wanted = match &choice {
                Choice::Category(c) => {
                    let at = position(&item.categories, c);
                    proof {
                        match at {
                            Some(k) => {
                                assert(item@.categories[k as int] == c@);
                            },
                            None => {
                                assert(!item@.categories.contains(c@));
                            },
                        }
                    }
                    at.is_some()
                },
                Choice::Query(q) => answers_query(self, item, q),
                Choice::Tags(ts) => holds_all_tags(item, ts),
                Choice::Kind(k) => item.kind == *k,
            };
            if wanted {
                out.push(item);
                proof {
                    assert(item_views(out@) =~= so_far.push(item@));
                }
            }
            i = i + 1;
        }
        proof {
            text::lemma_take_all(views);
        }
        out
    }

    /// The items of a category.
    pub fn items_by_category(&self, category_id: &str) -> (r: Vec<&AssetItem>)
        ensures
            item_views(r@) == chosen(
                self@.items,
                |i: ItemView| in_category(i, category_id@),
            ),
    {
        let r = self.choose_items(Choice::Category(category_id));
        proof {
            lemma_chosen_same(
                self@.items,
                |i: ItemView| choice_holds(self@.categories, Choice::Category(category_id), i),
                |i: ItemView| in_category(i, category_id@),
            );
        }
        r
    }

    /// The items that answer a query.
    pub fn search(&self, query: &str) -> (r: Vec<&AssetItem>)
        ensures
            item_views(r@) == chosen(
                self@.items,
                |i: ItemView| answers(self@.categories, i, query@),
            ),
    {
        let r = self.choose_items(Choice::Query(query));
        proof {
            lemma_chosen_same(
                self@.items,
                |i: ItemView| choice_holds(self@.categories, Choice::Query(query), i),
                |i: ItemView| answers(self@.categories, i, query@),
            );
        }
        r
    }

    /// The items that have all the tags.
    pub fn search_by_tags(&self, tags: &Vec<String>) -> (r: Vec<&AssetItem>)
        ensures
            item_views(r@) == chosen(
                self@.items,
                |i: ItemView| has_all_tags(i, text::texts(tags@)),
            ),
    {
        let r = self.choose_items(Choice::Tags(tags));
        proof {
            lemma_chosen_same(
                self@.items,
                |i: ItemView| choice_holds(self@.categories, Choice::Tags(tags), i),
                |i: ItemView| has_all_tags(i, text::texts(tags@)),
            );
        }
        r
    }

    /// The items of a kind.
    pub fn filter_by_kind(&self, kind: AssetKind) -> (r: Vec<&AssetItem>)
        ensures
            item_views(r@) == chosen(self@.items, |i: ItemView| i.kind == kind),
    {
        let r = self.choose_items(Choice::Kind(kind));
        proof {
            lemma_chosen_same(
                self@.items,
                |i: ItemView| choice_holds(self@.categories, Choice::Kind(kind), i),
                |i: ItemView| i.kind == kind,
            );
        }
        r
    }
}

proof fn lemma_chosen_same(
    s: Seq<(Seq<char>, ItemView)>,
    p: spec_fn(ItemView) -> bool,
    q: spec_fn(ItemView) -> bool,
)
    requires
        forall|i: ItemView| #[trigger] p(i) == q(i),
    ensures
        chosen(s, p) == chosen(s, q),
    decreases s.len(),
{
    if s.len() > 0 {
        lemma_chosen_same(s.drop_last(), p, q);
        assert(p(s.last().1) == q(s.last().1));
    }
}

// ---------------------------------------------------------------------------
// Keeping material
// ---------------------------------------------------------------------------

impl AssetLibrary {
    /// An empty library.
    pub fn new() -> (r: AssetLibrary)
        ensures
            r.wf(),
            r@ == (LibraryView { items: Seq::empty(), categories: Seq::empty() }),
    {
        let r = AssetLibrary { items: Vec::new(), categories: Vec::new() };
        proof {
            assert(r@.items =~= Seq::empty());
            assert(r@.categories =~= Seq::empty());
        }
        r
    }

    /// Adds an item under its id, in the place of one that is there.
    pub fn add(&mut self, item: AssetItem)
        requires
            old(self).wf(),
        ensures
            final(self).wf(),
            final(self)@.items == with_value(old(self)@.items, item@.id, item@),
            final(self)@.categories == old(self)@.categories,
    {
        let ghost before = self@.items;
        let ghost shown = item@;
        let key = item.id.clone();
        let at = find_item(&self.items, key.as_str());
        proof {
            lemma_with_value_distinct(before, key@, shown);
        }
        if at < self.items.len() {
            self.items[at] = (key, item);
        } else {
            self.items.push((key, item));
        }
        proof {
            assert(self@.items =~= with_value(before, shown.id, shown));
        }
    }

    /// Takes an item out.
    pub fn remove(&mut self, id: &str) -> (r: Option<AssetItem>)
        requires
            old(self).wf(),
        ensures
            final(self).wf(),
            final(self)@.items == without_key(old(self)@.items, id@),
            final(self)@.categories == old(self)@.categories,
            match r {
                Some(i) => value_at(old(self)@.items, id@) == Some(i@),
                None => !has_key(old(self)@.items, id@),
            },
    {
        let ghost before = self@.items;
        let at = find_item(&self.items, id);
        proof {
            lemma_without_key_distinct(before, id@);
        }
        if at < self.items.len() {
            proof {
                assert(before[at as int].1 == self.items@[at as int].1@);
            }
            let (_, item) = self.items.remove(at);
            proof {
                assert(self@.items =~= without_key(before, id@));
            }
            Some(item)
        } else {
            None
        }
    }

    /// The item under the id.
    pub fn get(&self, id: &str) -> (r: Option<&AssetItem>)
        ensures
            match r {
                Some(i) => value_at(self@.items, id@) == Some(i@),
                None => !has_key(self@.items, id@),
            },
    {
        let at = find_item(&self.items, id);
        if at < self.items.len() {
            proof {
                assert(self@.items[at as int].1 == self.items@[at as int].1@);
            }
            Some(&self.items[at].1)
        } else {
            None
        }
    }

    /// The item under the id, to be changed.
    pub fn get_mut(&mut self, id: &str) -> (r: Option<&mut AssetItem>)
        requires
            old(self).wf(),
        ensures
            final(self).wf(),
            match r {
                Some(i) => value_at(old(self)@.items, id@) == Some(i@) && final(self)@
                    == with_item(old(self)@, id@, final(i)@),
                None => !has_key(old(self)@.items, id@) && final(self)@ == old(self)@,
            },
    {
        let ghost before = self@;
        let at = find_item(&self.items, id);
        if at < self.items.len() {
            proof {
                assert(before.items[at as int].1 == self.items@[at as int].1@);
                assert forall|i: int, j: int| 0 <= i < j < self.items@.len() implies (
                #[trigger] self.items@[i]).0@ != (#[trigger] self.items@[j]).0@ by {
                    assert(before.items[i].0 == self.items@[i].0@);
                    assert(before.items[j].0 == self.items@[j].0@);
                }
            }
            Some(&mut self.items[at].1)
        } else {
            None
        }
    }

    /// Adds a category under its id, in the place of one that is there.
    pub fn add_category(&mut self, cat: AssetCategory)
        requires
            old(self).wf(),
        ensures
            final(self).wf(),
            final(self)@.categories == with_value(old(self)@.categories, cat@.id, cat@),
            final(self)@.items == old(self)@.items,
    {
        let ghost before = self@.categories;
        let ghost shown = cat@;
        let key = cat.id.clone();
        let at = find_category(&self.categories, key.as_str());
        proof {
            lemma_with_value_distinct(before, key@, shown);
        }
        if at < self.categories.len() {
            self.categories[at] = (key, cat);
        } else {
            self.categories.push((key, cat));
        }
        proof {
            assert(self@.categories =~= with_value(before, shown.id, shown));
        }
    }

    /// How many items there are.
    pub fn len(&self) -> (r: usize)
        ensures
            r == self@.items.len(),
    {
        self.items.len()
    }

    /// Whether there are no items.
    pub fn is_empty(&self) -> (r: bool)
        ensures
            r == (self@.items.len() == 0),
    {
        self.items.len() == 0
    }
}

// ---------------------------------------------------------------------------
// Changing items
// ---------------------------------------------------------------------------

/// The item with one more mark.
pub open spec fn annotated(i: ItemView, a: AnnotationView, now: u64) -> ItemView {
    ItemView { annotations: i.annotations.push(a), updated_at: now, ..i }
}

/// The item with its colors.
pub open spec fn extracted(i: ItemView, e: ExtractionView, now: u64) -> ItemView {
    ItemView { color_extraction: Some(e), updated_at: now, ..i }
}

/// The item with a design system.
pub open spec fn bound(i: ItemView, system: Seq<char>, now: u64) -> ItemView {
    ItemView { design_system_id: Some(system), updated_at: now, ..i }
}

/// Bindings with more of them added; a binding takes the place of one with the same name.
pub open spec fn bindings_with(
    have: Seq<(Seq<char>, Seq<char>)>,
    more: Seq<(Seq<char>, Seq<char>)>,
) -> Seq<(Seq<char>, Seq<char>)>
    decreases more.len(),
{
    if more.len() == 0 {
        have
    } else {
        with_value(bindings_with(have, more.drop_last()), more.last().0, more.last().1)
    }
}

/// The item with tokens for its colors.
pub open spec fn tokens_bound(i: ItemView, more: Seq<(Seq<char>, Seq<char>)>, now: u64) -> ItemView {
    match i.color_extraction {
        Some(e) => ItemView {
            color_extraction: Some(
                ExtractionView { bound_tokens: bindings_with(e.bound_tokens, more), ..e },
            ),
            updated_at: now,
            ..i
        },
        None => i,
    }
}

/// The library with an item changed.
pub open spec fn with_item(l: LibraryView, key: Seq<char>, i: ItemView) -> LibraryView {
    LibraryView { items: with_value(l.items, key, i), ..l }
}

/// What becomes of a library when an item is changed: an item that is not there is reported, and
/// the library stays as it is.
pub open spec fn change_outcome(
    before: LibraryView,
    after: LibraryView,
    key: Seq<char>,
    change: spec_fn(ItemView) -> ItemView,
    r: Result<(), AssetError>,
) -> bool {
    match value_at(before.items, key) {
        Some(i) => r is Ok && after == with_item(before, key, change(i)),
        None => (r matches Err(AssetError::NotFound(id)) && id@ == key) && after == before,
    }
}

fn add_binding(have: &mut Vec<(String, String)>, key: &str, value: &str)
    ensures
        canvas::pair_views(final(have)@) == with_value(
            canvas::pair_views(old(have)@),
            key@,
            value@,
        ),
{
    let ghost views = canvas::pair_views(have@);
    let mut i: usize = 0;
    while i < have.len()
        invariant
            i <= have@.len(),
            have@ == old(have)@,
            views == canvas::pair_views(have@),
            forall|k: int| 0 <= k < i ==> (#[trigger] views[k]).0 != key@,
        decreases have.len() - i,
    {
        proof {
            assert(views[i as int].0 == have@[i as int].0@);
        }
        if same(have[i].0.as_str(), key) {
            proof {
                lemma_key_at_is(views, key@, i as int);
            }
            have[i] = (key.to_owned(), value.to_owned());
            proof {
                assert(canvas::pair_views(have@) =~= views.update(i as int, (key@, value@)));
            }
            return;
        }
        i = i + 1;
    }
    proof {
        lemma_key_at_is(views, key@, i as int);
    }
    have.push((key.to_owned(), value.to_owned()));
    proof {
        assert(canvas::pair_views(have@) =~= views.push((key@, value@)));
    }
}

fn add_bindings(have: &mut Vec<(String, String)>, more: &Vec<(String, String)>)
    ensures
        canvas::pair_views(final(have)@) == bindings_with(
            canvas::pair_views(old(have)@),
            canvas::pair_views(more@),
        ),
{
    let ghost start = canvas::pair_views(have@);
    let ghost views = canvas::pair_views(more@);
    let mut i: usize = 0;
    while i < more.len()
        invariant
            i <= more@.len(),
            views == canvas::pair_views(more@),
            canvas::pair_views(have@) == bindings_with(start, views.take(i as int)),
        decreases more.len() - i,
    {
        proof {
            text::lemma_take_step(views, i as int);
            assert(views[i as int] == (more@[i as int].0@, more@[i as int].1@));
        }
        add_binding(have, more[i].0.as_str(), more[i].1.as_str());
        i = i + 1;
    }
    proof {
        text::lemma_take_all(views);
    }
}

impl AssetLibrary {
    /// Adds a mark to an item. `now` is the time, in seconds.
    pub fn add_annotation(&mut self, item_id: &str, annotation: Annotation, now: u64) -> (r: Result<
        (),
        AssetError,
    >)
        requires
            old(self).wf(),
        ensures
            final(self).wf(),
            change_outcome(
                old(self)@,
                final(self)@,
                item_id@,
                |i: ItemView| annotated(i, annotation@, now),
                r,
            ),
    {
        let ghost before = self@;
        let ghost shown = annotation@;
        let at = find_item(&self.items, item_id);
        if at >= self.items.len() {
            return Err(AssetError::NotFound(item_id.to_owned()));
        }
        let ghost had = self.items@[at as int].1@;
        proof {
            assert(before.items[at as int] == (item_id@, had));
            lemma_with_value_distinct(before.items, item_id@, annotated(had, shown, now));
        }
        let item = &mut self.items[at].1;
        item.annotations.push(annotation);
        item.updated_at = now;
        proof {
            let i = self.items@[at as int].1@;
            assert(i.annotations =~= had.annotations.push(shown));
            assert(i =~= annotated(had, shown, now));
            assert(self@.items =~= with_value(before.items, item_id@, i));
        }
        Ok(())
    }

    /// Sets the colors of an item. `now` is the time, in seconds.
    pub fn set_color_extraction(
        &mut self,
        item_id: &str,
        extraction: ColorExtraction,
        now: u64,
    ) -> (r: Result<(), AssetError>)
        requires
            old(self).wf(),
        ensures
            final(self).wf(),
            change_outcome(
                old(self)@,
                final(self)@,
                item_id@,
                |i: ItemView| extracted(i, extraction@, now),
                r,
            ),
    {
        let ghost before = self@;
        let ghost shown = extraction@;
        let at = find_item(&self.items, item_id);
        if at >= self.items.len() {
            return Err(AssetError::NotFound(item_id.to_owned()));
        }
        let ghost had = self.items@[at as int].1@;
        proof {
            assert(before.items[at as int] == (item_id@, had));
            lemma_with_value_distinct(before.items, item_id@, extracted(had, shown, now));
        }
        let item = &mut self.items[at].1;
        item.color_extraction = Some(extraction);
        item.updated_at = now;
        proof {
            let i = self.items@[at as int].1@;
            assert(i =~= extracted(had, shown, now));
            assert(self@.items =~= with_value(before.items, item_id@, i));
        }
        Ok(())
    }

    /// Binds an item to a design system. `now` is the time, in seconds.
    pub fn bind_design_system(&mut self, item_id: &str, design_system_id: &str, now: u64) -> (r:
        Result<(), AssetError>)
        requires
            old(self).wf(),
        ensures
            final(self).wf(),
            change_outcome(
                old(self)@,
                final(self)@,
                item_id@,
                |i: ItemView| bound(i, design_system_id@, now),
                r,
            ),
    {
        let ghost before = self@;
        let at = find_item(&self.items, item_id);
        if at >= self.items.len() {
            return Err(AssetError::NotFound(item_id.to_owned()));
        }
        let ghost had = self.items@[at as int].1@;
        proof {
            assert(before.items[at as int] == (item_id@, had));
            lemma_with_value_distinct(before.items, item_id@, bound(had, design_system_id@, now));
        }
        let item = &mut self.items[at].1;
        item.design_system_id = Some(design_system_id.to_owned());
        item.updated_at = now;
        proof {
            let i = self.items@[at as int].1@;
            assert(i =~= bound(had, design_system_id@, now));
            assert(self@.items =~= with_value(before.items, item_id@, i));
        }
        Ok(())
    }

    /// Binds the colors of an item to tokens. `now` is the time, in seconds.
    pub fn bind_colors_to_tokens(
        &mut self,
        item_id: &str,
        token_map: &Vec<(String, String)>,
        now: u64,
    ) -> (r: Result<(), AssetError>)
        requires
            old(self).wf(),
        ensures
            final(self).wf(),
            match value_at(old(self)@.items, item_id@) {
                Some(i) => if i.color_extraction is Some {
                    r is Ok && final(self)@ == with_item(
                        old(self)@,
                        item_id@,
                        tokens_bound(i, canvas::pair_views(token_map@), now),
                    )
                } else {
                    (r matches Err(AssetError::NoColorExtraction(id)) && id@ == item_id@) 
                        && final(self)@ == old(self)@
                },
                None => (r matches Err(AssetError::NotFound(id)) && id@ == item_id@) && final(self)@
                    == old(self)@,
            },
    {
        let ghost before = self@;
        let ghost more = canvas::pair_views(token_map@);
        let at = find_item(&self.items, item_id);
        if at >= self.items.len() {
            return Err(AssetError::NotFound(item_id.to_owned()));
        }
        let ghost had = self.items@[at as int].1@;
        proof {
            assert(before.items[at as int] == (item_id@, had));
            lemma_with_value_distinct(before.items, item_id@, tokens_bound(had, more, now));
        }
        if self.items[at].1.color_extraction.is_none() {
            return Err(AssetError::NoColorExtraction(item_id.to_owned()));
        }
        let item = &mut self.items[at].1;
        match &mut item.color_extraction {
            Some(e) => add_bindings(&mut e.bound_tokens, token_map),
            None => {},
        }
        item.updated_at = now;
        proof {
            let i = self.items@[at as int].1@;
            assert(i =~= tokens_bound(had, more, now));
            assert(self@.items =~= with_value(before.items, item_id@, i));
        }
        Ok(())
    }
}

// ---------------------------------------------------------------------------
// Taking files in
// ---------------------------------------------------------------------------

/// `n` in lower-case hexadecimal.
pub open spec fn hexadecimal(n: nat) -> Seq<char>
    decreases n,
{
    if n < 16 {
        seq![json::hex_digit(n as int)]
    } else {
        hexadecimal(n / 16).push(json::hex_digit((n % 16) as int))
    }
}

/// The id for an item, from the time in nanoseconds.
pub open spec fn asset_id(stamp: nat) -> Seq<char> {
    "asset-"@ + hexadecimal(stamp % 0x1_0000_0000) + "-"@ + text::decimal(
        (stamp / 0x1_0000_0000) % 0x1_0000,
    )
}

fn hex_number(n: u64) -> (r: String)
    ensures
        r@ == hexadecimal(n as nat),
    decreases n,
{
    let low: u8 = (n % 16) as u8;
    let last: char = if low < 10 {
        (48u8 + low) as char
    } else {
        (87u8 + low) as char
    };
    if n < 16 {
        let mut out = String::new();
        out.push(last);
        proof {
            assert(out@ =~= seq![json::hex_digit(n as int)]);
        }
        out
    } else {
        let mut out = hex_number(n / 16);
        out.push(last);
        out
    }
}

/// The id for an item, from the time in nanoseconds.
pub fn new_asset_id(stamp: u128) -> (r: String)
    ensures
        r@ == asset_id(stamp as nat),
{
    let low: u64 = (stamp % 0x1_0000_0000) as u64;
    let high: u64 = ((stamp / 0x1_0000_0000) % 0x1_0000) as u64;
    wrap("asset-", hex_number(low).as_str(), "-").concat(number(high).as_str())
}

/// The size of an image that is taken: none where it could not be read or is too large.
pub open spec fn accepted_size(read: Option<(u32, u32)>) -> (u32, u32) {
    match read {
        Some((w, h)) => if w * h > MAX_PIXELS {
            (0, 0)
        } else {
            (w, h)
        },
        None => (0, 0),
    }
}

/// The size of an image that is taken: none where it could not be read or is too large.
pub fn image_dimensions(read: Option<(u32, u32)>) -> (r: (u32, u32))
    ensures
        r == accepted_size(read),
{
    match read {
        Some((w, h)) => {
            proof {
                assert(0 <= w * h <= u32::MAX * u32::MAX) by (nonlinear_arith)
                    requires
                        0 <= w <= u32::MAX,
                        0 <= h <= u32::MAX,
                ;
            }
            if w as u64 * h as u64 > MAX_PIXELS {
                (0, 0)
            } else {
                (w, h)
            }
        },
        None => (0, 0),
    }
}

/// A file: how large it is, where it exists, and its bytes, none where they could not be read.
#[derive(Debug)]
pub struct FileFacts {
    pub path: String,
    pub size: Option<u64>,
    pub bytes: Vec<u8>,
}

/// The item for a file.
pub open spec fn imported(
    path: Seq<char>,
    size: u64,
    dimensions: (u32, u32),
    name: Seq<char>,
    kind: AssetKind,
    categories: Seq<Seq<char>>,
    tags: Seq<Seq<char>>,
    stamp: nat,
    now: u64,
) -> ItemView {
    ItemView {
        id: asset_id(stamp),
        name,
        kind,
        file_path: path,
        categories,
        tags,
        annotations: Seq::empty(),
        color_extraction: None,
        design_system_id: None,
        file_size: size,
        width: dimensions.0,
        height: dimensions.1,
        created_at: now,
        updated_at: now,
    }
}

/// The size of a file that can be taken in; one that does not exist or is too large is refused
/// before anything in it is read.
pub fn accept_file(path: &str, size: Option<u64>) -> (r: Result<u64, AssetError>)
    ensures
        match size {
            None => r matches Err(AssetError::FileNotFound(p)) && p@ == path@,
            Some(s) => if s > MAX_IMAGE_FILE_SIZE {
                r == Err::<u64, AssetError>(AssetError::FileTooLarge(s, MAX_IMAGE_FILE_SIZE))
            } else {
                r == Ok::<u64, AssetError>(s)
            },
        },
{
    match size {
        None => Err(AssetError::FileNotFound(path.to_owned())),
        Some(s) => if s > MAX_IMAGE_FILE_SIZE {
            Err(AssetError::FileTooLarge(s, MAX_IMAGE_FILE_SIZE))
        } else {
            Ok(s)
        },
    }
}

/// Takes a file in and gives the id of the new item. A file that does not exist or is too large is
/// refused. `stamp` is the time in nanoseconds, `now` in seconds.
pub fn import_file(
    library: &mut AssetLibrary,
    file: &FileFacts,
    name: &str,
    kind: AssetKind,
    categories: Vec<String>,
    tags: Vec<String>,
    stamp: u128,
    now: u64,
) -> (r: Result<String, AssetError>)
    requires
        old(library).wf(),
    ensures
        final(library).wf(),
        match file.size {
            None => (r matches Err(AssetError::FileNotFound(path)) && path@ == file.path@)
                && final(library)@ == old(library)@,
            Some(size) => if size > MAX_IMAGE_FILE_SIZE {
                r == Err::<String, AssetError>(AssetError::FileTooLarge(size, MAX_IMAGE_FILE_SIZE))
                    && final(library)@ == old(library)@
            } else {
                (r matches Ok(id) && id@ == asset_id(stamp as nat)) && final(library)@ == with_item(
                    old(library)@,
                    asset_id(stamp as nat),
                    imported(
                        file.path@,
                        size,
                        accepted_size(pictures::header_given(file.path@, file.bytes@)),
                        name@,
                        kind,
                        text::texts(categories@),
                        text::texts(tags@),
                        stamp as nat,
                        now,
                    ),
                )
            },
        },
{
    let size = match accept_file(file.path.as_str(), file.size) {
        Ok(s) => s,
        Err(e) => return Err(e),
    };
    let id = new_asset_id(stamp);
    let (width, height) = image_dimensions_of(file.path.as_str(), &file.bytes);
    let annotations: Vec<Annotation> = Vec::new();
    proof {
        assert(annotation_views(annotations@) =~= Seq::empty());
    }
    library.add(
        AssetItem {
            id: id.clone(),
            name: name.to_owned(),
            kind,
            file_path: file.path.clone(),
            categories,
            tags,
            annotations,
            color_extraction: None,
            design_system_id: None,
            file_size: size,
            width,
            height,
            created_at: now,
            updated_at: now,
        },
    );
    Ok(id)
}

// ---------------------------------------------------------------------------
// Categories
// ---------------------------------------------------------------------------

pub open spec fn category(
    id: Seq<char>,
    name: Seq<char>,
    icon: Seq<char>,
    description: Seq<char>,
) -> CategoryView {
    CategoryView { id, name, parent_id: None, icon, description }
}

/// The categories that a new library has.
pub open spec fn defaults() -> Seq<CategoryView> {
    seq![
        category("cat-reference"@, "参考图"@, "image"@, "设计参考截图、竞品截图、灵感图"@),
        category("cat-icon"@, "图标"@, "star"@, "图标素材库"@),
        category("cat-illustration"@, "插画"@, "palette"@, "插画、装饰素材"@),
        category("cat-brand"@, "品牌"@, "shield"@, "品牌 LOGO、VI 素材"@),
        category("cat-photo"@, "照片"@, "camera"@, "实景照片素材"@),
    ]
}

fn make_category(id: &str, name: &str, icon: &str, description: &str) -> (r: AssetCategory)
    ensures
        r@ == category(id@, name@, icon@, description@),
{
    AssetCategory {
        id: id.to_owned(),
        name: name.to_owned(),
        parent_id: None,
        icon: icon.to_owned(),
        description: description.to_owned(),
    }
}

/// The categories that a new library has.
pub fn default_categories() -> (r: Vec<AssetCategory>)
    ensures
        category_views(r@) == defaults(),
{
    let mut out: Vec<AssetCategory> = Vec::new();
    out.push(
        make_category("cat-reference", "参考图", "image", "设计参考截图、竞品截图、灵感图"),
    );
    out.push(make_category("cat-icon", "图标", "star", "图标素材库"));
    out.push(make_category("cat-illustration", "插画", "palette", "插画、装饰素材"));
    out.push(make_category("cat-brand", "品牌", "shield", "品牌 LOGO、VI 素材"));
    out.push(make_category("cat-photo", "照片", "camera", "实景照片素材"));
    proof {
        assert(category_views(out@) =~= defaults());
    }
    out
}

/// Categories added one after the other, each under its id.
pub open spec fn with_categories(
    have: Seq<(Seq<char>, CategoryView)>,
    more: Seq<CategoryView>,
) -> Seq<(Seq<char>, CategoryView)>
    decreases more.len(),
{
    if more.len() == 0 {
        have
    } else {
        with_value(with_categories(have, more.drop_last()), more.last().id, more.last())
    }
}

/// A library without items that has the usual categories.
pub fn new_library_with_defaults() -> (r: AssetLibrary)
    ensures
        r.wf(),
        r@ == (LibraryView {
            items: Seq::empty(),
            categories: with_categories(Seq::empty(), defaults()),
        }),
{
    let mut lib = AssetLibrary::new();
    let mut rest = default_categories();
    let ghost views = defaults();
    let ghost mut done: int = 0;
    proof {
        assert(views.take(0) =~= Seq::empty());
        assert(views.skip(0) =~= views);
    }
    while rest.len() > 0
        invariant
            lib.wf(),
            0 <= done <= views.len(),
            views == defaults(),
            category_views(rest@) == views.skip(done),
            lib@.items == Seq::<(Seq<char>, ItemView)>::empty(),
            lib@.categories == with_categories(Seq::empty(), views.take(done)),
        decreases rest.len(),
    {
        proof {
            assert(rest@.len() == views.skip(done).len());
            text::lemma_take_step(views, done);
            assert(category_views(rest@)[0] == rest@[0]@);
        }
        let ghost had = rest@;
        let cat = rest.remove(0);
        lib.add_category(cat);
        proof {
            assert(category_views(rest@) =~= category_views(had).skip(1));
            assert(views.skip(done).skip(1) =~= views.skip(done + 1));
            done = done + 1;
        }
    }
    proof {
        assert(rest@.len() == views.skip(done).len());
        text::lemma_take_all(views);
    }
    lib
}

// ---------------------------------------------------------------------------
// Laws
// ---------------------------------------------------------------------------

/// What was put under a key is found there, and what stands under other keys stays.
pub proof fn law_added_item_is_found(
    s: Seq<(Seq<char>, ItemView)>,
    key: Seq<char>,
    i: ItemView,
    other: Seq<char>,
)
    requires
        distinct_keys(s),
    ensures
        value_at(with_value(s, key, i), key) == Some(i),
        other != key ==> value_at(with_value(s, key, i), other) == value_at(s, other),
{
    let r = with_value(s, key, i);
    lemma_key_at(s, key);
    lemma_key_at(s, other);
    lemma_key_at_is(r, key, key_at(s, key));
    if other != key {
        let k = key_at(s, other);
        if k < s.len() {
            lemma_key_at_is(r, other, k);
        } else {
            assert forall|j: int| 0 <= j < r.len() implies (#[trigger] r[j]).0 != other by {
                if j < s.len() {
                    assert(s[j].0 != other);
                }
            }
            lemma_key_at_is(r, other, r.len() as int);
        }
    }
}

/// What was taken out is no longer found, and everything else stays.
pub proof fn law_removed_item_is_gone(
    s: Seq<(Seq<char>, ItemView)>,
    key: Seq<char>,
    other: Seq<char>,
)
    requires
        distinct_keys(s),
    ensures
        value_at(without_key(s, key), key) is None,
        other != key ==> value_at(without_key(s, key), other) == value_at(s, other),
{
    let r = without_key(s, key);
    lemma_key_at(s, key);
    lemma_key_at(s, other);
    let gone = key_at(s, key);
    if has_key(s, key) {
        assert forall|j: int| 0 <= j < r.len() implies (#[trigger] r[j]).0 != key by {
            if j < gone {
                assert(r[j] == s[j]);
            } else {
                assert(r[j] == s[j + 1]);
                assert(s[gone].0 != s[j + 1].0);
            }
        }
        lemma_key_at_is(r, key, r.len() as int);
        if other != key {
            let k = key_at(s, other);
            if k < gone {
                lemma_key_at_is(r, other, k);
            } else if k < s.len() {
                assert(r[k - 1] == s[k]);
                assert forall|j: int| 0 <= j < k - 1 implies (#[trigger] r[j]).0 != other by {
                    if j < gone {
                        assert(r[j] == s[j]);
                    } else {
                        assert(r[j] == s[j + 1]);
                    }
                }
                lemma_key_at_is(r, other, k - 1);
            } else {
                assert forall|j: int| 0 <= j < r.len() implies (#[trigger] r[j]).0 != other by {
                    if j < gone {
                        assert(r[j] == s[j]);
                    } else {
                        assert(r[j] == s[j + 1]);
                    }
                }
                lemma_key_at_is(r, other, r.len() as int);
            }
        }
    }
}

/// What is chosen is exactly what the choice holds of.
pub proof fn law_choice_is_complete(
    s: Seq<(Seq<char>, ItemView)>,
    p: spec_fn(ItemView) -> bool,
    i: ItemView,
)
    ensures
        chosen(s, p).contains(i) <==> p(i) && exists|k: int|
            0 <= k < s.len() && (#[trigger] s[k]).1 == i,
    decreases s.len(),
{
    if s.len() > 0 {
        let front = s.drop_last();
        let last = s.last().1;
        law_choice_is_complete(front, p, i);
        let rest = chosen(front, p);
        if chosen(s, p).contains(i) {
            let k = choose|k: int| 0 <= k < chosen(s, p).len() && chosen(s, p)[k] == i;
            if k < rest.len() {
                assert(rest[k] == i);
                let m = choose|m: int| 0 <= m < front.len() && (#[trigger] front[m]).1 == i;
                assert(s[m].1 == i);
            } else {
                assert(s[s.len() - 1].1 == i);
            }
        }
        if p(i) && exists|k: int| 0 <= k < s.len() && (#[trigger] s[k]).1 == i {
            let k = choose|k: int| 0 <= k < s.len() && (#[trigger] s[k]).1 == i;
            if k < front.len() {
                assert(front[k].1 == i);
                let m = choose|m: int| 0 <= m < rest.len() && rest[m] == i;
                assert(chosen(s, p)[m] == i);
            } else {
                assert(chosen(s, p)[rest.len() as int] == i);
            }
        }
    }
}

/// A value put under a key is found there, and what stands under other keys stays.
proof fn lemma_with_value_found<V>(s: Seq<(Seq<char>, V)>, key: Seq<char>, v: V, other: Seq<char>)
    ensures
        value_at(with_value(s, key, v), key) == Some(v),
        other != key ==> value_at(with_value(s, key, v), other) == value_at(s, other),
{
    let r = with_value(s, key, v);
    lemma_key_at(s, key);
    lemma_key_at(s, other);
    lemma_key_at_is(r, key, key_at(s, key));
    if other != key {
        let k = key_at(s, other);
        if k < s.len() {
            assert forall|j: int| 0 <= j < k implies (#[trigger] r[j]).0 != other by {
                assert(s[j].0 != other);
            }
            lemma_key_at_is(r, other, k);
        } else {
            assert forall|j: int| 0 <= j < r.len() implies (#[trigger] r[j]).0 != other by {
                if j < s.len() {
                    assert(s[j].0 != other);
                }
            }
            lemma_key_at_is(r, other, r.len() as int);
        }
    }
}

/// A binding added last is found under its name and leaves the others as they are; with nothing
/// added nothing changes.
pub proof fn law_last_binding_counts(
    have: Seq<(Seq<char>, Seq<char>)>,
    more: Seq<(Seq<char>, Seq<char>)>,
    name: Seq<char>,
    token: Seq<char>,
    other: Seq<char>,
)
    ensures
        ({
            let all = bindings_with(have, more.push((name, token)));
            &&& value_at(all, name) == Some(token)
            &&& other != name ==> value_at(all, other) == value_at(bindings_with(have, more), other)
        }),
        bindings_with(have, Seq::empty()) == have,
{
    assert(more.push((name, token)).drop_last() =~= more);
    lemma_with_value_found(bindings_with(have, more), name, token, other);
}

/// An item answers its own name, each of its tags and the name of each of its categories, and
/// every item answers an empty query.
pub proof fn law_item_answers_its_own_words(
    cs: Seq<(Seq<char>, CategoryView)>,
    i: ItemView,
    k: int,
)
    ensures
        answers(cs, i, i.name),
        0 <= k < i.tags.len() ==> answers(cs, i, i.tags[k]),
        0 <= k < i.categories.len() ==> (value_at(cs, i.categories[k]) matches Some(c) ==> answers(
            cs,
            i,
            c.name,
        )),
        forall|q: Seq<char>| text::lowercase(q).len() == 0 ==> #[trigger] answers(cs, i, q),
{
    text::lemma_occurs_itself(text::lowercase(i.name));
    if 0 <= k < i.tags.len() {
        text::lemma_occurs_itself(text::lowercase(i.tags[k]));
    }
    if 0 <= k < i.categories.len() {
        if let Some(c) = value_at(cs, i.categories[k]) {
            text::lemma_occurs_itself(text::lowercase(c.name));
            assert(category_holds(cs, i, text::lowercase(c.name)));
        }
    }
}

/// An item answers nothing that stands in none of these, and the case of a query does not matter.
pub proof fn law_item_answers_nothing_else(
    cs: Seq<(Seq<char>, CategoryView)>,
    i: ItemView,
    q: Seq<char>,
    same: Seq<char>,
)
    requires
        text::lowercase(q).len() > 0,
        !text::occurs(text::lowercase(i.name), text::lowercase(q)),
        forall|k: int|
            0 <= k < i.tags.len() ==> !text::occurs(
                text::lowercase(#[trigger] i.tags[k]),
                text::lowercase(q),
            ),
        forall|k: int|
            0 <= k < i.categories.len() ==> (value_at(cs, #[trigger] i.categories[k]) matches Some(c)
                ==> !text::occurs(text::lowercase(c.name), text::lowercase(q))),
        text::lowercase(same) == text::lowercase(q),
    ensures
        !answers(cs, i, q),
        !answers(cs, i, same),
{
}

/// An item has its own tags; one more tag is asked for on top of the others.
pub proof fn law_all_tags_are_asked_for(i: ItemView, tags: Seq<Seq<char>>, tag: Seq<char>, k: int)
    ensures
        has_all_tags(i, tags.push(tag)) <==> has_all_tags(i, tags) && has_all_tags(i, seq![tag]),
        has_all_tags(i, Seq::empty()),
        0 <= k < i.tags.len() ==> has_all_tags(i, seq![i.tags[k]]),
{
    let more = tags.push(tag);
    let one = seq![tag];
    if has_all_tags(i, more) {
        assert forall|j: int| 0 <= j < tags.len() implies templates::has_tag(
            i.tags,
            #[trigger] tags[j],
        ) by {
            assert(more[j] == tags[j]);
        }
        assert(more[tags.len() as int] == tag);
    }
    if has_all_tags(i, one) {
        assert(one[0] == tag);
    }
    if 0 <= k < i.tags.len() {
        assert(templates::has_tag(i.tags, i.tags[k]));
    }
}

/// A mark is put behind the others, at the given time, and nothing else of the item changes.
pub proof fn law_mark_is_put_last(i: ItemView, a: AnnotationView, now: u64)
    ensures
        ({
            let r = annotated(i, a, now);
            &&& r.annotations.len() == i.annotations.len() + 1
            &&& r.annotations.last() == a
            &&& r.updated_at == now
            &&& i == (ItemView {
                annotations: r.annotations.drop_last(),
                updated_at: i.updated_at,
                ..r
            })
        }),
{
    let r = annotated(i, a, now);
    assert(r.annotations.drop_last() =~= i.annotations);
}

/// Colors take the place of those before, a design system that of the one before, each at the given
/// time and with the rest of the item kept.
pub proof fn law_bound_item_keeps_the_rest(
    i: ItemView,
    e: ExtractionView,
    system: Seq<char>,
    now: u64,
)
    ensures
        ({
            let colored = extracted(i, e, now);
            &&& colored.color_extraction == Some(e) && colored.updated_at == now
            &&& i == (ItemView {
                color_extraction: i.color_extraction,
                updated_at: i.updated_at,
                ..colored
            })
        }),
        ({
            let tied = bound(i, system, now);
            &&& tied.design_system_id == Some(system) && tied.updated_at == now
            &&& i == (ItemView {
                design_system_id: i.design_system_id,
                updated_at: i.updated_at,
                ..tied
            })
        }),
{
}

/// Tokens are bound to the colors of an item where it has any; the colors themselves stay, and an
/// item without colors is left as it is.
pub proof fn law_tokens_are_bound_to_colors(
    i: ItemView,
    more: Seq<(Seq<char>, Seq<char>)>,
    now: u64,
)
    ensures
        ({
            let r = tokens_bound(i, more, now);
            match i.color_extraction {
                None => r == i,
                Some(e) => r.updated_at == now && r.color_extraction is Some
                    && r.color_extraction->0.bound_tokens == bindings_with(e.bound_tokens, more) && e
                    == (ExtractionView {
                    bound_tokens: e.bound_tokens,
                    ..r.color_extraction->0
                }) && i == (ItemView {
                    color_extraction: i.color_extraction,
                    updated_at: i.updated_at,
                    ..r
                }),
            }
        }),
{
}

/// A changed item stands where it stood, and the other items and the categories stay.
pub proof fn law_changed_item_stays_in_place(
    l: LibraryView,
    key: Seq<char>,
    i: ItemView,
    other: Seq<char>,
)
    requires
        has_key(l.items, key),
    ensures
        ({
            let r = with_item(l, key, i);
            &&& r.items.len() == l.items.len()
            &&& r.categories == l.categories
            &&& value_at(r.items, key) == Some(i)
            &&& other != key ==> value_at(r.items, other) == value_at(l.items, other)
        }),
{
    lemma_key_at(l.items, key);
    lemma_with_value_found(l.items, key, i, other);
}

/// The number that hexadecimal digits stand for.
pub open spec fn hexadecimal_value(s: Seq<char>) -> int
    decreases s.len(),
{
    if s.len() == 0 {
        0
    } else {
        16 * hexadecimal_value(s.drop_last()) + css::hex_value(s.last())
    }
}

/// A number in hexadecimal is read as the number, and holds hexadecimal digits only.
pub proof fn law_hexadecimal_is_read(n: nat)
    ensures
        hexadecimal_value(hexadecimal(n)) == n,
        forall|i: int| 0 <= i < hexadecimal(n).len() ==> css::is_hex(#[trigger] hexadecimal(n)[i]),
        hexadecimal(n).len() > 0,
    decreases n,
{
    let s = hexadecimal(n);
    if n < 16 {
        assert(s.drop_last() =~= Seq::<char>::empty());
        assert(hexadecimal_value(Seq::<char>::empty()) == 0);
    } else {
        law_hexadecimal_is_read(n / 16);
        assert(s.drop_last() =~= hexadecimal(n / 16));
        assert forall|i: int| 0 <= i < s.len() implies css::is_hex(#[trigger] s[i]) by {
            if i < s.len() - 1 {
                assert(s[i] == hexadecimal(n / 16)[i]);
            }
        }
    }
}

/// An id is three words: that it is an asset's, the low part of the time in hexadecimal and the
/// next part in decimal. So items taken in at different times have different ids, until the
/// forty-eight bits of time that count come round.
pub proof fn law_ids_tell_times_apart(a: nat, b: nat)
    ensures
        text::split_on(asset_id(a), '-') == seq![
            "asset"@,
            hexadecimal(a % 0x1_0000_0000),
            text::decimal((a / 0x1_0000_0000) % 0x1_0000),
        ],
        asset_id(a) == asset_id(b) ==> a % 0x1_0000_0000_0000 == b % 0x1_0000_0000_0000,
{
    lemma_id_words(a);
    lemma_id_words(b);
    if asset_id(a) == asset_id(b) {
        let x = text::split_on(asset_id(a), '-');
        let y = text::split_on(asset_id(b), '-');
        assert(x[1] == y[1] && x[2] == y[2]);
        law_hexadecimal_is_read(a % 0x1_0000_0000);
        law_hexadecimal_is_read(b % 0x1_0000_0000);
        text::law_decimal_is_read((a / 0x1_0000_0000) % 0x1_0000);
        text::law_decimal_is_read((b / 0x1_0000_0000) % 0x1_0000);
        assert(a % 0x1_0000_0000 == b % 0x1_0000_0000);
        assert((a / 0x1_0000_0000) % 0x1_0000 == (b / 0x1_0000_0000) % 0x1_0000);
    }
}

proof fn lemma_id_words(a: nat)
    ensures
        text::split_on(asset_id(a), '-') == seq![
            "asset"@,
            hexadecimal(a % 0x1_0000_0000),
            text::decimal((a / 0x1_0000_0000) % 0x1_0000),
        ],
{
    reveal_strlit("asset");
    reveal_strlit("asset-");
    reveal_strlit("-");
    let low = hexadecimal(a % 0x1_0000_0000);
    let high = text::decimal((a / 0x1_0000_0000) % 0x1_0000);
    law_hexadecimal_is_read(a % 0x1_0000_0000);
    text::law_decimal_is_read((a / 0x1_0000_0000) % 0x1_0000);
    assert(!low.contains('-')) by {
        if low.contains('-') {
            let i = choose|i: int| 0 <= i < low.len() && low[i] == '-';
            assert(css::is_hex(low[i]));
        }
    }
    assert(!high.contains('-')) by {
        if high.contains('-') {
            let i = choose|i: int| 0 <= i < high.len() && high[i] == '-';
            assert('0' <= high[i]);
        }
    }
    let nothing = Seq::<char>::empty();
    assert(text::split_on(nothing, '-') =~= seq![nothing]);
    assert(!"asset"@.contains('-'));
    text::lemma_split_tail(nothing, "asset"@, '-');
    assert(nothing + "asset"@ =~= "asset"@);
    assert(text::split_on("asset"@, '-') =~= seq!["asset"@]);
    text::lemma_split_more("asset"@, low, '-');
    text::lemma_split_more("asset"@ + seq!['-'] + low, high, '-');
    assert("asset-"@ + low + "-"@ + high =~= "asset"@ + seq!['-'] + low + seq!['-'] + high);
    assert(seq!["asset"@].push(low).push(high) =~= seq!["asset"@, low, high]);
}

/// An image of at most sixty-four million pixels keeps its width and its height; a larger one has
/// none.
pub proof fn law_image_keeps_its_size(w: u32, h: u32)
    ensures
        w * h <= 64_000_000 <==> accepted_size(Some((w, h))) == (w, h),
        w * h > 64_000_000 ==> accepted_size(Some((w, h))) == (0u32, 0u32),
        accepted_size(None) == (0u32, 0u32),
{
    if w * h > 64_000_000 {
        assert(w > 0) by (nonlinear_arith)
            requires
                w * h > 64_000_000,
                w >= 0,
                h >= 0,
        ;
    }
}

/// A new item says of its file what was found there, and has no marks, colors or design system yet.
pub proof fn law_new_item_says_what_was_found(
    path: Seq<char>,
    size: u64,
    width: u32,
    height: u32,
    name: Seq<char>,
    kind: AssetKind,
    categories: Seq<Seq<char>>,
    tags: Seq<Seq<char>>,
    stamp: nat,
    now: u64,
)
    ensures
        ({
            let i = imported(
                path,
                size,
                (width, height),
                name,
                kind,
                categories,
                tags,
                stamp,
                now,
            );
            &&& i.id == asset_id(stamp)
            &&& i.name == name && i.kind == kind
            &&& i.file_path == path && i.file_size == size
            &&& i.width == width && i.height == height
            &&& i.categories == categories && i.tags == tags
            &&& i.annotations.len() == 0
            &&& i.color_extraction is None && i.design_system_id is None
            &&& i.created_at == now && i.updated_at == now
        }),
{
}

/// Each of the usual categories stands under its own id, and none takes the place of another.
pub proof fn law_usual_categories_are_all_there(i: int, j: int)
    requires
        0 <= i < defaults().len(),
        0 <= j < defaults().len(),
    ensures
        i != j ==> defaults()[i].id != defaults()[j].id,
        defaults()[i].parent_id is None,
        value_at(with_categories(Seq::empty(), defaults()), defaults()[i].id) == Some(defaults()[i]),
        with_categories(Seq::empty(), defaults()).len() == defaults().len(),
{
    lemma_usual_ids(i, j);
    lemma_usual_found(defaults().len() as int, i);
    assert(defaults().take(defaults().len() as int) =~= defaults());
}

proof fn lemma_usual_ids(i: int, j: int)
    requires
        0 <= i < defaults().len(),
        0 <= j < defaults().len(),
    ensures
        i != j ==> defaults()[i].id != defaults()[j].id,
{
    reveal_strlit("cat-reference");
    reveal_strlit("cat-icon");
    reveal_strlit("cat-illustration");
    reveal_strlit("cat-brand");
    reveal_strlit("cat-photo");
    assert("cat-reference"@.len() == 13 && "cat-icon"@.len() == 8);
    assert("cat-illustration"@.len() == 16 && "cat-brand"@.len() == 9 && "cat-photo"@.len() == 9);
    assert("cat-brand"@[4] != "cat-photo"@[4]);
}

proof fn lemma_usual_found(n: int, i: int)
    requires
        0 <= n <= defaults().len(),
        0 <= i < defaults().len(),
    ensures
        ({
            let got = with_categories(Seq::empty(), defaults().take(n));
            &&& got.len() == n
            &&& i < n ==> value_at(got, defaults()[i].id) == Some(defaults()[i])
            &&& i >= n ==> value_at(got, defaults()[i].id) is None
        }),
    decreases n,
{
    if n > 0 {
        let front = defaults().take(n - 1);
        assert(defaults().take(n).drop_last() =~= front);
        lemma_usual_found(n - 1, i);
        lemma_usual_found(n - 1, n - 1);
        lemma_usual_ids(i, n - 1);
        let last = defaults()[n - 1];
        lemma_with_value_found(
            with_categories(Seq::empty(), front),
            last.id,
            last,
            defaults()[i].id,
        );
    } else {
        let got = with_categories(Seq::empty(), defaults().take(0));
        assert(got =~= Seq::empty());
        lemma_key_at(got, defaults()[i].id);
    }
}

/// Items are chosen in the order in which they stand.
pub proof fn law_chosen_items_keep_their_order(
    a: Seq<(Seq<char>, ItemView)>,
    b: Seq<(Seq<char>, ItemView)>,
    p: spec_fn(ItemView) -> bool,
)
    ensures
        chosen(a + b, p) == chosen(a, p) + chosen(b, p),
    decreases b.len(),
{
    if b.len() == 0 {
        assert(a + b =~= a);
        assert(chosen(a, p) + chosen(b, p) =~= chosen(a, p));
    } else {
        law_chosen_items_keep_their_order(a, b.drop_last(), p);
        assert((a + b).drop_last() =~= a + b.drop_last());
        assert((a + b).last() == b.last());
        assert(chosen(a + b, p) =~= chosen(a, p) + chosen(b, p));
    }
}

} // verus!
