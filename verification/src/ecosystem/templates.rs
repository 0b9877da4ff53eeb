//! Templates for designs: the built-in ones, and searching.

use vstd::prelude::*;
use vstd::string::*;

use crate::text;
use crate::text::{clone_texts, contains, same, to_lowercase};

verus! {

/// A template.
#[derive(Debug)]
pub struct DesignTemplate {
    pub id: String,
    pub name: String,
    pub tags: Vec<String>,
    pub category: String,
    pub document_json: String,
    pub created_at: u64,
}

/// What a `DesignTemplate` holds.
#[verifier::ext_equal]
pub struct TemplateView {
    pub id: Seq<char>,
    pub name: Seq<char>,
    pub tags: Seq<Seq<char>>,
    pub category: Seq<char>,
    pub document_json: Seq<char>,
    pub created_at: u64,
}

impl DesignTemplate {
    pub open spec fn view(&self) -> TemplateView {
        TemplateView {
            id: self.id@,
            name: self.name@,
            tags: text::texts(self.tags@),
            category: self.category@,
            document_json: self.document_json@,
            created_at: self.created_at,
        }
    }
}

pub open spec fn template_views(s: Seq<DesignTemplate>) -> Seq<TemplateView> {
    s.map_values(|t: DesignTemplate| t@)
}

impl Clone for DesignTemplate {
    fn clone(&self) -> (r: Self)
        ensures
            r@ == self@,
    {
        DesignTemplate {
            id: self.id.clone(),
            name: self.name.clone(),
            tags: clone_texts(&self.tags),
            category: self.category.clone(),
            document_json: self.document_json.clone(),
            created_at: self.created_at,
        }
    }
}

/// The file of a template.
pub fn template_file_name(id: &str) -> (r: String)
    ensures
        r@ == id@ + ".json"@,
{
    id.to_owned().concat(".json")
}

// ---------------------------------------------------------------------------
// Order
// ---------------------------------------------------------------------------

/// A list in which the newest come first, with one more template: behind all that are not older.
pub open spec fn with_template(ts: Seq<TemplateView>, t: TemplateView) -> Seq<TemplateView>
    decreases ts.len(),
{
    if ts.len() == 0 || ts.last().created_at >= t.created_at {
        ts.push(t)
    } else {
        with_template(ts.drop_last(), t).push(ts.last())
    }
}

/// The templates with the newest first; those of the same age keep their order.
pub open spec fn newest_first(ts: Seq<TemplateView>) -> Seq<TemplateView>
    decreases ts.len(),
{
    if ts.len() == 0 {
        Seq::empty()
    } else {
        with_template(newest_first(ts.drop_last()), ts.last())
    }
}

/// No template comes before a newer one.
pub open spec fn is_newest_first(ts: Seq<TemplateView>) -> bool {
    forall|i: int, j: int|
        0 <= i < j < ts.len() ==> (#[trigger] ts[i]).created_at >= (#[trigger] ts[j]).created_at
}

proof fn lemma_with_template(ts: Seq<TemplateView>, t: TemplateView)
    requires
        is_newest_first(ts),
    ensures
        is_newest_first(with_template(ts, t)),
        with_template(ts, t).to_multiset() == ts.to_multiset().insert(t),
        with_template(ts, t).len() == ts.len() + 1,
        forall|i: int|
            0 <= i < ts.len() + 1 ==> (#[trigger] with_template(ts, t)[i]).created_at
                <= t.created_at || ts.contains(with_template(ts, t)[i]),
    decreases ts.len(),
{
    broadcast use vstd::seq_lib::group_to_multiset_ensures;

    let r = with_template(ts, t);
    if ts.len() == 0 || ts.last().created_at >= t.created_at {
        assert(r == ts.push(t));
        assert forall|i: int| 0 <= i < ts.len() + 1 implies (#[trigger] r[i]).created_at
            <= t.created_at || ts.contains(r[i]) by {
            if i < ts.len() {
                assert(ts[i] == r[i]);
            }
        }
        assert forall|i: int, j: int| 0 <= i < j < r.len() implies (#[trigger] r[i]).created_at >= (
        #[trigger] r[j]).created_at by {
            if j == ts.len() {
                assert(ts[i].created_at >= ts.last().created_at);
            }
        }
    } else {
        let front = ts.drop_last();
        let inner = with_template(front, t);
        lemma_with_template(front, t);
        assert(r == inner.push(ts.last()));
        assert(ts =~= front.push(ts.last()));
        assert forall|i: int| 0 <= i < inner.len() implies (#[trigger] inner[i]).created_at
            >= ts.last().created_at by {
            if inner[i].created_at <= t.created_at && !front.contains(inner[i]) {
                lemma_new_one(front, t, i);
            } else if front.contains(inner[i]) {
                let k = choose|k: int| 0 <= k < front.len() && front[k] == inner[i];
                assert(ts[k].created_at >= ts.last().created_at);
            }
        }
        assert forall|i: int| 0 <= i < ts.len() + 1 implies (#[trigger] r[i]).created_at
            <= t.created_at || ts.contains(r[i]) by {
            if i < inner.len() {
                assert(r[i] == inner[i]);
                if front.contains(inner[i]) {
                    let k = choose|k: int| 0 <= k < front.len() && front[k] == inner[i];
                    assert(ts[k] == r[i]);
                }
            }
        }
        assert(r.to_multiset() =~= ts.to_multiset().insert(t));
    }
}

/// What is in the longer list and was not in the shorter one is the new template.
proof fn lemma_new_one(ts: Seq<TemplateView>, t: TemplateView, i: int)
    requires
        0 <= i < with_template(ts, t).len(),
        !ts.contains(with_template(ts, t)[i]),
    ensures
        with_template(ts, t)[i] == t,
    decreases ts.len(),
{
    let r = with_template(ts, t);
    if ts.len() == 0 || ts.last().created_at >= t.created_at {
        if i < ts.len() {
            assert(ts[i] == r[i]);
        }
    } else {
        let inner = with_template(ts.drop_last(), t);
        if i < inner.len() {
            assert(r[i] == inner[i]);
            if ts.drop_last().contains(inner[i]) {
                let k = choose|k: int|
                    0 <= k < ts.drop_last().len() && ts.drop_last()[k] == inner[i];
                assert(ts[k] == r[i]);
            }
            lemma_new_one(ts.drop_last(), t, i);
        } else {
            assert(r[i] == ts.last());
        }
    }
}

fn insert_template(ts: &mut Vec<DesignTemplate>, t: DesignTemplate)
    ensures
        template_views(final(ts)@) == with_template(template_views(old(ts)@), t@),
{
    let ghost views = template_views(ts@);
    let ghost new = t@;
    let mut at: usize = ts.len();
    let ghost behind = Seq::<TemplateView>::empty();
    proof {
        assert(views.take(views.len() as int) =~= views);
        assert(with_template(views, new) + behind =~= with_template(views, new));
    }
    while at > 0 && ts[at - 1].created_at < t.created_at
        invariant
            at <= ts@.len(),
            views == template_views(ts@),
            new == t@,
            behind == views.skip(at as int),
            with_template(views, new) == with_template(views.take(at as int), new) + behind,
        decreases at,
    {
        proof {
            let front = views.take(at as int);
            assert(front.drop_last() =~= views.take(at - 1));
            assert(front.last() == ts@[at - 1]@);
            let inner = with_template(views.take(at - 1), new);
            assert(inner.push(front.last()) + behind =~= inner + views.skip(at - 1));
            behind = views.skip(at - 1);
        }
        at = at - 1;
    }
    proof {
        let front = views.take(at as int);
        if at > 0 {
            assert(front.last() == ts@[at - 1]@);
        }
        assert(with_template(front, new) == front.push(new));
    }
    ts.insert(at, t);
    proof {
        assert(template_views(ts@) =~= views.take(at as int).push(new) + behind);
    }
}

/// The templates with the newest first; those of the same age keep their order.
pub fn sort_newest_first(ts: Vec<DesignTemplate>) -> (r: Vec<DesignTemplate>)
    ensures
        template_views(r@) == newest_first(template_views(ts@)),
{
    let ghost views = template_views(ts@);
    let mut out: Vec<DesignTemplate> = Vec::new();
    proof {
        assert(template_views(out@) =~= Seq::empty());
    }
    let mut i: usize = 0;
    while i < ts.len()
        invariant
            i <= ts@.len(),
            views == template_views(ts@),
            template_views(out@) == newest_first(views.take(i as int)),
        decreases ts.len() - i,
    {
        proof {
            text::lemma_take_step(views, i as int);
        }
        insert_template(&mut out, ts[i].clone());
        i = i + 1;
    }
    proof {
        text::lemma_take_all(views);
    }
    out
}

// ---------------------------------------------------------------------------
// Search
// ---------------------------------------------------------------------------

/// One of the texts holds the words, whatever their case.
pub open spec fn any_holds(ts: Seq<Seq<char>>, words: Seq<char>) -> bool {
    exists|i: int| 0 <= i < ts.len() && text::occurs(text::lowercase(#[trigger] ts[i]), words)
}

/// The template answers the query: its name, one of its tags or its category holds the words,
/// whatever their case. An empty query is answered by all.
pub open spec fn answers(t: TemplateView, query: Seq<char>) -> bool {
    let words = text::lowercase(query);
    words.len() == 0 || text::occurs(text::lowercase(t.name), words) || any_holds(t.tags, words)
        || text::occurs(text::lowercase(t.category), words)
}

/// One of the tags is the given one, whatever its case.
pub open spec fn has_tag(tags: Seq<Seq<char>>, tag: Seq<char>) -> bool {
    exists|i: int|
        0 <= i < tags.len() && text::lowercase(#[trigger] tags[i]) == text::lowercase(tag)
}

/// The template has all the tags.
pub open spec fn has_all_tags(t: TemplateView, tags: Seq<Seq<char>>) -> bool {
    forall|i: int| 0 <= i < tags.len() ==> has_tag(t.tags, #[trigger] tags[i])
}

/// The templates that answer the query, in their order.
pub open spec fn found(ts: Seq<TemplateView>, query: Seq<char>) -> Seq<TemplateView> {
    ts.filter(|t: TemplateView| answers(t, query))
}

/// The templates that have all the tags, in their order.
pub open spec fn tagged(ts: Seq<TemplateView>, tags: Seq<Seq<char>>) -> Seq<TemplateView> {
    ts.filter(|t: TemplateView| has_all_tags(t, tags))
}

pub(crate) fn any_tag_holds(tags: &Vec<String>, words: &str) -> (r: bool)
    ensures
        r == any_holds(text::texts(tags@), words@),
{
    let ghost views = text::texts(tags@);
    let mut i: usize = 0;
    while i < tags.len()
        invariant
            i <= tags@.len(),
            views == text::texts(tags@),
            forall|k: int|
                0 <= k < i ==> !text::occurs(text::lowercase(#[trigger] views[k]), words@),
        decreases tags.len() - i,
    {
        proof {
            assert(views[i as int] == tags@[i as int]@);
        }
        if contains(to_lowercase(tags[i].as_str()).as_str(), words) {
            return true;
        }
        i = i + 1;
    }
    false
}

fn matches_query(t: &DesignTemplate, query: &str) -> (r: bool)
    ensures
        r == answers(t@, query@),
{
    let words = to_lowercase(query);
    let w = words.as_str();
    w.is_empty() || contains(to_lowercase(t.name.as_str()).as_str(), w) || any_tag_holds(
        &t.tags,
        w,
    ) || contains(to_lowercase(t.category.as_str()).as_str(), w)
}

pub(crate) fn holds_tag(tags: &Vec<String>, tag: &str) -> (r: bool)
    ensures
        r == has_tag(text::texts(tags@), tag@),
{
    let wanted = to_lowercase(tag);
    let ghost views = text::texts(tags@);
    let mut i: usize = 0;
    while i < tags.len()
        invariant
            i <= tags@.len(),
            views == text::texts(tags@),
            wanted@ == text::lowercase(tag@),
            forall|k: int| 0 <= k < i ==> text::lowercase(#[trigger] views[k]) != wanted@,
        decreases tags.len() - i,
    {
        proof {
            assert(views[i as int] == tags@[i as int]@);
        }
        if same(to_lowercase(tags[i].as_str()).as_str(), wanted.as_str()) {
            return true;
        }
        i = i + 1;
    }
    false
}

fn holds_all_tags(t: &DesignTemplate, tags: &Vec<String>) -> (r: bool)
    ensures
        r == has_all_tags(t@, text::texts(tags@)),
{
    let ghost views = text::texts(tags@);
    let mut i: usize = 0;
    while i < tags.len()
        invariant
            i <= tags@.len(),
            views == text::texts(tags@),
            forall|k: int| 0 <= k < i ==> has_tag(t@.tags, #[trigger] views[k]),
        decreases tags.len() - i,
    {
        proof {
            assert(views[i as int] == tags@[i as int]@);
        }
        if !holds_tag(&t.tags, tags[i].as_str()) {
            return false;
        }
        i = i + 1;
    }
    true
}

// ---------------------------------------------------------------------------
// The store
// ---------------------------------------------------------------------------

/// The templates in a directory, kept as long as the directory does not change, and where the
/// messages of this program go.
#[derive(Debug)]
pub struct EcosystemLink {
    base_dir: String,
    read_at: u64,
    templates: Vec<DesignTemplate>,
}

/// What an `EcosystemLink` holds. `read_at` is the time of the last change to the directory when
/// the templates were read, zero where nothing was read or the time is not known.
#[verifier::ext_equal]
pub struct LinkView {
    pub base_dir: Seq<char>,
    pub read_at: u64,
    pub templates: Seq<TemplateView>,
}

/// The link with nothing read.
pub open spec fn forgotten(link: LinkView) -> LinkView {
    LinkView { read_at: 0, templates: Seq::empty(), ..link }
}

/// The link with what was read from the directory.
pub open spec fn refreshed(link: LinkView, changed: u64, ts: Seq<TemplateView>) -> LinkView {
    LinkView { base_dir: link.base_dir, read_at: changed, templates: newest_first(ts) }
}

/// A directory with this time of change has to be read; one with an unknown time always has.
pub open spec fn must_read(link: LinkView, changed: u64) -> bool {
    changed == 0 || changed != link.read_at
}

impl EcosystemLink {
    pub closed spec fn view(&self) -> LinkView {
        LinkView {
            base_dir: self.base_dir@,
            read_at: self.read_at,
            templates: template_views(self.templates@),
        }
    }

    /// A link below a directory, with nothing read.
    pub fn new(base_dir: &str) -> (r: EcosystemLink)
        ensures
            r@ == (LinkView { base_dir: base_dir@, read_at: 0, templates: Seq::empty() }),
    {
        let r = EcosystemLink { base_dir: base_dir.to_owned(), read_at: 0, templates: Vec::new() };
        proof {
            assert(r@.templates =~= Seq::empty());
        }
        r
    }

    /// The directory.
    pub fn base_dir(&self) -> (r: String)
        ensures
            r@ == self@.base_dir,
    {
        self.base_dir.clone()
    }

    /// Whether the directory has to be read again. `changed` is the time of its last change, zero
    /// where that is not known, and nothing where there is no directory: then nothing is kept.
    pub fn needs_reading(&mut self, changed: Option<u64>) -> (r: bool)
        ensures
            match changed {
                None => !r && final(self)@ == forgotten(old(self)@),
                Some(time) => r == must_read(old(self)@, time) && final(self)@ == old(self)@,
            },
    {
        match changed {
            None => {
                self.forget();
                false
            },
            Some(time) => time == 0 || time != self.read_at,
        }
    }

    /// Keeps what was read from the directory, the newest first.
    pub fn keep(&mut self, changed: u64, templates: Vec<DesignTemplate>)
        ensures
            final(self)@ == refreshed(old(self)@, changed, template_views(templates@)),
    {
        self.read_at = changed;
        self.templates = sort_newest_first(templates);
    }

    /// Forgets what was read, as after a template was saved.
    pub fn forget(&mut self)
        ensures
            final(self)@ == forgotten(old(self)@),
    {
        self.read_at = 0;
        self.templates = Vec::new();
        proof {
            assert(self@.templates =~= Seq::empty());
        }
    }

    /// The templates that answer the query.
    pub fn search_templates(&self, query: &str) -> (r: Vec<DesignTemplate>)
        ensures
            template_views(r@) == found(self@.templates, query@),
    {
        let ghost views = self@.templates;
        let mut out: Vec<DesignTemplate> = Vec::new();
        proof {
            reveal(Seq::filter);
            assert(template_views(out@) =~= found(views.take(0), query@));
        }
        let mut i: usize = 0;
        while i < self.templates.len()
            invariant
                i <= self.templates@.len(),
                views == template_views(self.templates@),
                template_views(out@) == found(views.take(i as int), query@),
            decreases self.templates.len() - i,
        {
            let ghost so_far = template_views(out@);
            proof {
                reveal(Seq::filter);
                text::lemma_take_step(views, i as int);
                assert(views[i as int] == self.templates@[i as int]@);
            }
            if matches_query(&self.templates[i], query) {
                out.push(self.templates[i].clone());
                proof {
                    assert(template_views(out@) =~= so_far.push(views[i as int]));
                }
            }
            i = i + 1;
        }
        proof {
            text::lemma_take_all(views);
        }
        out
    }

    /// The templates that have all the tags.
    pub fn search_templates_by_tags(&self, tags: &Vec<String>) -> (r: Vec<DesignTemplate>)
        ensures
            template_views(r@) == tagged(self@.templates, text::texts(tags@)),
    {
        let ghost views = self@.templates;
        let ghost wanted = text::texts(tags@);
        let mut out: Vec<DesignTemplate> = Vec::new();
        proof {
            reveal(Seq::filter);
            assert(template_views(out@) =~= tagged(views.take(0), wanted));
        }
        let mut i: usize = 0;
        while i < self.templates.len()
            invariant
                i <= self.templates@.len(),
                views == template_views(self.templates@),
                wanted == text::texts(tags@),
                template_views(out@) == tagged(views.take(i as int), wanted),
            decreases self.templates.len() - i,
        {
            let ghost so_far = template_views(out@);
            proof {
                reveal(Seq::filter);
                text::lemma_take_step(views, i as int);
                assert(views[i as int] == self.templates@[i as int]@);
            }
            if holds_all_tags(&self.templates[i], tags) {
                out.push(self.templates[i].clone());
                proof {
                    assert(template_views(out@) =~= so_far.push(views[i as int]));
                }
            }
            i = i + 1;
        }
        proof {
            text::lemma_take_all(views);
        }
        out
    }
}

// ---------------------------------------------------------------------------
// Built-in templates
// ---------------------------------------------------------------------------

/// The drawing of a mobile application.
pub const MOBILE_DOCUMENT: &'static str =
    "{\"pages\":[{\"height\":844.0,\"id\":\"home\",\"name\":\"首页\",\"nodes\":[{\"fill\":\"#FFFFFF\",\"h\":88.0,\"id\":\"nav\",\"kind\":\"rect\",\"stroke\":\"#E5E5E5\",\"w\":390.0,\"x\":0.0,\"y\":0.0},{\"fill\":\"#000000\",\"h\":32.0,\"id\":\"title\",\"kind\":\"text\",\"text\":\"首页\",\"w\":200.0,\"x\":16.0,\"y\":44.0},{\"fill\":\"#F5F5F5\",\"h\":180.0,\"id\":\"banner\",\"kind\":\"rect\",\"stroke\":\"#E0E0E0\",\"w\":358.0,\"x\":16.0,\"y\":104.0},{\"fill\":\"#FFFFFF\",\"h\":100.0,\"id\":\"card1\",\"kind\":\"rect\",\"stroke\":\"#EEEEEE\",\"w\":358.0,\"x\":16.0,\"y\":300.0},{\"fill\":\"#FFFFFF\",\"h\":100.0,\"id\":\"card2\",\"kind\":\"rect\",\"stroke\":\"#EEEEEE\",\"w\":358.0,\"x\":16.0,\"y\":416.0},{\"fill\":\"#FFFFFF\",\"h\":84.0,\"id\":\"tab-bar\",\"kind\":\"rect\",\"stroke\":\"#E5E5E5\",\"w\":390.0,\"x\":0.0,\"y\":760.0}],\"width\":390.0}]}";

/// The drawing of an administration console.
pub const ADMIN_DOCUMENT: &'static str =
    "{\"pages\":[{\"height\":900.0,\"id\":\"dashboard\",\"name\":\"仪表盘\",\"nodes\":[{\"fill\":\"#1A1A2E\",\"h\":900.0,\"id\":\"sidebar\",\"kind\":\"rect\",\"w\":240.0,\"x\":0.0,\"y\":0.0},{\"fill\":\"#FFFFFF\",\"h\":32.0,\"id\":\"logo\",\"kind\":\"text\",\"text\":\"Admin\",\"w\":180.0,\"x\":24.0,\"y\":24.0},{\"fill\":\"#A0A0C0\",\"h\":24.0,\"id\":\"nav-1\",\"kind\":\"text\",\"text\":\"仪表盘\",\"w\":180.0,\"x\":24.0,\"y\":80.0},{\"fill\":\"#A0A0C0\",\"h\":24.0,\"id\":\"nav-2\",\"kind\":\"text\",\"text\":\"用户管理\",\"w\":180.0,\"x\":24.0,\"y\":120.0},{\"fill\":\"#A0A0C0\",\"h\":24.0,\"id\":\"nav-3\",\"kind\":\"text\",\"text\":\"数据分析\",\"w\":180.0,\"x\":24.0,\"y\":160.0},{\"fill\":\"#FFFFFF\",\"h\":64.0,\"id\":\"header\",\"kind\":\"rect\",\"stroke\":\"#E5E5E5\",\"w\":1200.0,\"x\":240.0,\"y\":0.0},{\"fill\":\"#FFFFFF\",\"h\":120.0,\"id\":\"stat-card-1\",\"kind\":\"rect\",\"stroke\":\"#E5E5E5\",\"w\":260.0,\"x\":272.0,\"y\":96.0},{\"fill\":\"#FFFFFF\",\"h\":120.0,\"id\":\"stat-card-2\",\"kind\":\"rect\",\"stroke\":\"#E5E5E5\",\"w\":260.0,\"x\":556.0,\"y\":96.0},{\"fill\":\"#FFFFFF\",\"h\":120.0,\"id\":\"stat-card-3\",\"kind\":\"rect\",\"stroke\":\"#E5E5E5\",\"w\":260.0,\"x\":840.0,\"y\":96.0},{\"fill\":\"#FFFFFF\",\"h\":120.0,\"id\":\"stat-card-4\",\"kind\":\"rect\",\"stroke\":\"#E5E5E5\",\"w\":260.0,\"x\":1124.0,\"y\":96.0},{\"fill\":\"#FFFFFF\",\"h\":320.0,\"id\":\"chart-area\",\"kind\":\"rect\",\"stroke\":\"#E5E5E5\",\"w\":544.0,\"x\":272.0,\"y\":240.0},{\"fill\":\"#FFFFFF\",\"h\":320.0,\"id\":\"table-area\",\"kind\":\"rect\",\"stroke\":\"#E5E5E5\",\"w\":544.0,\"x\":840.0,\"y\":240.0}],\"width\":1440.0}]}";

/// The drawing of a marketing site.
pub const MARKETING_DOCUMENT: &'static str =
    "{\"pages\":[{\"height\":900.0,\"id\":\"landing\",\"name\":\"落地页\",\"nodes\":[{\"fill\":\"#FFFFFF\",\"h\":72.0,\"id\":\"navbar\",\"kind\":\"rect\",\"stroke\":\"#E5E5E5\",\"w\":1440.0,\"x\":0.0,\"y\":0.0},{\"fill\":\"#000000\",\"h\":32.0,\"id\":\"brand\",\"kind\":\"text\",\"text\":\"Brand\",\"w\":160.0,\"x\":64.0,\"y\":20.0},{\"fill\":\"#F8F9FA\",\"h\":480.0,\"id\":\"hero-section\",\"kind\":\"rect\",\"w\":1440.0,\"x\":0.0,\"y\":72.0},{\"fill\":\"#1A1A2E\",\"h\":48.0,\"id\":\"hero-title\",\"kind\":\"text\",\"text\":\"让设计更简单\",\"w\":600.0,\"x\":200.0,\"y\":200.0},{\"fill\":\"#666666\",\"h\":32.0,\"id\":\"hero-subtitle\",\"kind\":\"text\",\"text\":\"AI 驱动的本地设计工具\",\"w\":500.0,\"x\":200.0,\"y\":264.0},{\"fill\":\"#007AFF\",\"h\":48.0,\"id\":\"cta-button\",\"kind\":\"rect\",\"w\":160.0,\"x\":200.0,\"y\":320.0},{\"fill\":\"#FFFFFF\",\"h\":32.0,\"id\":\"cta-text\",\"kind\":\"text\",\"text\":\"立即开始\",\"w\":128.0,\"x\":216.0,\"y\":328.0},{\"fill\":\"#FFFFFF\",\"h\":348.0,\"id\":\"features-section\",\"kind\":\"rect\",\"w\":1440.0,\"x\":0.0,\"y\":552.0},{\"fill\":\"#F5F5F7\",\"h\":240.0,\"id\":\"feature-1\",\"kind\":\"rect\",\"stroke\":\"#E5E5E5\",\"w\":400.0,\"x\":64.0,\"y\":592.0},{\"fill\":\"#F5F5F7\",\"h\":240.0,\"id\":\"feature-2\",\"kind\":\"rect\",\"stroke\":\"#E5E5E5\",\"w\":400.0,\"x\":520.0,\"y\":592.0},{\"fill\":\"#F5F5F7\",\"h\":240.0,\"id\":\"feature-3\",\"kind\":\"rect\",\"stroke\":\"#E5E5E5\",\"w\":400.0,\"x\":976.0,\"y\":592.0}],\"width\":1440.0}]}";

/// The drawing of a mini program.
pub const MINI_PROGRAM_DOCUMENT: &'static str =
    "{\"pages\":[{\"height\":812.0,\"id\":\"index\",\"name\":\"首页\",\"nodes\":[{\"fill\":\"#FFFFFF\",\"h\":44.0,\"id\":\"status-bar\",\"kind\":\"rect\",\"w\":375.0,\"x\":0.0,\"y\":0.0},{\"fill\":\"#F5F5F5\",\"h\":36.0,\"id\":\"search-bar\",\"kind\":\"rect\",\"stroke\":\"#E5E5E5\",\"w\":351.0,\"x\":12.0,\"y\":52.0},{\"fill\":\"#E8E8E8\",\"h\":160.0,\"id\":\"swiper\",\"kind\":\"rect\",\"w\":375.0,\"x\":0.0,\"y\":100.0},{\"fill\":\"#FFFFFF\",\"h\":160.0,\"id\":\"grid-nav\",\"kind\":\"rect\",\"stroke\":\"#EEEEEE\",\"w\":351.0,\"x\":12.0,\"y\":276.0},{\"fill\":\"#FFFFFF\",\"h\":220.0,\"id\":\"product-1\",\"kind\":\"rect\",\"stroke\":\"#EEEEEE\",\"w\":168.0,\"x\":12.0,\"y\":452.0},{\"fill\":\"#FFFFFF\",\"h\":220.0,\"id\":\"product-2\",\"kind\":\"rect\",\"stroke\":\"#EEEEEE\",\"w\":168.0,\"x\":195.0,\"y\":452.0},{\"fill\":\"#FFFFFF\",\"h\":220.0,\"id\":\"product-3\",\"kind\":\"rect\",\"stroke\":\"#EEEEEE\",\"w\":168.0,\"x\":12.0,\"y\":688.0},{\"fill\":\"#FFFFFF\",\"h\":220.0,\"id\":\"product-4\",\"kind\":\"rect\",\"stroke\":\"#EEEEEE\",\"w\":168.0,\"x\":195.0,\"y\":688.0},{\"fill\":\"#FFFFFF\",\"h\":84.0,\"id\":\"tab-bar\",\"kind\":\"rect\",\"stroke\":\"#E5E5E5\",\"w\":375.0,\"x\":0.0,\"y\":728.0}],\"width\":375.0}]}";

pub open spec fn template(
    id: Seq<char>,
    name: Seq<char>,
    tags: Seq<Seq<char>>,
    category: Seq<char>,
    document_json: Seq<char>,
    created_at: u64,
) -> TemplateView {
    TemplateView { id, name, tags, category, document_json, created_at }
}

/// The built-in templates: a mobile application, an administration console, a marketing site and a
/// mini program.
pub open spec fn builtins(now: u64) -> Seq<TemplateView> {
    seq![
        template(
            "builtin-mobile-app"@,
            "移动端应用"@,
            seq!["mobile"@, "app"@, "iOS"@, "Android"@],
            "mobile"@,
            MOBILE_DOCUMENT@,
            now,
        ),
        template(
            "builtin-admin-dashboard"@,
            "B端后台"@,
            seq!["admin"@, "dashboard"@, "B端"@, "后台"@],
            "admin"@,
            ADMIN_DOCUMENT@,
            now,
        ),
        template(
            "builtin-marketing-site"@,
            "营销网站"@,
            seq!["website"@, "marketing"@, "landing"@, "营销"@],
            "website"@,
            MARKETING_DOCUMENT@,
            now,
        ),
        template(
            "builtin-mini-program"@,
            "小程序"@,
            seq!["mini-program"@, "wechat"@, "小程序"@, "微信"@],
            "mini-program"@,
            MINI_PROGRAM_DOCUMENT@,
            now,
        ),
    ]
}

fn make_template(
    id: &str,
    name: &str,
    tags: [&str; 4],
    category: &str,
    document_json: &str,
    created_at: u64,
) -> (r: DesignTemplate)
    ensures
        r@ == template(
            id@,
            name@,
            seq![tags@[0]@, tags@[1]@, tags@[2]@, tags@[3]@],
            category@,
            document_json@,
            created_at,
        ),
{
    let mut all: Vec<String> = Vec::new();
    all.push(tags[0].to_owned());
    all.push(tags[1].to_owned());
    all.push(tags[2].to_owned());
    all.push(tags[3].to_owned());
    proof {
        assert(text::texts(all@) =~= seq![tags@[0]@, tags@[1]@, tags@[2]@, tags@[3]@]);
    }
    DesignTemplate {
        id: id.to_owned(),
        name: name.to_owned(),
        tags: all,
        category: category.to_owned(),
        document_json: document_json.to_owned(),
        created_at,
    }
}

/// The built-in templates. `now` is the time, in seconds.
pub fn builtin_scene_templates(now: u64) -> (r: Vec<DesignTemplate>)
    ensures
        template_views(r@) == builtins(now),
{
    let mut out: Vec<DesignTemplate> = Vec::new();
    out.push(
        make_template(
            "builtin-mobile-app",
            "移动端应用",
            ["mobile", "app", "iOS", "Android"],
            "mobile",
            MOBILE_DOCUMENT,
            now,
        ),
    );
    out.push(
        make_template(
            "builtin-admin-dashboard",
            "B端后台",
            ["admin", "dashboard", "B端", "后台"],
            "admin",
            ADMIN_DOCUMENT,
            now,
        ),
    );
    out.push(
        make_template(
            "builtin-marketing-site",
            "营销网站",
            ["website", "marketing", "landing", "营销"],
            "website",
            MARKETING_DOCUMENT,
            now,
        ),
    );
    out.push(
        make_template(
            "builtin-mini-program",
            "小程序",
            ["mini-program", "wechat", "小程序", "微信"],
            "mini-program",
            MINI_PROGRAM_DOCUMENT,
            now,
        ),
    );
    proof {
        assert(template_views(out@) =~= builtins(now));
    }
    out
}

/// What is found where a built-in template belongs.
#[derive(Debug)]
pub enum Installed {
    /// There is no file.
    Missing,
    /// The file cannot be read, or what it holds is no template.
    Broken,
    /// The file holds a template with this id.
    Template(String),
}

/// Whether a built-in template has to be written.
pub open spec fn must_install(existing: Installed, id: Seq<char>) -> bool {
    match existing {
        Installed::Missing => true,
        Installed::Broken => true,
        Installed::Template(found) => found@ != id,
    }
}

/// Whether a built-in template has to be written: it is left alone only where it is there and
/// whole.
pub fn needs_install(existing: &Installed, id: &str) -> (r: bool)
    ensures
        r == must_install(*existing, id@),
{
    match existing {
        Installed::Missing => true,
        Installed::Broken => true,
        Installed::Template(found) => !same(found.as_str(), id),
    }
}

// ---------------------------------------------------------------------------
// Laws
// ---------------------------------------------------------------------------

/// Ordering loses no template and adds none, and puts none before a newer one.
pub proof fn law_newest_come_first(ts: Seq<TemplateView>)
    ensures
        is_newest_first(newest_first(ts)),
        newest_first(ts).to_multiset() == ts.to_multiset(),
    decreases ts.len(),
{
    broadcast use vstd::seq_lib::group_to_multiset_ensures;

    if ts.len() > 0 {
        let front = ts.drop_last();
        law_newest_come_first(front);
        lemma_with_template(newest_first(front), ts.last());
        assert(ts =~= front.push(ts.last()));
        assert(newest_first(ts).to_multiset() =~= ts.to_multiset());
    } else {
        assert(newest_first(ts) =~= ts);
    }
}

/// After a template was saved, the directory is read again whatever its time of change; after it
/// was read, it is not read again until that time changes.
pub proof fn law_saving_is_noticed(
    link: LinkView,
    changed: u64,
    later: u64,
    ts: Seq<TemplateView>,
)
    ensures
        must_read(forgotten(link), later),
        changed != 0 ==> (must_read(refreshed(link, changed, ts), later) <==> later == 0 || later
            != changed),
{
}

/// Every template that is found answers the query, and every one that answers it is found.
pub proof fn law_search_finds_all_answers(ts: Seq<TemplateView>, query: Seq<char>, t: TemplateView)
    ensures
        found(ts, query).contains(t) <==> ts.contains(t) && answers(t, query),
    decreases ts.len(),
{
    reveal(Seq::filter);
    let p = |t: TemplateView| answers(t, query);
    if ts.len() > 0 {
        let front = ts.drop_last();
        law_search_finds_all_answers(front, query, t);
        let rest = found(front, query);
        assert(ts =~= front.push(ts.last()));
        assert(ts.contains(t) <==> front.contains(t) || ts.last() == t) by {
            if front.contains(t) {
                let k = choose|k: int| 0 <= k < front.len() && front[k] == t;
                assert(ts[k] == t);
            }
            if ts.contains(t) && ts.last() != t {
                let k = choose|k: int| 0 <= k < ts.len() && ts[k] == t;
                assert(front[k] == t);
            }
        }
        if p(ts.last()) {
            assert(found(ts, query) == rest.push(ts.last()));
            if rest.contains(t) {
                let k = choose|k: int| 0 <= k < rest.len() && rest[k] == t;
                assert(rest.push(ts.last())[k] == t);
            }
            assert(rest.push(ts.last())[rest.len() as int] == ts.last());
            if found(ts, query).contains(t) && t != ts.last() {
                let k = choose|k: int|
                    0 <= k < found(ts, query).len() && found(ts, query)[k] == t;
                assert(rest[k] == t);
            }
        }
    }
}

/// A search with more tags finds no more.
pub proof fn law_more_tags_find_less(t: TemplateView, tags: Seq<Seq<char>>, tag: Seq<char>)
    ensures
        has_all_tags(t, tags.push(tag)) <==> has_all_tags(t, tags) && has_tag(t.tags, tag),
        has_all_tags(t, Seq::empty()),
{
    let more = tags.push(tag);
    if has_all_tags(t, more) {
        assert forall|i: int| 0 <= i < tags.len() implies has_tag(t.tags, #[trigger] tags[i]) by {
            assert(more[i] == tags[i]);
        }
        assert(more[tags.len() as int] == tag);
    }
}

/// A template that was written is not written again.
pub proof fn law_installing_twice_writes_nothing(id: String)
    ensures
        !must_install(Installed::Template(id), id@),
{
}

/// A template answers its own name, its category and each of its tags, and everything answers an
/// empty query.
pub proof fn law_template_answers_its_own_words(t: TemplateView, k: int)
    ensures
        answers(t, t.name),
        answers(t, t.category),
        0 <= k < t.tags.len() ==> answers(t, t.tags[k]) && has_all_tags(t, seq![t.tags[k]]),
        forall|q: Seq<char>| text::lowercase(q).len() == 0 ==> #[trigger] answers(t, q),
{
    text::lemma_occurs_itself(text::lowercase(t.name));
    text::lemma_occurs_itself(text::lowercase(t.category));
    if 0 <= k < t.tags.len() {
        text::lemma_occurs_itself(text::lowercase(t.tags[k]));
        assert(has_tag(t.tags, t.tags[k]));
    }
}

/// A template answers nothing that stands in none of these.
pub proof fn law_template_answers_nothing_else(t: TemplateView, q: Seq<char>)
    requires
        text::lowercase(q).len() > 0,
        !text::occurs(text::lowercase(t.name), text::lowercase(q)),
        !text::occurs(text::lowercase(t.category), text::lowercase(q)),
        forall|k: int|
            0 <= k < t.tags.len() ==> !text::occurs(
                text::lowercase(#[trigger] t.tags[k]),
                text::lowercase(q),
            ),
    ensures
        !answers(t, q),
{
}

/// Every template with the tags is found by them, and no other.
pub proof fn law_tags_find_all_that_have_them(
    ts: Seq<TemplateView>,
    tags: Seq<Seq<char>>,
    t: TemplateView,
)
    ensures
        tagged(ts, tags).contains(t) <==> ts.contains(t) && has_all_tags(t, tags),
    decreases ts.len(),
{
    reveal(Seq::filter);
    let p = |t: TemplateView| has_all_tags(t, tags);
    if ts.len() > 0 {
        let front = ts.drop_last();
        law_tags_find_all_that_have_them(front, tags, t);
        let rest = tagged(front, tags);
        assert(ts.contains(t) <==> front.contains(t) || ts.last() == t) by {
            if front.contains(t) {
                let k = choose|k: int| 0 <= k < front.len() && front[k] == t;
                assert(ts[k] == t);
            }
            if ts.contains(t) && ts.last() != t {
                let k = choose|k: int| 0 <= k < ts.len() && ts[k] == t;
                assert(front[k] == t);
            }
        }
        if p(ts.last()) {
            assert(tagged(ts, tags) == rest.push(ts.last()));
            if rest.contains(t) {
                let k = choose|k: int| 0 <= k < rest.len() && rest[k] == t;
                assert(rest.push(ts.last())[k] == t);
            }
            assert(rest.push(ts.last())[rest.len() as int] == ts.last());
            if tagged(ts, tags).contains(t) && t != ts.last() {
                let k = choose|k: int|
                    0 <= k < tagged(ts, tags).len() && tagged(ts, tags)[k] == t;
                assert(rest[k] == t);
            }
        }
    }
}

/// A built-in template is written wherever what is there is not that template.
pub proof fn law_only_whole_templates_are_left_alone(existing: Installed, id: Seq<char>)
    ensures
        must_install(existing, id) <==> !(existing matches Installed::Template(found) && found@
            == id),
{
}

/// The built-in templates have ids of their own, are made now, and are found by their category.
pub proof fn law_built_in_templates_are_told_apart(now: u64, i: int, j: int)
    requires
        0 <= i < builtins(now).len(),
        0 <= j < builtins(now).len(),
    ensures
        i != j ==> builtins(now)[i].id != builtins(now)[j].id,
        builtins(now)[i].created_at == now,
        answers(builtins(now)[i], builtins(now)[i].category),
{
    reveal_strlit("builtin-mobile-app");
    reveal_strlit("builtin-admin-dashboard");
    reveal_strlit("builtin-marketing-site");
    reveal_strlit("builtin-mini-program");
    assert("builtin-mobile-app"@.len() == 18 && "builtin-admin-dashboard"@.len() == 23);
    assert("builtin-marketing-site"@.len() == 22 && "builtin-mini-program"@.len() == 20);
    law_template_answers_its_own_words(builtins(now)[i], 0);
}

/// What was read is held, with none of it lost, until it is forgotten; the directory stays the same.
pub proof fn law_what_was_read_is_held(link: LinkView, changed: u64, ts: Seq<TemplateView>)
    ensures
        refreshed(link, changed, ts).templates.to_multiset() == ts.to_multiset(),
        is_newest_first(refreshed(link, changed, ts).templates),
        refreshed(link, changed, ts).read_at == changed,
        refreshed(link, changed, ts).base_dir == link.base_dir,
        forgotten(link).templates.len() == 0,
        forgotten(link).base_dir == link.base_dir,
{
    law_newest_come_first(ts);
}

} // verus!
