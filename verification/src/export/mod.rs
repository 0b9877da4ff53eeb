//! Export of pages to files: what each file is called and what stands in it.

use vstd::prelude::*;
use vstd::string::*;

use crate::canvas;
use crate::canvas::{clone_opt_num, clone_opt_text, Page, PageView, PenDocument};
use crate::codegen::wrap;
use crate::design_system;
use crate::design_system::{DesignSystemRegistry, SystemView};
use crate::num::{Num, NumView};
use crate::text;
use crate::text::{join, number};

pub mod drawn;
pub mod pdf;
pub mod svg;
pub mod util;

verus! {

/// The longest side of a raster image, in pixels.
pub const MAX_CANVAS_DIM: u32 = 16384;

/// The most pixels that a raster image has.
pub const MAX_CANVAS_PIXELS: u64 = 64_000_000;

/// The formats.
#[derive(Debug, Clone, Copy, PartialEq, Eq, Structural)]
pub enum ExportFormat {
    Html,
    Svg,
    Json,
    Png,
    Pdf,
}

pub open spec fn extension_of(format: ExportFormat) -> Seq<char> {
    match format {
        ExportFormat::Html => "html"@,
        ExportFormat::Svg => "svg"@,
        ExportFormat::Json => "json"@,
        ExportFormat::Png => "png"@,
        ExportFormat::Pdf => "pdf"@,
    }
}

impl ExportFormat {
    /// The extension of the files.
    pub fn extension(self) -> (r: &'static str)
        ensures
            r@ == extension_of(self),
    {
        match self {
            ExportFormat::Html => "html",
            ExportFormat::Svg => "svg",
            ExportFormat::Json => "json",
            ExportFormat::Png => "png",
            ExportFormat::Pdf => "pdf",
        }
    }

    /// The media type of the files.
    pub fn mime(self) -> (r: &'static str)
        ensures
            r@ == match self {
                ExportFormat::Html => "text/html"@,
                ExportFormat::Svg => "image/svg+xml"@,
                ExportFormat::Json => "application/json"@,
                ExportFormat::Png => "image/png"@,
                ExportFormat::Pdf => "application/pdf"@,
            },
    {
        match self {
            ExportFormat::Html => "text/html",
            ExportFormat::Svg => "image/svg+xml",
            ExportFormat::Json => "application/json",
            ExportFormat::Png => "image/png",
            ExportFormat::Pdf => "application/pdf",
        }
    }
}

/// Why an export failed.
#[derive(Debug)]
pub enum ExportError {
    /// Reading or writing failed.
    Io(String),
    /// The data could not be written down.
    Serialize(String),
    /// The page could not be rendered.
    RenderFailed(String),
    /// The format is not supported.
    UnsupportedFormat(ExportFormat),
    /// Some of the pages failed.
    BatchPartial { count: usize, detail: String },
}

/// What an `ExportError` holds.
#[verifier::ext_equal]
pub enum ExportErrorView {
    Io(Seq<char>),
    Serialize(Seq<char>),
    RenderFailed(Seq<char>),
    UnsupportedFormat(ExportFormat),
    BatchPartial { count: nat, detail: Seq<char> },
}

impl ExportError {
    pub open spec fn view(&self) -> ExportErrorView {
        match *self {
            ExportError::Io(s) => ExportErrorView::Io(s@),
            ExportError::Serialize(s) => ExportErrorView::Serialize(s@),
            ExportError::RenderFailed(s) => ExportErrorView::RenderFailed(s@),
            ExportError::UnsupportedFormat(f) => ExportErrorView::UnsupportedFormat(f),
            ExportError::BatchPartial { count, detail } => ExportErrorView::BatchPartial {
                count: count as nat,
                detail: detail@,
            },
        }
    }
}

pub open spec fn format_name(format: ExportFormat) -> Seq<char> {
    match format {
        ExportFormat::Html => "Html"@,
        ExportFormat::Svg => "Svg"@,
        ExportFormat::Json => "Json"@,
        ExportFormat::Png => "Png"@,
        ExportFormat::Pdf => "Pdf"@,
    }
}

/// An error in words.
pub open spec fn error_text(e: ExportErrorView) -> Seq<char> {
    match e {
        ExportErrorView::Io(s) => "IO 错误: "@ + s,
        ExportErrorView::Serialize(s) => "序列化错误: "@ + s,
        ExportErrorView::RenderFailed(s) => "渲染失败: "@ + s,
        ExportErrorView::UnsupportedFormat(f) => "不支持的导出格式: "@ + format_name(f),
        ExportErrorView::BatchPartial { count, detail } => "批量导出存在 "@ + text::decimal(count)
            + " 项失败:\n"@ + detail,
    }
}

impl ExportError {
    /// The error in words.
    pub fn message(&self) -> (r: String)
        ensures
            r@ == error_text(self@),
    {
        match self {
            ExportError::Io(s) => "IO 错误: ".to_owned().concat(s.as_str()),
            ExportError::Serialize(s) => "序列化错误: ".to_owned().concat(s.as_str()),
            ExportError::RenderFailed(s) => "渲染失败: ".to_owned().concat(s.as_str()),
            ExportError::UnsupportedFormat(f) => {
                let name = match *f {
                    ExportFormat::Html => "Html",
                    ExportFormat::Svg => "Svg",
                    ExportFormat::Json => "Json",
                    ExportFormat::Png => "Png",
                    ExportFormat::Pdf => "Pdf",
                };
                "不支持的导出格式: ".to_owned().concat(name)
            },
            ExportError::BatchPartial { count, detail } => wrap(
                "批量导出存在 ",
                number(*count as u64).as_str(),
                " 项失败:\n",
            ).concat(detail.as_str()),
        }
    }
}

// ---------------------------------------------------------------------------
// Pages
// ---------------------------------------------------------------------------

/// One element to render. The middle of its box and half of the shorter side follow from the box.
#[derive(Debug)]
pub struct CanvasElement {
    pub kind: String,
    pub x: Num,
    pub y: Num,
    pub w: Num,
    pub h: Num,
    pub text: Option<String>,
    pub fill: Option<String>,
    pub stroke: Option<String>,
    pub stroke_width: Option<Num>,
    pub radius: Option<Num>,
    pub opacity: Option<Num>,
    pub font_size: Option<Num>,
    pub font_family: Option<String>,
    pub rotation: Option<Num>,
    pub center_x: Num,
    pub center_y: Num,
    pub half_side: Num,
}

/// A page to render.
#[derive(Debug)]
pub struct CanvasPage {
    pub id: String,
    pub name: String,
    pub width: Num,
    pub height: Num,
    pub elements: Vec<CanvasElement>,
}

/// What a `CanvasElement` holds.
#[verifier::ext_equal]
pub struct ElementView {
    pub kind: Seq<char>,
    pub x: NumView,
    pub y: NumView,
    pub w: NumView,
    pub h: NumView,
    pub text: Option<Seq<char>>,
    pub fill: Option<Seq<char>>,
    pub stroke: Option<Seq<char>>,
    pub stroke_width: Option<NumView>,
    pub radius: Option<NumView>,
    pub opacity: Option<NumView>,
    pub font_size: Option<NumView>,
    pub font_family: Option<Seq<char>>,
    pub rotation: Option<NumView>,
    pub center_x: NumView,
    pub center_y: NumView,
    pub half_side: NumView,
}

/// What a `CanvasPage` holds.
#[verifier::ext_equal]
pub struct CanvasView {
    pub id: Seq<char>,
    pub name: Seq<char>,
    pub width: NumView,
    pub height: NumView,
    pub elements: Seq<ElementView>,
}

impl CanvasElement {
    pub open spec fn view(&self) -> ElementView {
        ElementView {
            kind: self.kind@,
            x: self.x@,
            y: self.y@,
            w: self.w@,
            h: self.h@,
            text: text::opt_text(self.text),
            fill: text::opt_text(self.fill),
            stroke: text::opt_text(self.stroke),
            stroke_width: canvas::opt_num(self.stroke_width),
            radius: canvas::opt_num(self.radius),
            opacity: canvas::opt_num(self.opacity),
            font_size: canvas::opt_num(self.font_size),
            font_family: text::opt_text(self.font_family),
            rotation: canvas::opt_num(self.rotation),
            center_x: self.center_x@,
            center_y: self.center_y@,
            half_side: self.half_side@,
        }
    }
}

pub open spec fn element_views(s: Seq<CanvasElement>) -> Seq<ElementView> {
    s.map_values(|e: CanvasElement| e@)
}

impl CanvasPage {
    pub open spec fn view(&self) -> CanvasView {
        CanvasView {
            id: self.id@,
            name: self.name@,
            width: self.width@,
            height: self.height@,
            elements: element_views(self.elements@),
        }
    }
}

pub open spec fn canvas_views(s: Seq<CanvasPage>) -> Seq<CanvasView> {
    s.map_values(|p: CanvasPage| p@)
}

impl Clone for CanvasElement {
    fn clone(&self) -> (r: Self)
        ensures
            r@ == self@,
    {
        CanvasElement {
            kind: self.kind.clone(),
            x: self.x.copy(),
            y: self.y.copy(),
            w: self.w.copy(),
            h: self.h.copy(),
            text: clone_opt_text(&self.text),
            fill: clone_opt_text(&self.fill),
            stroke: clone_opt_text(&self.stroke),
            stroke_width: clone_opt_num(&self.stroke_width),
            radius: clone_opt_num(&self.radius),
            opacity: clone_opt_num(&self.opacity),
            font_size: clone_opt_num(&self.font_size),
            font_family: clone_opt_text(&self.font_family),
            rotation: clone_opt_num(&self.rotation),
            center_x: self.center_x.copy(),
            center_y: self.center_y.copy(),
            half_side: self.half_side.copy(),
        }
    }
}

impl Clone for CanvasPage {
    fn clone(&self) -> (r: Self)
        ensures
            r@ == self@,
    {
        let mut elements: Vec<CanvasElement> = Vec::new();
        let mut i: usize = 0;
        while i < self.elements.len()
            invariant
                i <= self.elements@.len(),
                elements@.len() == i,
                forall|k: int| 0 <= k < i ==> (#[trigger] elements@[k])@ == self.elements@[k]@,
            decreases self.elements.len() - i,
        {
            elements.push(self.elements[i].clone());
            i = i + 1;
        }
        proof {
            assert(element_views(elements@) =~= element_views(self.elements@));
        }
        CanvasPage {
            id: self.id.clone(),
            name: self.name.clone(),
            width: self.width.copy(),
            height: self.height.copy(),
            elements,
        }
    }
}

/// A page as it is rendered: all its nodes as elements.
pub open spec fn flattened_page(p: PageView) -> CanvasView {
    CanvasView {
        id: p.id,
        name: p.name,
        width: p.width,
        height: p.height,
        elements: util::nodes_elements(p.nodes),
    }
}

/// A page with its colors resolved.
pub open spec fn colored_page(system: Option<SystemView>, p: CanvasView) -> CanvasView {
    CanvasView {
        elements: p.elements.map_values(|e: ElementView| util::with_colors(system, e)),
        ..p
    }
}

impl CanvasPage {
    /// The page with all its nodes as elements, those inside a node after it.
    pub fn from_page(page: &Page) -> (r: CanvasPage)
        ensures
            r@ == flattened_page(page@),
    {
        let mut elements: Vec<CanvasElement> = Vec::new();
        proof {
            assert(element_views(elements@) =~= Seq::empty());
        }
        let mut i: usize = 0;
        while i < page.nodes.len()
            invariant
                i <= page.nodes@.len(),
                element_views(elements@) == util::nodes_elements(page@.nodes.take(i as int)),
            decreases page.nodes.len() - i,
        {
            proof {
                assert(page@.nodes[i as int] == page.nodes@[i as int]@);
                text::lemma_take_step(page@.nodes, i as int);
            }
            util::collect_elements(&page.nodes[i], &mut elements);
            i = i + 1;
        }
        proof {
            text::lemma_take_all(page@.nodes);
        }
        CanvasPage {
            id: page.id.clone(),
            name: page.name.clone(),
            width: page.width.copy(),
            height: page.height.copy(),
            elements,
        }
    }
}

// ---------------------------------------------------------------------------
// Export
// ---------------------------------------------------------------------------

/// What stands in a file.
#[derive(Debug)]
pub enum Content {
    /// This text.
    Text(String),
    /// The page, written down as JSON.
    Json(CanvasPage),
    /// The image that this SVG shows.
    Raster(String),
    /// The drawing of the page; `cjk` says whether it needs a font for ideographs.
    Drawing { page: CanvasPage, cjk: bool },
}

/// What a `Content` holds.
#[verifier::ext_equal]
pub enum ContentView {
    Text(Seq<char>),
    Json(CanvasView),
    Raster(Seq<char>),
    Drawing { page: CanvasView, cjk: bool },
}

impl Content {
    pub open spec fn view(&self) -> ContentView {
        match *self {
            Content::Text(s) => ContentView::Text(s@),
            Content::Json(p) => ContentView::Json(p@),
            Content::Raster(s) => ContentView::Raster(s@),
            Content::Drawing { page, cjk } => ContentView::Drawing { page: page@, cjk },
        }
    }
}

/// A file to write for a page.
#[derive(Debug)]
pub struct PageFile {
    pub page_name: String,
    pub file_name: String,
    pub content: Content,
}

/// What a `PageFile` holds.
#[verifier::ext_equal]
pub struct PageFileView {
    pub page_name: Seq<char>,
    pub file_name: Seq<char>,
    pub content: ContentView,
}

impl PageFile {
    pub open spec fn view(&self) -> PageFileView {
        PageFileView {
            page_name: self.page_name@,
            file_name: self.file_name@,
            content: self.content@,
        }
    }
}

pub open spec fn file_views(s: Seq<PageFile>) -> Seq<PageFileView> {
    s.map_values(|f: PageFile| f@)
}

/// What stands in the file for a page.
pub open spec fn page_content(p: CanvasView, format: ExportFormat) -> ContentView {
    match format {
        ExportFormat::Html => ContentView::Text(svg::html_page(p)),
        ExportFormat::Svg => ContentView::Text(svg::svg_page(p)),
        ExportFormat::Json => ContentView::Json(p),
        ExportFormat::Png => ContentView::Raster(svg::svg_page(p)),
        ExportFormat::Pdf => ContentView::Drawing {
            page: p,
            cjk: pdf::page_needs_cjk(p.elements),
        },
    }
}

/// The file for a page.
pub open spec fn page_file(p: CanvasView, format: ExportFormat) -> PageFileView {
    PageFileView {
        page_name: p.name,
        file_name: util::file_stem(p.name) + "."@ + extension_of(format),
        content: page_content(p, format),
    }
}

/// What is said of the pages that failed, in their order.
pub open spec fn failures(
    names: Seq<Seq<char>>,
    outcomes: Seq<Result<Seq<char>, ExportErrorView>>,
) -> Seq<Seq<char>>
    decreases outcomes.len(),
{
    if outcomes.len() == 0 {
        Seq::empty()
    } else {
        let rest = failures(names, outcomes.drop_last());
        match outcomes.last() {
            Ok(_) => rest,
            Err(e) => rest.push(
                "页面 '"@ + names[outcomes.len() - 1] + "' 导出失败: "@ + error_text(e),
            ),
        }
    }
}

/// The files of the pages that did not fail, in their order.
pub open spec fn written(outcomes: Seq<Result<Seq<char>, ExportErrorView>>) -> Seq<Seq<char>>
    decreases outcomes.len(),
{
    if outcomes.len() == 0 {
        Seq::empty()
    } else {
        let rest = written(outcomes.drop_last());
        match outcomes.last() {
            Ok(f) => rest.push(f),
            Err(_) => rest,
        }
    }
}

pub open spec fn outcome_view(o: Result<String, ExportError>) -> Result<Seq<char>, ExportErrorView> {
    match o {
        Ok(s) => Ok(s@),
        Err(e) => Err(e@),
    }
}

pub open spec fn outcome_views(s: Seq<Result<String, ExportError>>) -> Seq<
    Result<Seq<char>, ExportErrorView>,
> {
    s.map_values(|o: Result<String, ExportError>| outcome_view(o))
}

/// The exporter.
pub struct Exporter;

impl Exporter {
    /// The files for the pages of a document.
    pub fn from_pen_document(doc: &PenDocument, format: ExportFormat) -> (r: Vec<PageFile>)
        ensures
            file_views(r@) == doc@.pages.map_values(
                |p: PageView| page_file(flattened_page(p), format),
            ),
    {
        let mut out: Vec<PageFile> = Vec::new();
        let mut i: usize = 0;
        while i < doc.pages.len()
            invariant
                i <= doc.pages@.len(),
                out@.len() == i,
                forall|k: int|
                    0 <= k < i ==> (#[trigger] out@[k])@ == page_file(
                        flattened_page(doc@.pages[k]),
                        format,
                    ),
            decreases doc.pages.len() - i,
        {
            let page = CanvasPage::from_page(&doc.pages[i]);
            proof {
                assert(doc@.pages[i as int] == doc.pages@[i as int]@);
            }
            out.push(Self::export_page(&page, format));
            i = i + 1;
        }
        proof {
            assert(file_views(out@) =~= doc@.pages.map_values(
                |p: PageView| page_file(flattened_page(p), format),
            ));
        }
        out
    }

    /// The files for the pages of a document, with the colors that refer to tokens of the system
    /// in use replaced by what the tokens give.
    pub fn from_pen_document_with_tokens(
        doc: &PenDocument,
        format: ExportFormat,
        reg: &DesignSystemRegistry,
    ) -> (r: Vec<PageFile>)
        ensures
            file_views(r@) == doc@.pages.map_values(
                |p: PageView|
                    page_file(
                        colored_page(design_system::active_system(reg@), flattened_page(p)),
                        format,
                    ),
            ),
    {
        let ghost system = design_system::active_system(reg@);
        let mut out: Vec<PageFile> = Vec::new();
        let mut i: usize = 0;
        while i < doc.pages.len()
            invariant
                i <= doc.pages@.len(),
                system == design_system::active_system(reg@),
                out@.len() == i,
                forall|k: int|
                    0 <= k < i ==> (#[trigger] out@[k])@ == page_file(
                        colored_page(system, flattened_page(doc@.pages[k])),
                        format,
                    ),
            decreases doc.pages.len() - i,
        {
            let mut page = CanvasPage::from_page(&doc.pages[i]);
            proof {
                assert(doc@.pages[i as int] == doc.pages@[i as int]@);
            }
            util::resolve_page_token_vars(&mut page, reg);
            proof {
                assert(page@ =~= colored_page(system, flattened_page(doc@.pages[i as int])));
            }
            out.push(Self::export_page(&page, format));
            i = i + 1;
        }
        proof {
            assert(file_views(out@) =~= doc@.pages.map_values(
                |p: PageView| page_file(colored_page(system, flattened_page(p)), format),
            ));
        }
        out
    }

    /// The file for a page.
    pub fn export_page(page: &CanvasPage, format: ExportFormat) -> (r: PageFile)
        ensures
            r@ == page_file(page@, format),
    {
        let stem = util::sanitize_filename(page.name.as_str());
        let file_name = wrap(stem.as_str(), ".", format.extension());
        let content = match format {
            ExportFormat::Html => Content::Text(svg::render_html(page)),
            ExportFormat::Svg => Content::Text(svg::render_svg(page)),
            ExportFormat::Json => Content::Json(page.clone()),
            ExportFormat::Png => Content::Raster(svg::render_svg(page)),
            ExportFormat::Pdf => {
                let cjk = pdf::page_has_cjk_text(page);
                Content::Drawing { page: page.clone(), cjk }
            },
        };
        PageFile { page_name: page.name.clone(), file_name, content }
    }

    /// The files for several pages.
    pub fn export_batch(pages: &Vec<CanvasPage>, format: ExportFormat) -> (r: Vec<PageFile>)
        ensures
            file_views(r@) == canvas_views(pages@).map_values(
                |p: CanvasView| page_file(p, format),
            ),
    {
        let mut out: Vec<PageFile> = Vec::new();
        let mut i: usize = 0;
        while i < pages.len()
            invariant
                i <= pages@.len(),
                out@.len() == i,
                forall|k: int|
                    0 <= k < i ==> (#[trigger] out@[k])@ == page_file(pages@[k]@, format),
            decreases pages.len() - i,
        {
            out.push(Self::export_page(&pages[i], format));
            i = i + 1;
        }
        proof {
            assert(file_views(out@) =~= canvas_views(pages@).map_values(
                |p: CanvasView| page_file(p, format),
            ));
        }
        out
    }

    /// What came of writing the files: their paths, or, where some pages failed, how many and why.
    /// All pages are tried, whatever came of those before them.
    pub fn outcome(names: &Vec<String>, outcomes: Vec<Result<String, ExportError>>) -> (r: Result<
        Vec<String>,
        ExportError,
    >)
        requires
            names@.len() == outcomes@.len(),
        ensures
            ({
                let failed = failures(text::texts(names@), outcome_views(outcomes@));
                match r {
                    Ok(files) => failed.len() == 0 && text::texts(files@) == written(
                        outcome_views(outcomes@),
                    ),
                    Err(e) => failed.len() > 0 && e@ == (ExportErrorView::BatchPartial {
                        count: failed.len(),
                        detail: text::joined(failed, "\n"@),
                    }),
                }
            }),
    {
        let ghost views = outcome_views(outcomes@);
        let ghost name_views = text::texts(names@);
        let mut files: Vec<String> = Vec::new();
        let mut errors: Vec<String> = Vec::new();
        proof {
            assert(text::texts(files@) =~= Seq::empty());
            assert(text::texts(errors@) =~= Seq::empty());
        }
        let mut i: usize = 0;
        while i < outcomes.len()
            invariant
                i <= outcomes@.len(),
                names@.len() == outcomes@.len(),
                views == outcome_views(outcomes@),
                name_views == text::texts(names@),
                text::texts(files@) == written(views.take(i as int)),
                text::texts(errors@) == failures(name_views, views.take(i as int)),
            decreases outcomes.len() - i,
        {
            let ghost so_far = text::texts(files@);
            let ghost failed = text::texts(errors@);
            proof {
                text::lemma_take_step(views, i as int);
                assert(views[i as int] == outcome_view(outcomes@[i as int]));
            }
            match &outcomes[i] {
                Ok(f) => {
                    files.push(f.clone());
                    proof {
                        assert(text::texts(files@) =~= so_far.push(f@));
                    }
                },
                Err(e) => {
                    let line = wrap("页面 '", names[i].as_str(), "' 导出失败: ").concat(
                        e.message().as_str(),
                    );
                    errors.push(line);
                    proof {
                        assert(text::texts(errors@) =~= failed.push(line@));
                    }
                },
            }
            i = i + 1;
        }
        proof {
            text::lemma_take_all(views);
        }
        if errors.len() > 0 {
            return Err(
                ExportError::BatchPartial { count: errors.len(), detail: join(&errors, "\n") },
            );
        }
        Ok(files)
    }
}

// ---------------------------------------------------------------------------
// Several formats
// ---------------------------------------------------------------------------

/// The formats that are asked for: a list of them, or else the single one.
pub fn chosen_formats(formats: Option<Vec<ExportFormat>>, format: ExportFormat) -> (r: Vec<
    ExportFormat,
>)
    ensures
        r@ == match formats {
            Some(fs) => fs@,
            None => seq![format],
        },
{
    match formats {
        Some(fs) => fs,
        None => {
            let mut out: Vec<ExportFormat> = Vec::new();
            out.push(format);
            proof {
                assert(out@ =~= seq![format]);
            }
            out
        },
    }
}

/// What came of exporting in one format: how many pages were written, or why it failed.
#[derive(Debug)]
pub struct FormatOutcome {
    pub format: ExportFormat,
    pub pages: Result<u32, ExportError>,
}

/// How many pages were written in all formats.
pub open spec fn pages_written(os: Seq<FormatOutcome>) -> nat
    decreases os.len(),
{
    if os.len() == 0 {
        0
    } else {
        pages_written(os.drop_last()) + (match os.last().pages {
            Ok(n) => n as nat,
            Err(_) => 0nat,
        })
    }
}

/// What is said of the formats that failed, in their order.
pub open spec fn format_failures(os: Seq<FormatOutcome>) -> Seq<Seq<char>>
    decreases os.len(),
{
    if os.len() == 0 {
        Seq::empty()
    } else {
        let rest = format_failures(os.drop_last());
        match os.last().pages {
            Ok(_) => rest,
            Err(e) => rest.push(extension_of(os.last().format) + ": "@ + error_text(e@)),
        }
    }
}

/// What came of exporting in several formats: how many pages were written, and what is said of the
/// formats that failed. A format that fails does not keep the others from being tried.
#[derive(Debug)]
pub struct FormatsReport {
    pub total: u64,
    pub failures: Vec<String>,
}

impl FormatsReport {
    /// Sums up what came of the formats.
    pub fn new(outcomes: &Vec<FormatOutcome>) -> (r: FormatsReport)
        requires
            outcomes@.len() <= u32::MAX,
        ensures
            r.total == pages_written(outcomes@),
            text::texts(r.failures@) == format_failures(outcomes@),
    {
        let mut total: u64 = 0;
        let mut failures: Vec<String> = Vec::new();
        proof {
            assert(text::texts(failures@) =~= Seq::empty());
        }
        let mut i: usize = 0;
        while i < outcomes.len()
            invariant
                i <= outcomes@.len() <= u32::MAX,
                total == pages_written(outcomes@.take(i as int)),
                total <= i * u32::MAX,
                text::texts(failures@) == format_failures(outcomes@.take(i as int)),
            decreases outcomes.len() - i,
        {
            let ghost failed = text::texts(failures@);
            proof {
                text::lemma_take_step(outcomes@, i as int);
                assert(i * u32::MAX + u32::MAX == (i + 1) * u32::MAX) by (nonlinear_arith);
                assert((i + 1) * u32::MAX <= u32::MAX * u32::MAX) by (nonlinear_arith)
                    requires
                        i + 1 <= u32::MAX,
                ;
            }
            match &outcomes[i].pages {
                Ok(n) => {
                    total = total + *n as u64;
                },
                Err(e) => {
                    let line = wrap(outcomes[i].format.extension(), ": ", e.message().as_str());
                    failures.push(line);
                    proof {
                        assert(text::texts(failures@) =~= failed.push(line@));
                    }
                },
            }
            i = i + 1;
        }
        proof {
            text::lemma_take_all(outcomes@);
        }
        FormatsReport { total, failures }
    }

    /// Says that some formats failed, where some did.
    pub fn verdict(&self) -> (r: Result<(), String>)
        ensures
            match r {
                Ok(_) => self.failures@.len() == 0,
                Err(e) => self.failures@.len() > 0 && e@ == "批量导出部分失败: 成功导出 "@
                    + text::decimal(self.total as nat) + " 页，"@ + text::decimal(
                    self.failures@.len(),
                ) + " 项格式失败"@,
            },
    {
        if self.failures.len() == 0 {
            return Ok(());
        }
        Err(
            wrap("批量导出部分失败: 成功导出 ", number(self.total).as_str(), " 页，").concat(
                number(self.failures.len() as u64).as_str(),
            ).concat(" 项格式失败"),
        )
    }
}

/// Why an image of a size is not rendered.
pub open spec fn raster_fault(width: u32, height: u32) -> Option<Seq<char>> {
    if width == 0 || height == 0 {
        Some("页面尺寸为零，无法渲染 PNG"@)
    } else if width > MAX_CANVAS_DIM || height > MAX_CANVAS_DIM {
        Some(
            "画布尺寸 "@ + text::decimal(width as nat) + "x"@ + text::decimal(height as nat)
                + " 超出光栅化上限 16384x16384，拒绝渲染 PNG 防止 OOM"@,
        )
    } else if width * height > MAX_CANVAS_PIXELS {
        Some(
            "画布总像素 "@ + text::decimal((width * height) as nat) + " ("@ + text::decimal(
                width as nat,
            ) + "x"@ + text::decimal(height as nat)
                + ") 超出上限 64000000，拒绝渲染 PNG 防止 OOM"@,
        )
    } else {
        None
    }
}

/// Whether an image of the size may be rendered.
pub fn check_raster_size(width: u32, height: u32) -> (r: Result<(), ExportError>)
    ensures
        match raster_fault(width, height) {
            Some(why) => r is Err && r->Err_0@ == ExportErrorView::RenderFailed(why),
            None => r is Ok,
        },
{
    if width == 0 || height == 0 {
        return Err(ExportError::RenderFailed("页面尺寸为零，无法渲染 PNG".to_owned()));
    }
    let w = number(width as u64);
    let h = number(height as u64);
    if width > MAX_CANVAS_DIM || height > MAX_CANVAS_DIM {
        return Err(
            ExportError::RenderFailed(
                wrap("画布尺寸 ", w.as_str(), "x").concat(h.as_str()).concat(
                    " 超出光栅化上限 16384x16384，拒绝渲染 PNG 防止 OOM",
                ),
            ),
        );
    }
    proof {
        assert(0 <= width * height <= 16384 * 16384) by (nonlinear_arith)
            requires
                0 <= width <= 16384,
                0 <= height <= 16384,
        ;
    }
    let total: u64 = width as u64 * height as u64;
    if total > MAX_CANVAS_PIXELS {
        return Err(
            ExportError::RenderFailed(
                wrap("画布总像素 ", number(total).as_str(), " (").concat(w.as_str()).concat(
                    "x",
                ).concat(h.as_str()).concat(") 超出上限 64000000，拒绝渲染 PNG 防止 OOM"),
            ),
        );
    }
    Ok(())
}

// ---------------------------------------------------------------------------
// Laws
// ---------------------------------------------------------------------------

/// Whatever fails, every page is accounted for: its file is written, or its failure is reported.
pub proof fn law_every_page_is_accounted_for(
    names: Seq<Seq<char>>,
    outcomes: Seq<Result<Seq<char>, ExportErrorView>>,
)
    ensures
        written(outcomes).len() + failures(names, outcomes).len() == outcomes.len(),
    decreases outcomes.len(),
{
    if outcomes.len() > 0 {
        law_every_page_is_accounted_for(names, outcomes.drop_last());
    }
}

/// An image that is rendered fits in 256 megabytes at four bytes for each pixel.
pub proof fn law_images_fit_in_memory(width: u32, height: u32)
    ensures
        raster_fault(width, height) is None ==> 0 < 4 * (width * height) <= 256_000_000,
{
    if raster_fault(width, height) is None {
        assert(width * height > 0) by (nonlinear_arith)
            requires
                width > 0,
                height > 0,
        ;
    }
}

/// A format is named like the extension of its files, with a capital letter, and no two formats
/// share one.
pub proof fn law_formats_are_told_apart(a: ExportFormat, b: ExportFormat)
    ensures
        text::ascii_lower(format_name(a)) == extension_of(a),
        extension_of(a) == extension_of(b) ==> a == b,
        extension_of(ExportFormat::Html) == "html"@,
        extension_of(ExportFormat::Svg) == "svg"@,
        extension_of(ExportFormat::Json) == "json"@,
        extension_of(ExportFormat::Png) == "png"@,
        extension_of(ExportFormat::Pdf) == "pdf"@,
{
    reveal_strlit("html");
    reveal_strlit("svg");
    reveal_strlit("json");
    reveal_strlit("png");
    reveal_strlit("pdf");
    reveal_strlit("Html");
    reveal_strlit("Svg");
    reveal_strlit("Json");
    reveal_strlit("Png");
    reveal_strlit("Pdf");
    assert(text::ascii_lower(format_name(a)) =~= extension_of(a));
    assert("png"@[1] != "pdf"@[1]);
    assert("html"@[0] != "json"@[0]);
    assert("svg"@[0] != "png"@[0]);
}

/// The image of a page is drawn from the text of its SVG file, the data of a page is the page itself,
/// and a file is named after its page and its format.
pub proof fn law_formats_show_the_same_page(p: CanvasView, format: ExportFormat)
    ensures
        page_content(p, ExportFormat::Svg) matches ContentView::Text(drawn) && page_content(
            p,
            ExportFormat::Png,
        ) == ContentView::Raster(drawn) && drawn == svg::svg_page(p),
        page_content(p, ExportFormat::Json) == ContentView::Json(p),
        page_content(p, ExportFormat::Pdf) matches ContentView::Drawing { page, cjk } && page == p
            && (cjk <==> pdf::page_needs_cjk(p.elements)),
        page_content(p, ExportFormat::Html) == ContentView::Text(svg::html_page(p)),
        ({
            let f = page_file(p, format);
            &&& f.page_name == p.name
            &&& f.content == page_content(p, format)
            &&& f.file_name == util::file_stem(p.name) + "."@ + extension_of(format)
        }),
{
}

/// A page keeps its id, name and size, and its elements are those of its nodes; the colors of its
/// elements are resolved each for itself.
pub proof fn law_page_keeps_its_size(p: PageView, system: Option<SystemView>, i: int)
    ensures
        ({
            let flat = flattened_page(p);
            let colored = colored_page(system, flat);
            &&& flat.id == p.id && flat.name == p.name
            &&& flat.width == p.width && flat.height == p.height
            &&& flat.elements == util::nodes_elements(p.nodes)
            &&& colored.id == p.id && colored.name == p.name
            &&& colored.width == p.width && colored.height == p.height
            &&& colored.elements.len() == flat.elements.len()
            &&& 0 <= i < flat.elements.len() ==> colored.elements[i] == util::with_colors(
                system,
                flat.elements[i],
            )
        }),
{
}

/// An image is rendered exactly where neither side is zero or above the limit of a side, and it has
/// no more pixels than the limit of an image.
pub proof fn law_images_within_limits_are_rendered(width: u32, height: u32)
    ensures
        raster_fault(width, height) is None <==> 1 <= width <= 16384 && 1 <= height <= 16384 && width
            * height <= 64_000_000,
        raster_fault(width, height) is None <==> raster_fault(height, width) is None,
{
    assert(width * height == height * width) by (nonlinear_arith);
}

/// The files that are reported are those of the pages that succeeded, and the failures are told with
/// the names of their pages.
pub proof fn law_outcomes_are_told_apart(
    names: Seq<Seq<char>>,
    outcomes: Seq<Result<Seq<char>, ExportErrorView>>,
    i: int,
)
    requires
        0 <= i < outcomes.len(),
    ensures
        outcomes[i] matches Ok(f) ==> written(outcomes).contains(f),
        outcomes[i] matches Err(e) ==> failures(names, outcomes).contains(
            "页面 '"@ + names[i] + "' 导出失败: "@ + error_text(e),
        ),
        (forall|k: int| 0 <= k < outcomes.len() ==> (#[trigger] outcomes[k]) is Ok) <==> failures(
            names,
            outcomes,
        ).len() == 0,
    decreases outcomes.len(),
{
    let front = outcomes.drop_last();
    let w = written(front);
    let f = failures(names, front);
    law_every_page_is_accounted_for(names, front);
    if i < front.len() {
        law_outcomes_are_told_apart(names, front, i);
        assert(front[i] == outcomes[i]);
        match outcomes[i] {
            Ok(file) => {
                let k = choose|k: int| 0 <= k < w.len() && w[k] == file;
                assert(written(outcomes)[k] == file);
            },
            Err(e) => {
                let line = "页面 '"@ + names[i] + "' 导出失败: "@ + error_text(e);
                let k = choose|k: int| 0 <= k < f.len() && f[k] == line;
                assert(failures(names, outcomes)[k] == line);
            },
        }
    } else {
        match outcomes[i] {
            Ok(file) => {
                assert(written(outcomes)[w.len() as int] == file);
            },
            Err(e) => {
                assert(failures(names, outcomes)[f.len() as int] == "页面 '"@ + names[i]
                    + "' 导出失败: "@ + error_text(e));
            },
        }
    }
    lemma_failures_counted(names, outcomes);
}

proof fn lemma_failures_counted(
    names: Seq<Seq<char>>,
    outcomes: Seq<Result<Seq<char>, ExportErrorView>>,
)
    ensures
        (forall|k: int| 0 <= k < outcomes.len() ==> (#[trigger] outcomes[k]) is Ok) <==> failures(
            names,
            outcomes,
        ).len() == 0,
    decreases outcomes.len(),
{
    if outcomes.len() > 0 {
        let front = outcomes.drop_last();
        lemma_failures_counted(names, front);
        assert(forall|k: int| 0 <= k < front.len() ==> front[k] == #[trigger] outcomes[k]);
        assert(outcomes.last() == outcomes[outcomes.len() - 1]);
        if failures(names, outcomes).len() == 0 {
            assert(failures(names, front).len() == 0);
            assert forall|k: int| 0 <= k < outcomes.len() implies (#[trigger] outcomes[k]) is Ok by {
                if k < front.len() {
                    assert(front[k] is Ok);
                }
            }
        }
        if forall|k: int| 0 <= k < outcomes.len() ==> (#[trigger] outcomes[k]) is Ok {
            assert forall|k: int| 0 <= k < front.len() implies (#[trigger] front[k]) is Ok by {
                assert(outcomes[k] is Ok);
            }
        }
    }
}

/// The pages of all formats are summed up, and a format that failed is told with its extension.
pub proof fn law_formats_are_summed_up(os: Seq<FormatOutcome>, o: FormatOutcome)
    ensures
        pages_written(os.push(o)) == pages_written(os) + (match o.pages {
            Ok(n) => n as nat,
            Err(_) => 0,
        }),
        format_failures(os.push(o)) == match o.pages {
            Ok(_) => format_failures(os),
            Err(e) => format_failures(os).push(extension_of(o.format) + ": "@ + error_text(e@)),
        },
{
    assert(os.push(o).drop_last() =~= os);
}

/// The words of an error hold what it says: its detail, the format, or how many pages failed.
pub proof fn law_error_tells_its_detail(s: Seq<char>, f: ExportFormat, count: nat)
    ensures
        text::occurs(error_text(ExportErrorView::Io(s)), s),
        text::occurs(error_text(ExportErrorView::Serialize(s)), s),
        text::occurs(error_text(ExportErrorView::RenderFailed(s)), s),
        text::occurs(error_text(ExportErrorView::UnsupportedFormat(f)), format_name(f)),
        text::occurs(error_text(ExportErrorView::BatchPartial { count, detail: s }), s),
        text::occurs(
            error_text(ExportErrorView::BatchPartial { count, detail: s }),
            text::decimal(count),
        ),
{
    text::lemma_occurs_last("IO 错误: "@, s);
    text::lemma_occurs_last("序列化错误: "@, s);
    text::lemma_occurs_last("渲染失败: "@, s);
    text::lemma_occurs_last("不支持的导出格式: "@, format_name(f));
    let start = "批量导出存在 "@;
    let middle = " 项失败:\n"@;
    let d = text::decimal(count);
    text::lemma_occurs_last(start, d);
    text::lemma_occurs_longer(start + d, middle, d);
    text::lemma_occurs_longer(start + d + middle, s, d);
    text::lemma_occurs_last(start + d + middle, s);
}

} // verus!
