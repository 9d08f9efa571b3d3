//! What the window keeps of the preview and the file browser, and how a click
//! changes it.

use vstd::prelude::*;

use crate::actions;
use crate::actions::{ProgressStep, TagBatch};
use crate::browser;
use crate::browser::{
    build_file_browser_rows, handle_sort_column_click, sort_docs, FileBrowserRow, SortColumn,
    SortDirection, PDF_TYPE,
};
use crate::json;
use crate::messages::IndexerProgress;
use crate::preview;
use crate::preview::{RenderRequest, RenderResult};
use crate::search::query::ResultModel;
use crate::session;
use crate::session::SearchState;
use crate::tags::model;
use crate::tags::model::{DocumentInfo, Row};
use crate::text;

verus! {

// ── The preview ──

/// What the window keeps of the preview.
#[derive(Debug, Clone)]
pub struct PreviewState {
    /// A rendered page is on display.
    pub has_texture: bool,
    pub text: Option<String>,
    pub file_type: Option<String>,
    /// The page, counted from 1.
    pub current_page: usize,
    /// How many pages the document has; 0 where that is not known yet.
    pub page_count: usize,
    /// The zoom, in percent.
    pub zoom_percent: u32,
    pub panel_width: u32,
    pub panel_height: u32,
    /// The number of the last request: answers to earlier ones are stale.
    pub latest_request_id: u64,
    /// The document that was asked for last.
    pub path: Option<String>,
}

/// What the window keeps of the preview.
#[verifier::ext_equal]
pub struct PreviewModel {
    pub has_texture: bool,
    pub text: Option<Seq<char>>,
    pub file_type: Option<Seq<char>>,
    pub current_page: usize,
    pub page_count: usize,
    pub zoom_percent: u32,
    pub panel_width: u32,
    pub panel_height: u32,
    pub latest_request_id: u64,
    pub path: Option<Seq<char>>,
}

impl View for PreviewState {
    type V = PreviewModel;

    open spec fn view(&self) -> PreviewModel {
        PreviewModel {
            has_texture: self.has_texture,
            text: model::opt_text(self.text),
            file_type: model::opt_text(self.file_type),
            current_page: self.current_page,
            page_count: self.page_count,
            zoom_percent: self.zoom_percent,
            panel_width: self.panel_width,
            panel_height: self.panel_height,
            latest_request_id: self.latest_request_id,
            path: model::opt_text(self.path),
        }
    }
}

/// The request that is made next for a document: the page at hand, as the panel
/// shows it.
pub open spec fn next_request(m: PreviewModel, path: Seq<char>) -> preview::RequestModel {
    preview::RequestModel {
        request_id: (m.latest_request_id + 1) as u64,
        path: path,
        page: m.current_page,
        zoom_percent: m.zoom_percent,
        target_width: m.panel_width,
        target_height: m.panel_height,
        priority: 1,
    }
}

/// The preview once a render of a document was asked for.
pub open spec fn after_request(m: PreviewModel, path: Seq<char>) -> PreviewModel {
    PreviewModel {
        latest_request_id: (m.latest_request_id + 1) as u64,
        path: Some(path),
        ..m
    }
}

/// The preview once another document was opened: it starts at its first page, and
/// what was on display is gone.
pub open spec fn turned_to_first(m: PreviewModel) -> PreviewModel {
    PreviewModel { current_page: 1, has_texture: false, page_count: 0, ..m }
}

/// What becomes of an answer of the renderer.
#[derive(Debug, Clone)]
pub enum ResultUse {
    /// The answer is not to the last request: it is passed over.
    Stale,
    /// The render failed: what is on display stays.
    Failed,
    /// The page goes on display; the request warms the cache with the next one.
    Show(Option<RenderRequest>),
}

/// An answer is to the last request, and of the document that was asked for.
pub open spec fn is_current(m: PreviewModel, r: RenderResult) -> bool {
    r.request_id == m.latest_request_id && m.path == Some(r.path@)
}

/// The preview once an answer came that is current.
pub open spec fn after_result(m: PreviewModel, r: RenderResult) -> PreviewModel {
    PreviewModel {
        page_count: if r.page_count > 0 {
            r.page_count
        } else {
            m.page_count
        },
        has_texture: m.has_texture || (r.width > 0 && r.height > 0),
        ..m
    }
}

/// Nothing is shown: a panel of the first size, at full size and page 1.
pub open spec fn blank_preview() -> PreviewModel {
    PreviewModel {
        has_texture: false,
        text: None,
        file_type: None,
        current_page: 1,
        page_count: 0,
        zoom_percent: 100,
        panel_width: 800,
        panel_height: 600,
        latest_request_id: 0,
        path: None,
    }
}

impl PreviewState {
    /// Nothing is shown yet.
    pub fn new() -> (r: Self)
        ensures
            r@ == blank_preview(),
    {
        PreviewState {
            has_texture: false,
            text: None,
            file_type: None,
            current_page: 1,
            page_count: 0,
            zoom_percent: 100,
            panel_width: 800,
            panel_height: 600,
            latest_request_id: 0,
            path: None,
        }
    }

    /// Ask for a render of the page at hand of a document.
    pub fn request_page_render(&mut self, path: &str) -> (r: RenderRequest)
        requires
            old(self)@.latest_request_id < u64::MAX,
        ensures
            r@ == next_request(old(self)@, path@),
            final(self)@ == after_request(old(self)@, path@),
    {
        self.latest_request_id = self.latest_request_id + 1;
        self.path = Some(text::copy_str(path));
        RenderRequest {
            request_id: self.latest_request_id,
            path: text::copy_str(path),
            page: self.current_page,
            zoom_percent: self.zoom_percent,
            target_width: self.panel_width,
            target_height: self.panel_height,
            priority: 1,
        }
    }

    /// An answer came from the renderer. A page goes on display where the answer is
    /// to the last request; once it is shown in full, the next page is asked for in
    /// advance, under the number 0, which no answer is taken by.
    pub fn on_render_result(&mut self, result: &RenderResult) -> (r: ResultUse)
        ensures
            !is_current(old(self)@, *result) ==> r is Stale && final(self)@ == old(self)@,
            is_current(old(self)@, *result) ==> {
                let after = after_result(old(self)@, *result);
                &&& final(self)@ == after
                &&& if result.width > 0 && result.height > 0 {
                    &&& r is Show
                    &&& r->Show_0 is Some <==> !result.is_preview && after.current_page
                        < after.page_count
                    &&& r->Show_0 is Some ==> r->Show_0->0@ == (preview::RequestModel {
                        request_id: 0,
                        page: (after.current_page + 1) as usize,
                        priority: 0,
                        ..next_request(after, result.path@)
                    })
                } else {
                    r is Failed
                }
            },
    {
        if result.request_id != self.latest_request_id {
            return ResultUse::Stale;
        }
        let same: bool = match &self.path {
            Some(path) => text::same_text(path.as_str(), result.path.as_str()),
            None => false,
        };
        if !same {
            return ResultUse::Stale;
        }
        if result.page_count > 0 {
            self.page_count = result.page_count;
        }
        if !(result.width > 0 && result.height > 0) {
            return ResultUse::Failed;
        }
        self.has_texture = true;
        if result.is_preview || self.current_page >= self.page_count {
            return ResultUse::Show(None);
        }
        ResultUse::Show(
            Some(
                RenderRequest {
                    request_id: 0,
                    path: text::copy_str(result.path.as_str()),
                    page: self.current_page + 1,
                    zoom_percent: self.zoom_percent,
                    target_width: self.panel_width,
                    target_height: self.panel_height,
                    priority: 0,
                },
            ),
        )
    }

    /// The text of a file was read for display.
    pub fn on_text(&mut self, shown: String)
        ensures
            final(self)@ == (PreviewModel { text: Some(shown@), ..old(self)@ }),
    {
        self.text = Some(shown);
    }

    /// Turn a page back, where there is one. Returns whether a page was turned.
    pub fn previous_page(&mut self) -> (r: bool)
        ensures
            r == (old(self)@.current_page > 1),
            final(self)@ == if r {
                PreviewModel { current_page: (old(self)@.current_page - 1) as usize, ..old(self)@ }
            } else {
                old(self)@
            },
    {
        if self.current_page > 1 {
            self.current_page = self.current_page - 1;
            true
        } else {
            false
        }
    }

    /// Turn a page on, unless the last one is at hand. Returns whether a page was
    /// turned.
    pub fn next_page(&mut self) -> (r: bool)
        requires
            old(self)@.current_page < usize::MAX,
        ensures
            r == !(old(self)@.page_count > 0 && old(self)@.current_page >= old(self)@.page_count),
            final(self)@ == if r {
                PreviewModel { current_page: (old(self)@.current_page + 1) as usize, ..old(self)@ }
            } else {
                old(self)@
            },
    {
        if self.page_count > 0 && self.current_page >= self.page_count {
            false
        } else {
            self.current_page = self.current_page + 1;
            true
        }
    }

    /// Zoom out by a quarter, down to a quarter. Returns whether the zoom changed.
    pub fn zoom_out(&mut self) -> (r: bool)
        ensures
            r == (old(self)@.zoom_percent > 25),
            final(self)@ == if r {
                PreviewModel { zoom_percent: (old(self)@.zoom_percent - 25) as u32, ..old(self)@ }
            } else {
                old(self)@
            },
    {
        if self.zoom_percent > 25 {
            self.zoom_percent = self.zoom_percent - 25;
            true
        } else {
            false
        }
    }

    /// Zoom in by a quarter, up to four times. Returns whether the zoom changed.
    pub fn zoom_in(&mut self) -> (r: bool)
        ensures
            r == (old(self)@.zoom_percent < 400),
            final(self)@ == if r {
                PreviewModel { zoom_percent: (old(self)@.zoom_percent + 25) as u32, ..old(self)@ }
            } else {
                old(self)@
            },
    {
        if self.zoom_percent < 400 {
            self.zoom_percent = self.zoom_percent + 25;
            true
        } else {
            false
        }
    }
}

/// An answer to an earlier request, of another document, or to a request that was
/// made in advance, never changes what is on display.
pub proof fn stale_answers_are_passed_over(m: PreviewModel, r: RenderResult, path: Seq<char>)
    ensures
        is_current(m, r) && m.latest_request_id < u64::MAX ==> !is_current(
            after_request(m, path),
            r,
        ),
        m.path != Some(r.path@) ==> !is_current(m, r),
        r.request_id == 0 && m.latest_request_id > 0 ==> !is_current(m, r),
{
}

/// The zoom stays between a quarter and four times, in steps of a quarter.
pub open spec fn is_zoom(percent: int) -> bool {
    25 <= percent <= 400 && percent % 25 == 0
}

/// Zooming keeps the zoom within its limits.
pub proof fn zooming_stays_within_limits(percent: int)
    requires
        is_zoom(percent),
    ensures
        percent > 25 ==> is_zoom(percent - 25),
        percent < 400 ==> is_zoom(percent + 25),
{
}

// ── The file browser ──

/// How many frames pass between two refreshes while files are indexed.
pub const REFRESH_COOLDOWN: usize = 30;

/// After how many frames the browser is refreshed in any case.
pub const REFRESH_PERIOD: usize = 300;

/// What the window keeps of the file browser.
#[derive(Debug, Clone)]
pub struct BrowserState {
    pub docs: Vec<DocumentInfo>,
    pub rows: Vec<FileBrowserRow>,
    /// The rows are to be fetched anew.
    pub dirty: bool,
    pub refresh_cooldown: usize,
    pub periodic_timer: usize,
    /// The file that is shown from the browser, not from the search.
    pub browsed_file: Option<String>,
    /// The content hash of that file, and whether it has tags.
    pub browsed_row: Option<(String, bool)>,
    /// The files that are selected to be tagged.
    pub selected_files: Vec<String>,
    pub sort_column: SortColumn,
    pub sort_direction: SortDirection,
}

/// What the window keeps of the file browser.
#[verifier::ext_equal]
pub struct BrowserModel {
    pub docs: Seq<model::InfoModel>,
    pub rows: Seq<FileBrowserRow>,
    pub dirty: bool,
    pub refresh_cooldown: usize,
    pub periodic_timer: usize,
    pub browsed_file: Option<Seq<char>>,
    pub browsed_row: Option<(Seq<char>, bool)>,
    pub selected_files: Seq<Seq<char>>,
    pub sort_column: SortColumn,
    pub sort_direction: SortDirection,
}

impl View for BrowserState {
    type V = BrowserModel;

    open spec fn view(&self) -> BrowserModel {
        BrowserModel {
            docs: model::views(self.docs@),
            rows: self.rows@,
            dirty: self.dirty,
            refresh_cooldown: self.refresh_cooldown,
            periodic_timer: self.periodic_timer,
            browsed_file: model::opt_text(self.browsed_file),
            browsed_row: match self.browsed_row {
                Some((hash, has_tags)) => Some((hash@, has_tags)),
                None => None,
            },
            selected_files: text::texts(self.selected_files@),
            sort_column: self.sort_column,
            sort_direction: self.sort_direction,
        }
    }
}

/// What the first row of a file says: its content hash, and whether it has tags.
pub open spec fn row_of(rows: Seq<FileBrowserRow>, path: Seq<char>) -> Option<(Seq<char>, bool)>
    decreases rows.len(),
{
    if rows.len() == 0 {
        None
    } else if rows[0].file_path@ == path {
        Some((rows[0].content_hash@, rows[0].has_tags))
    } else {
        row_of(rows.skip(1), path)
    }
}

/// What the row of the browsed file says, where a file is browsed.
pub open spec fn browsed_row_of(rows: Seq<FileBrowserRow>, path: Option<Seq<char>>) -> Option<
    (Seq<char>, bool),
> {
    match path {
        Some(p) => row_of(rows, p),
        None => None,
    }
}

/// What the first row of a file says.
fn find_row_of(rows: &Vec<FileBrowserRow>, path: &str) -> (r: Option<(String, bool)>)
    ensures
        match r {
            Some((hash, has_tags)) => row_of(rows@, path@) == Some((hash@, has_tags)),
            None => row_of(rows@, path@) is None,
        },
{
    let mut i: usize = 0;
    assert(rows@.skip(0) =~= rows@);
    while i < rows.len()
        invariant
            i <= rows@.len(),
            row_of(rows@, path@) == row_of(rows@.skip(i as int), path@),
        decreases rows@.len() - i,
    {
        proof {
            assert(rows@.skip(i as int)[0] == rows@[i as int]);
            assert(rows@.skip(i as int).skip(1) =~= rows@.skip(i + 1));
        }
        if text::same_text(rows[i].file_path.as_str(), path) {
            return Some((text::copy_str(rows[i].content_hash.as_str()), rows[i].has_tags));
        }
        i = i + 1;
    }
    None
}

/// A document is the first at a path.
pub open spec fn is_first_at(docs: Seq<model::InfoModel>, path: Seq<char>, i: int) -> bool {
    &&& 0 <= i < docs.len()
    &&& docs[i].path == path
    &&& forall|k: int| 0 <= k < i ==> (#[trigger] docs[k]).path != path
}

/// The browser once a snapshot of the documents came: they are sorted as the
/// header says, each has its row, and the row of the browsed file is found anew.
pub open spec fn is_after_snapshot(
    before: BrowserModel,
    docs: Seq<model::InfoModel>,
    after: BrowserModel,
) -> bool {
    &&& browser::is_sorted(before.sort_column, before.sort_direction, docs, after.docs)
    &&& browser::are_rows(after.docs, after.rows)
    &&& after == (BrowserModel {
        docs: after.docs,
        rows: after.rows,
        dirty: false,
        browsed_row: browsed_row_of(after.rows, before.browsed_file),
        ..before
    })
}

/// Nothing was fetched: the rows are asked for, and sorted by name.
pub open spec fn blank_browser() -> BrowserModel {
    BrowserModel {
        docs: Seq::empty(),
        rows: Seq::empty(),
        dirty: true,
        refresh_cooldown: 0,
        periodic_timer: 0,
        browsed_file: None,
        browsed_row: None,
        selected_files: Seq::empty(),
        sort_column: SortColumn::Name,
        sort_direction: SortDirection::Ascending,
    }
}

impl BrowserState {
    /// Nothing was fetched yet.
    pub fn new() -> (r: Self)
        ensures
            r@ == blank_browser(),
    {
        let r = BrowserState {
            docs: Vec::new(),
            rows: Vec::new(),
            dirty: true,
            refresh_cooldown: 0,
            periodic_timer: 0,
            browsed_file: None,
            browsed_row: None,
            selected_files: Vec::new(),
            sort_column: SortColumn::Name,
            sort_direction: SortDirection::Ascending,
        };
        assert(r@.docs =~= Seq::<model::InfoModel>::empty());
        assert(r@.selected_files =~= Seq::<Seq<char>>::empty());
        r
    }

    /// Find the row of the browsed file anew.
    fn refresh_browsed_row(&mut self)
        ensures
            final(self)@ == (BrowserModel {
                browsed_row: browsed_row_of(old(self)@.rows, old(self)@.browsed_file),
                ..old(self)@
            }),
    {
        self.browsed_row = match &self.browsed_file {
            Some(path) => find_row_of(&self.rows, path.as_str()),
            None => None,
        };
    }

    /// Apply a snapshot of the documents.
    pub fn apply_docs_snapshot(&mut self, docs: Vec<DocumentInfo>)
        ensures
            is_after_snapshot(old(self)@, model::views(docs@), final(self)@),
    {
        let mut sorted: Vec<DocumentInfo> = docs;
        sort_docs(&mut sorted, self.sort_column, self.sort_direction);
        self.rows = build_file_browser_rows(sorted.as_slice());
        self.docs = sorted;
        self.refresh_browsed_row();
        self.dirty = false;
    }

    /// A file is shown from the browser.
    pub fn browse(&mut self, path: &str)
        ensures
            final(self)@ == (BrowserModel {
                browsed_file: Some(path@),
                browsed_row: row_of(old(self)@.rows, path@),
                ..old(self)@
            }),
    {
        self.browsed_file = Some(text::copy_str(path));
        self.refresh_browsed_row();
    }

    /// No file is shown from the browser any more.
    pub fn leave(&mut self)
        ensures
            final(self)@ == (BrowserModel {
                browsed_file: None,
                browsed_row: None,
                ..old(self)@
            }),
    {
        self.browsed_file = None;
        self.browsed_row = None;
    }

    /// The document of a file, where the browser knows it: the first with its path.
    pub fn document_at(&self, path: &str) -> (r: Option<DocumentInfo>)
        ensures
            match r {
                Some(d) => exists|i: int| #[trigger] is_first_at(self@.docs, path@, i) && d@ == self@.docs[i],
                None => forall|i: int|
                    0 <= i < self@.docs.len() ==> (#[trigger] self@.docs[i]).path != path@,
            },
    {
        let mut i: usize = 0;
        while i < self.docs.len()
            invariant
                i <= self.docs@.len(),
                forall|k: int| 0 <= k < i ==> (#[trigger] self@.docs[k]).path != path@,
            decreases self.docs@.len() - i,
        {
            assert(self@.docs[i as int] == self.docs@[i as int]@);
            if text::same_text(self.docs[i].file_path.as_str(), path) {
                assert(is_first_at(self@.docs, path@, i as int));
                return Some(self.docs[i].duplicate());
            }
            i = i + 1;
        }
        None
    }

    /// Select a file to be tagged, or no longer.
    pub fn toggle_selected(&mut self, path: &str)
        ensures
            final(self)@ == (BrowserModel {
                selected_files: session::toggled(old(self)@.selected_files, path@),
                ..old(self)@
            }),
    {
        session::toggle(&mut self.selected_files, path);
    }

    /// A column header was clicked: the rows are to be sorted by it.
    pub fn click_header(&mut self, column: SortColumn)
        ensures
            final(self)@ == (BrowserModel {
                sort_column: column,
                sort_direction: if old(self)@.sort_column == column {
                    browser::turned(old(self)@.sort_direction)
                } else {
                    SortDirection::Ascending
                },
                dirty: true,
                ..old(self)@
            }),
    {
        let (new_column, new_direction): (SortColumn, SortDirection) = handle_sort_column_click(
            self.sort_column,
            self.sort_direction,
            column,
        );
        self.sort_column = new_column;
        self.sort_direction = new_direction;
        self.dirty = true;
    }

    /// A file was indexed: the rows are to be fetched anew, but not too often.
    pub fn on_file_indexed(&mut self)
        ensures
            final(self)@ == if old(self)@.refresh_cooldown == 0 {
                BrowserModel { dirty: true, refresh_cooldown: REFRESH_COOLDOWN, ..old(self)@ }
            } else {
                old(self)@
            },
    {
        if self.refresh_cooldown == 0 {
            self.dirty = true;
            self.refresh_cooldown = REFRESH_COOLDOWN;
        }
    }

    /// A frame has passed.
    pub fn tick(&mut self)
        requires
            old(self)@.periodic_timer < usize::MAX,
        ensures
            ({
                let due = old(self)@.periodic_timer + 1 >= REFRESH_PERIOD;
                final(self)@ == (BrowserModel {
                    refresh_cooldown: if old(self)@.refresh_cooldown > 0 {
                        (old(self)@.refresh_cooldown - 1) as usize
                    } else {
                        0
                    },
                    periodic_timer: if due {
                        0
                    } else {
                        (old(self)@.periodic_timer + 1) as usize
                    },
                    dirty: old(self)@.dirty || due,
                    ..old(self)@
                })
            }),
            final(self)@.periodic_timer < REFRESH_PERIOD,
    {
        if self.refresh_cooldown > 0 {
            self.refresh_cooldown = self.refresh_cooldown - 1;
        }
        self.periodic_timer = self.periodic_timer + 1;
        if self.periodic_timer >= REFRESH_PERIOD {
            self.periodic_timer = 0;
            self.dirty = true;
        }
    }
}

// ── The window ──

/// What is to be done once a document was chosen.
#[derive(Debug, Clone)]
pub enum OpenAction {
    /// There is no such document.
    Nothing,
    /// A page is to be rendered.
    Render(RenderRequest),
    /// A text file is to be read for display.
    LoadText(String),
}

/// What the window keeps.
#[derive(Debug, Clone)]
pub struct Session {
    pub search: SearchState,
    pub preview: PreviewState,
    pub browser: BrowserState,
    pub status_message: String,
    pub indexing_total: usize,
    pub indexing_done: usize,
    /// How many documents of a batch are tagged, and how many it has.
    pub auto_tag_progress: Option<(usize, usize)>,
}

/// What the window keeps.
#[verifier::ext_equal]
pub struct SessionModel {
    pub search: session::SearchModel,
    pub preview: PreviewModel,
    pub browser: BrowserModel,
    pub status: Seq<char>,
    pub indexing_total: usize,
    pub indexing_done: usize,
    pub progress: Option<(usize, usize)>,
}

impl View for Session {
    type V = SessionModel;

    open spec fn view(&self) -> SessionModel {
        SessionModel {
            search: self.search@,
            preview: self.preview@,
            browser: self.browser@,
            status: self.status_message@,
            indexing_total: self.indexing_total,
            indexing_done: self.indexing_done,
            progress: self.auto_tag_progress,
        }
    }
}

/// A path ends like that of a PDF, whatever the case of its letters.
pub open spec fn ends_as_pdf(path: Seq<char>) -> bool {
    text::ends_with(text::lowercase(path), ".pdf"@)
}

/// A result is a PDF: by its type, or by its path.
pub open spec fn is_pdf_result(r: ResultModel) -> bool {
    r.file_type == PDF_TYPE@ || ends_as_pdf(r.file_path)
}

/// The preview once a document was opened: a page of a PDF is asked for, and of any
/// other file the text is to be read.
pub open spec fn after_open(
    m: PreviewModel,
    path: Seq<char>,
    is_pdf: bool,
    file_type: Seq<char>,
) -> PreviewModel {
    let first = turned_to_first(m);
    if is_pdf {
        PreviewModel { text: None, file_type: Some(PDF_TYPE@), ..after_request(first, path) }
    } else {
        PreviewModel { file_type: Some(file_type), ..first }
    }
}

/// The window once a file of the browser was opened.
pub open spec fn browsing(m: SessionModel, path: Seq<char>) -> SessionModel {
    SessionModel {
        search: session::SearchModel { selected_result: None, ..m.search },
        browser: BrowserModel {
            browsed_file: Some(path),
            browsed_row: row_of(m.browser.rows, path),
            ..m.browser
        },
        preview: after_open(m.preview, path, ends_as_pdf(path), "txt"@),
        ..m
    }
}

/// What follows from the number of documents that the tagger has finished: nothing
/// where no batch runs.
pub open spec fn step_of_batch(m: SessionModel, completed: usize) -> ProgressStep {
    match m.progress {
        Some((shown, total)) => actions::step_of(shown, total, completed),
        None => ProgressStep::Same,
    }
}

/// The window once the tagger has gone on.
pub open spec fn after_step(m: SessionModel, step: ProgressStep) -> SessionModel {
    let (_, total) = m.progress->0;
    match step {
        ProgressStep::Same => m,
        ProgressStep::Moved(count) => SessionModel {
            progress: Some((count, total)),
            browser: BrowserModel { dirty: true, ..m.browser },
            ..m
        },
        ProgressStep::Finished => SessionModel {
            progress: None,
            browser: BrowserModel { dirty: true, ..m.browser },
            status: "Tagging complete — "@ + json::decimal(total as nat) + " files processed"@,
            ..m
        },
    }
}

/// What is to be done for a document that was opened.
pub open spec fn is_open_action(
    m: PreviewModel,
    path: Seq<char>,
    is_pdf: bool,
    action: OpenAction,
) -> bool {
    if is_pdf {
        action matches OpenAction::Render(request) && request@ == next_request(
            turned_to_first(m),
            path,
        )
    } else {
        action matches OpenAction::LoadText(p) && p@ == path
    }
}

/// Whether a path ends like that of a PDF.
fn path_ends_as_pdf(path: &str) -> (r: bool)
    ensures
        r == ends_as_pdf(path@),
{
    let lower: String = text::to_lowercase(path);
    let chars: Vec<char> = text::chars_of(lower.as_str());
    let suffix: Vec<char> = text::chars_of(".pdf");
    if chars.len() < suffix.len() {
        return false;
    }
    let at: usize = chars.len() - suffix.len();
    let r: bool = text::chars_match_at(&chars, &suffix, at);
    assert(chars@.skip(at as int).take(suffix@.len() as int) =~= chars@.skip(at as int));
    r
}

impl Session {
    /// The start.
    pub fn new(status_message: String) -> (r: Self)
        ensures
            r@ == (SessionModel {
                search: session::blank_search(),
                preview: blank_preview(),
                browser: blank_browser(),
                status: status_message@,
                indexing_total: 0,
                indexing_done: 0,
                progress: None,
            }),
    {
        Session {
            search: SearchState::new(),
            preview: PreviewState::new(),
            browser: BrowserState::new(),
            status_message: status_message,
            indexing_total: 0,
            indexing_done: 0,
            auto_tag_progress: None,
        }
    }

    /// Open a document in the preview.
    fn open(&mut self, path: &str, is_pdf: bool, file_type: &str) -> (r: OpenAction)
        requires
            old(self)@.preview.latest_request_id < u64::MAX,
        ensures
            final(self)@ == (SessionModel {
                preview: after_open(old(self)@.preview, path@, is_pdf, file_type@),
                ..old(self)@
            }),
            is_open_action(old(self)@.preview, path@, is_pdf, r),
    {
        self.preview.current_page = 1;
        self.preview.has_texture = false;
        self.preview.page_count = 0;
        if is_pdf {
            let request: RenderRequest = self.preview.request_page_render(path);
            self.preview.text = None;
            self.preview.file_type = Some(text::copy_str(PDF_TYPE));
            OpenAction::Render(request)
        } else {
            self.preview.file_type = Some(text::copy_str(file_type));
            OpenAction::LoadText(text::copy_str(path))
        }
    }

    /// Select a search result and open it in the preview. A place that no result
    /// has changes nothing.
    pub fn select_result(&mut self, index: usize) -> (r: OpenAction)
        requires
            old(self)@.preview.latest_request_id < u64::MAX,
        ensures
            index >= old(self)@.search.results.len() ==> r is Nothing && final(self)@ == old(
                self,
            )@,
            index < old(self)@.search.results.len() ==> {
                let chosen = old(self)@.search.results[index as int];
                &&& final(self)@ == (SessionModel {
                    search: session::SearchModel {
                        selected_result: Some(index),
                        selected_hash: Some(chosen.content_hash),
                        ..old(self)@.search
                    },
                    browser: BrowserModel {
                        browsed_file: None,
                        browsed_row: None,
                        ..old(self)@.browser
                    },
                    preview: after_open(
                        old(self)@.preview,
                        chosen.file_path,
                        is_pdf_result(chosen),
                        chosen.file_type,
                    ),
                    ..old(self)@
                })
                &&& is_open_action(
                    old(self)@.preview,
                    chosen.file_path,
                    is_pdf_result(chosen),
                    r,
                )
            },
    {
        if index >= self.search.results.len() {
            return OpenAction::Nothing;
        }
        let ghost chosen = self.search@.results[index as int];
        assert(chosen == self.search.results@[index as int]@);
        self.browser.leave();
        let hash: String = text::copy_str(self.search.results[index].content_hash.as_str());
        let path: String = text::copy_str(self.search.results[index].file_path.as_str());
        let file_type: String = text::copy_str(self.search.results[index].file_type.as_str());
        self.search.selected_result = Some(index);
        self.search.selected_hash = Some(hash);
        let is_pdf: bool = text::same_text(file_type.as_str(), PDF_TYPE) || path_ends_as_pdf(
            path.as_str(),
        );
        self.open(path.as_str(), is_pdf, file_type.as_str())
    }

    /// Open a file of the browser in the preview.
    pub fn browse_file(&mut self, path: &str) -> (r: OpenAction)
        requires
            old(self)@.preview.latest_request_id < u64::MAX,
        ensures
            final(self)@ == browsing(old(self)@, path@),
            is_open_action(old(self)@.preview, path@, ends_as_pdf(path@), r),
    {
        self.browser.browse(path);
        self.search.selected_result = None;
        let is_pdf: bool = path_ends_as_pdf(path);
        self.open(path, is_pdf, "txt")
    }

    /// A row of the browser was clicked: with Ctrl held the file is ticked, or no
    /// longer, and otherwise it is opened, and no file is ticked any more.
    pub fn click_row(&mut self, path: &str, content_hash: &str, ctrl: bool) -> (r: OpenAction)
        requires
            old(self)@.preview.latest_request_id < u64::MAX,
        ensures
            ctrl ==> r is Nothing && final(self)@ == (SessionModel {
                browser: BrowserModel {
                    selected_files: session::toggled(old(self)@.browser.selected_files, path@),
                    ..old(self)@.browser
                },
                ..old(self)@
            }),
            !ctrl ==> {
                &&& is_open_action(old(self)@.preview, path@, ends_as_pdf(path@), r)
                &&& final(self)@ == browsing(
                    SessionModel {
                        search: session::SearchModel {
                            selected_hash: Some(content_hash@),
                            ..old(self)@.search
                        },
                        browser: BrowserModel {
                            selected_files: Seq::empty(),
                            ..old(self)@.browser
                        },
                        ..old(self)@
                    },
                    path@,
                )
            },
    {
        if ctrl {
            self.browser.toggle_selected(path);
            return OpenAction::Nothing;
        }
        self.search.selected_hash = Some(text::copy_str(content_hash));
        self.browser.selected_files = Vec::new();
        assert(self@.browser.selected_files =~= Seq::<Seq<char>>::empty());
        self.browse_file(path)
    }

    /// The ticked files were queued to be tagged, or as many of them as the queue
    /// took.
    pub fn on_batch(&mut self, batch: &TagBatch)
        ensures
            final(self)@ == (SessionModel {
                progress: batch.progress_shown(),
                status: batch.status_shown(),
                browser: BrowserModel {
                    selected_files: Seq::empty(),
                    dirty: true,
                    ..old(self)@.browser
                },
                ..old(self)@
            }),
    {
        self.auto_tag_progress = batch.progress();
        self.status_message = batch.status();
        self.browser.selected_files = Vec::new();
        assert(self@.browser.selected_files =~= Seq::<Seq<char>>::empty());
        self.browser.dirty = true;
    }

    /// The tagger has finished so many documents since the batch began. Once all are
    /// done the batch is over.
    pub fn on_tag_progress(&mut self, completed: usize) -> (r: ProgressStep)
        ensures
            r == step_of_batch(old(self)@, completed),
            final(self)@ == after_step(old(self)@, r),
    {
        let (shown, total): (usize, usize) = match self.auto_tag_progress {
            Some(p) => p,
            None => return ProgressStep::Same,
        };
        let step: ProgressStep = actions::progress_step(shown, total, completed);
        match step {
            ProgressStep::Same => {},
            ProgressStep::Moved(count) => {
                self.browser.dirty = true;
                self.auto_tag_progress = Some((count, total));
            },
            ProgressStep::Finished => {
                self.browser.dirty = true;
                self.auto_tag_progress = None;
                let count: String = json::decimal_text(total as u64);
                let mut message: String = text::copy_str("Tagging complete — ");
                message.append(count.as_str());
                message.append(" files processed");
                self.status_message = message;
            },
        }
        step
    }

    /// Another folder was chosen: the file that is shown from the old one is left.
    pub fn on_folder_switch(&mut self)
        ensures
            final(self)@ == (SessionModel {
                browser: BrowserModel { browsed_file: None, ..old(self)@.browser },
                status: "Switching folder..."@,
                ..old(self)@
            }),
    {
        self.browser.browsed_file = None;
        self.status_message = text::copy_str("Switching folder...");
    }

    /// The document that is on display: the selected result, or else the browsed
    /// file.
    pub fn shown_path(&self) -> (r: Option<String>)
        ensures
            model::opt_text(r) == match self@.search.selected_result {
                Some(i) => if i < self@.search.results.len() {
                    Some(self@.search.results[i as int].file_path)
                } else {
                    None
                },
                None => self@.browser.browsed_file,
            },
    {
        match self.search.selected_result {
            Some(i) => {
                if i < self.search.results.len() {
                    assert(self.search@.results[i as int] == self.search.results@[i as int]@);
                    Some(text::copy_str(self.search.results[i].file_path.as_str()))
                } else {
                    None
                }
            },
            None => model::copy_opt(&self.browser.browsed_file),
        }
    }

    /// The indexer told something.
    pub fn on_indexer_progress(&mut self, progress: IndexerProgress)
        ensures
            match progress {
                IndexerProgress::Progress { processed } => final(self)@ == (SessionModel {
                    indexing_done: processed,
                    browser: if old(self)@.browser.refresh_cooldown == 0 {
                        BrowserModel {
                            dirty: true,
                            refresh_cooldown: REFRESH_COOLDOWN,
                            ..old(self)@.browser
                        }
                    } else {
                        old(self)@.browser
                    },
                    ..old(self)@
                }),
                IndexerProgress::ScanComplete { total } => final(self)@ == (SessionModel {
                    indexing_done: total,
                    indexing_total: total,
                    browser: BrowserModel { dirty: true, ..old(self)@.browser },
                    ..old(self)@
                }),
                IndexerProgress::Error { path, error } => final(self)@ == (SessionModel {
                    status: "Error indexing "@ + path@ + ": "@ + error@,
                    ..old(self)@
                }),
                IndexerProgress::DocsSnapshot { docs } => {
                    &&& is_after_snapshot(
                        old(self)@.browser,
                        model::views(docs@),
                        final(self)@.browser,
                    )
                    &&& final(self)@ == (SessionModel {
                        browser: final(self)@.browser,
                        ..old(self)@
                    })
                },
            },
    {
        match progress {
            IndexerProgress::Progress { processed } => {
                self.indexing_done = processed;
                self.browser.on_file_indexed();
            },
            IndexerProgress::ScanComplete { total } => {
                self.indexing_total = total;
                self.indexing_done = total;
                self.browser.dirty = true;
            },
            IndexerProgress::Error { path, error } => {
                let mut message: String = text::copy_str("Error indexing ");
                message.append(path.as_str());
                message.append(": ");
                message.append(error.as_str());
                self.status_message = message;
            },
            IndexerProgress::DocsSnapshot { docs } => {
                self.browser.apply_docs_snapshot(docs);
            },
        }
    }
}

// ── What is shown ──

/// What the preview panel shows.
#[derive(Debug, Clone, Copy, PartialEq, Eq, Structural)]
pub enum Pane {
    /// The index could not be opened.
    EngineFailed,
    /// No folder is watched yet.
    NoFolder,
    /// Nothing is searched for and nothing is selected.
    AskForQuery,
    /// The search found nothing.
    NoResults,
    /// A rendered page.
    Page,
    /// A PDF that is not rendered: the renderer is missing, or has not answered.
    NoRendering,
    /// A text.
    Text,
    /// Nothing.
    Blank,
}

/// What the preview panel shows: where nothing can be found it says why, and
/// otherwise it shows the page, or the text, of the document at hand.
pub open spec fn pane_of(m: SessionModel, has_folder: bool, has_engine: bool) -> Pane {
    if has_folder && !has_engine {
        Pane::EngineFailed
    } else if !has_folder {
        Pane::NoFolder
    } else if m.search.selected_result is None && m.search.query.len() == 0 && m.browser.browsed_file
        is None {
        Pane::AskForQuery
    } else if m.search.results.len() == 0 && text::trim(m.search.query).len() > 0 {
        Pane::NoResults
    } else if m.preview.has_texture {
        Pane::Page
    } else if m.browser.browsed_file is Some && ends_as_pdf(m.browser.browsed_file->0) {
        Pane::NoRendering
    } else if m.preview.text is Some {
        Pane::Text
    } else {
        Pane::Blank
    }
}

impl Session {
    /// What the preview panel shows.
    pub fn pane(&self, has_folder: bool, has_engine: bool) -> (r: Pane)
        ensures
            r == pane_of(self@, has_folder, has_engine),
    {
        if has_folder && !has_engine {
            return Pane::EngineFailed;
        }
        if !has_folder {
            return Pane::NoFolder;
        }
        if self.search.selected_result.is_none() && self.search.query.as_str().is_empty()
            && self.browser.browsed_file.is_none() {
            return Pane::AskForQuery;
        }
        let trimmed: String = text::trim_text(self.search.query.as_str());
        if self.search.results.len() == 0 && !trimmed.as_str().is_empty() {
            return Pane::NoResults;
        }
        if self.preview.has_texture {
            return Pane::Page;
        }
        if let Some(path) = &self.browser.browsed_file {
            if path_ends_as_pdf(path.as_str()) {
                return Pane::NoRendering;
            }
        }
        if self.preview.text.is_some() {
            Pane::Text
        } else {
            Pane::Blank
        }
    }
}

/// What is said of the indexing: nothing before the first file.
pub fn indexing_label(done: usize, total: usize) -> (r: Option<String>)
    ensures
        r is Some <==> done > 0,
        r is Some ==> r->0@ == if total > 0 {
            "Indexed "@ + json::decimal(done as nat) + "/"@ + json::decimal(total as nat)
        } else {
            "Indexed "@ + json::decimal(done as nat) + " files…"@
        },
{
    if done == 0 {
        return None;
    }
    let done_text: String = json::decimal_text(done as u64);
    let mut r: String = text::copy_str("Indexed ");
    r.append(done_text.as_str());
    if total > 0 {
        let total_text: String = json::decimal_text(total as u64);
        r.append("/");
        r.append(total_text.as_str());
    } else {
        r.append(" files…");
    }
    Some(r)
}

/// What is said where more documents match than are shown.
pub fn hits_label(shown: usize, total: usize) -> (r: Option<String>)
    ensures
        r is Some <==> total > shown,
        r is Some ==> r->0@ == json::decimal(shown as nat) + " shown of "@ + json::decimal(
            total as nat,
        ) + " matches"@,
{
    if total <= shown {
        return None;
    }
    let mut r: String = json::decimal_text(shown as u64);
    let total_text: String = json::decimal_text(total as u64);
    r.append(" shown of ");
    r.append(total_text.as_str());
    r.append(" matches");
    Some(r)
}

/// What is said of the page at hand: how many there are, once that is known.
pub fn page_label(current: usize, count: usize) -> (r: String)
    ensures
        r@ == if count > 0 {
            "Page "@ + json::decimal(current as nat) + " / "@ + json::decimal(count as nat)
        } else {
            "Page "@ + json::decimal(current as nat)
        },
{
    let current_text: String = json::decimal_text(current as u64);
    let mut r: String = text::copy_str("Page ");
    r.append(current_text.as_str());
    if count > 0 {
        let count_text: String = json::decimal_text(count as u64);
        r.append(" / ");
        r.append(count_text.as_str());
    }
    r
}

/// How many tags of the browsed file are listed.
pub const LISTED_TAGS: usize = 5;

/// The first tags of a file in a line; nothing where it has none.
pub fn tags_line(tags: &Vec<String>) -> (r: Option<String>)
    ensures
        r is Some <==> tags@.len() > 0,
        r is Some ==> r->0@ == "🏷 "@ + text::join(
            text::texts(tags@).take(
                if tags@.len() < LISTED_TAGS {
                    tags@.len() as int
                } else {
                    LISTED_TAGS as int
                },
            ),
            ", "@,
        ),
{
    if tags.len() == 0 {
        return None;
    }
    let mut first: Vec<String> = text::clone_strings(tags);
    assert(text::texts(first@).len() == first@.len());
    assert forall|i: int| 0 <= i < tags@.len() implies (#[trigger] first@[i])@ == text::texts(
        tags@,
    )[i] by {
        assert(text::texts(first@)[i] == first@[i]@);
    }
    if first.len() > LISTED_TAGS {
        first.truncate(LISTED_TAGS);
    }
    let ghost n = if tags@.len() < LISTED_TAGS {
        tags@.len() as int
    } else {
        LISTED_TAGS as int
    };
    assert(text::texts(first@) =~= text::texts(tags@).take(n));
    let listed: String = text::join_texts(&first, ", ");
    let mut r: String = text::copy_str("🏷 ");
    r.append(listed.as_str());
    Some(r)
}

/// What the header of a column is marked with: an arrow in the direction of the
/// order, where the rows are sorted by it.
pub fn sort_mark(column: SortColumn, sorted_by: SortColumn, direction: SortDirection) -> (r:
    &'static str)
    ensures
        r@ == if column == sorted_by {
            match direction {
                SortDirection::Ascending => " ▲"@,
                SortDirection::Descending => " ▼"@,
            }
        } else {
            ""@
        },
{
    if column == sorted_by {
        match direction {
            SortDirection::Ascending => " ▲",
            SortDirection::Descending => " ▼",
        }
    } else {
        ""
    }
}

/// The icon of a kind of entity.
pub fn entity_icon(kind: &str) -> (r: &'static str)
    ensures
        r@ == if kind@ == "persons"@ {
            "👤"@
        } else if kind@ == "organizations"@ {
            "🏢"@
        } else if kind@ == "years"@ {
            "📅"@
        } else if kind@ == "doc_id"@ {
            "📄"@
        } else if kind@ == "amounts"@ {
            "💰"@
        } else {
            "🏷"@
        },
{
    if text::same_text(kind, "persons") {
        "👤"
    } else if text::same_text(kind, "organizations") {
        "🏢"
    } else if text::same_text(kind, "years") {
        "📅"
    } else if text::same_text(kind, "doc_id") {
        "📄"
    } else if text::same_text(kind, "amounts") {
        "💰"
    } else {
        "🏷"
    }
}

/// What is said of the auto-tagger.
pub fn tagger_status(enabled: bool, failed: bool, running: bool) -> (r: &'static str)
    ensures
        r@ == if !enabled {
            "☁ Auto-tag: disabled"@
        } else if failed {
            "☁ Auto-tag: error"@
        } else if running {
            "☁ Auto-tag: running..."@
        } else {
            "☁ Auto-tag: ready"@
        },
{
    if !enabled {
        "☁ Auto-tag: disabled"
    } else if failed {
        "☁ Auto-tag: error"
    } else if running {
        "☁ Auto-tag: running..."
    } else {
        "☁ Auto-tag: ready"
    }
}

// ── What the window does ──

/// A render is asked for of the page at hand, at the zoom and in the panel at hand, under
/// a new number; the answer that is taken is the one with that number, for that document.
pub proof fn page_at_hand_is_asked_for(m: PreviewModel, path: Seq<char>, r: RenderResult)
    requires
        m.latest_request_id < u64::MAX,
    ensures
        next_request(m, path) == (preview::RequestModel {
            request_id: (m.latest_request_id + 1) as u64,
            path: path,
            page: m.current_page,
            zoom_percent: m.zoom_percent,
            target_width: m.panel_width,
            target_height: m.panel_height,
            priority: 1,
        }),
        after_request(m, path).latest_request_id == m.latest_request_id + 1,
        after_request(m, path).path == Some(path),
        after_request(m, path).current_page == m.current_page && after_request(
            m,
            path,
        ).zoom_percent == m.zoom_percent,
        is_current(after_request(m, path), r) <==> r.request_id == m.latest_request_id + 1
            && r.path@ == path,
        turned_to_first(m).current_page == 1 && !turned_to_first(m).has_texture && turned_to_first(
            m,
        ).page_count == 0,
        turned_to_first(m).zoom_percent == m.zoom_percent && turned_to_first(m).latest_request_id
            == m.latest_request_id,
{
}

/// An answer that is taken puts its page on display, where it has one, and tells how many
/// pages there are, where it knows.
pub proof fn answers_are_put_on_display(m: PreviewModel, r: RenderResult)
    ensures
        r.width > 0 && r.height > 0 ==> after_result(m, r).has_texture,
        r.width == 0 || r.height == 0 ==> after_result(m, r).has_texture == m.has_texture,
        r.page_count > 0 ==> after_result(m, r).page_count == r.page_count,
        r.page_count == 0 ==> after_result(m, r).page_count == m.page_count,
        after_result(m, r).current_page == m.current_page && after_result(m, r).zoom_percent
            == m.zoom_percent && after_result(m, r).path == m.path && after_result(m, r).text
            == m.text && after_result(m, r).latest_request_id == m.latest_request_id,
        blank_preview().zoom_percent == 100 && blank_preview().current_page == 1
            && !blank_preview().has_texture && blank_preview().text is None
            && blank_preview().path is None,
{
}

/// What a row says of a file is what the first row with its path says; nothing where
/// there is none.
pub proof fn first_row_of_a_file_is_found(rows: Seq<FileBrowserRow>, path: Seq<char>, i: int)
    ensures
        0 <= i < rows.len() && rows[i].file_path@ == path && (forall|k: int|
            0 <= k < i ==> (#[trigger] rows[k]).file_path@ != path) ==> row_of(rows, path) == Some(
            (rows[i].content_hash@, rows[i].has_tags),
        ),
        (forall|k: int| 0 <= k < rows.len() ==> (#[trigger] rows[k]).file_path@ != path) ==> row_of(
            rows,
            path,
        ) is None,
        browsed_row_of(rows, Some(path)) == row_of(rows, path),
        browsed_row_of(rows, None) is None,
    decreases rows.len(),
{
    if rows.len() > 0 {
        let rest = rows.skip(1);
        first_row_of_a_file_is_found(rest, path, i - 1);
        if rows[0].file_path@ != path {
            if 0 < i < rows.len() && rows[i].file_path@ == path && (forall|k: int|
                0 <= k < i ==> (#[trigger] rows[k]).file_path@ != path) {
                assert(rest[i - 1] == rows[i]);
                assert forall|k: int| 0 <= k < i - 1 implies (#[trigger] rest[k]).file_path@
                    != path by {
                    assert(rest[k] == rows[k + 1]);
                }
            }
            if forall|k: int| 0 <= k < rows.len() ==> (#[trigger] rows[k]).file_path@ != path {
                assert forall|k: int| 0 <= k < rest.len() implies (#[trigger] rest[k]).file_path@
                    != path by {
                    assert(rest[k] == rows[k + 1]);
                }
            }
        }
    }
}

/// A snapshot of the documents shows each of them once, in the order of the header, with
/// a row for each, and leaves what else the browser keeps.
pub proof fn snapshots_show_every_document(
    before: BrowserModel,
    docs: Seq<model::InfoModel>,
    after: BrowserModel,
    i: int,
)
    requires
        is_after_snapshot(before, docs, after),
        docs.len() <= usize::MAX,
    ensures
        after.docs.len() == docs.len() && after.rows.len() == docs.len(),
        0 <= i < docs.len() ==> after.docs.contains(docs[i]),
        0 <= i < docs.len() ==> after.rows[i].file_path@ == after.docs[i].path
            && after.rows[i].content_hash@ == after.docs[i].hash && after.rows[i].has_tags
            == after.docs[i].has_tags,
        !after.dirty,
        after.browsed_file == before.browsed_file && after.selected_files == before.selected_files,
        after.sort_column == before.sort_column && after.sort_direction == before.sort_direction,
        after.browsed_row == browsed_row_of(after.rows, before.browsed_file),
        browser::is_sorted(before.sort_column, before.sort_direction, docs, after.docs),
{
    browser::sorted_documents_are_in_order(
        before.sort_column,
        before.sort_direction,
        docs,
        after.docs,
    );
    if 0 <= i < docs.len() {
        browser::rows_show_their_documents(after.docs, after.rows, i);
    }
}

/// A document is opened as a PDF where its type or the end of its path says so; its first
/// page is asked for, and of any other file the text.
pub proof fn documents_are_opened_by_their_type(
    m: PreviewModel,
    path: Seq<char>,
    file_type: Seq<char>,
    r: ResultModel,
    action: OpenAction,
)
    requires
        m.latest_request_id < u64::MAX,
    ensures
        ends_as_pdf(path) <==> text::ends_with(text::lowercase(path), ".pdf"@),
        is_pdf_result(r) <==> r.file_type == "pdf"@ || text::ends_with(
            text::lowercase(r.file_path),
            ".pdf"@,
        ),
        is_open_action(m, path, true, action) ==> (action matches OpenAction::Render(request)
            && request@.path == path && request@.page == 1 && request@.zoom_percent
            == m.zoom_percent && request@.request_id == m.latest_request_id + 1
            && request@.target_width == m.panel_width && request@.target_height == m.panel_height
            && request@.priority == 1),
        is_open_action(m, path, false, action) ==> (action matches OpenAction::LoadText(p) && p@
            == path),
        ({
            let opened = after_open(m, path, true, file_type);
            &&& opened.current_page == 1 && opened.path == Some(path) && opened.file_type == Some(
                "pdf"@,
            )
            &&& opened.text is None && !opened.has_texture && opened.page_count == 0
            &&& opened.latest_request_id == m.latest_request_id + 1
        }),
        ({
            let opened = after_open(m, path, false, file_type);
            &&& opened.current_page == 1 && opened.file_type == Some(file_type)
            &&& !opened.has_texture && opened.latest_request_id == m.latest_request_id
        }),
{
}

/// A file that is opened from the browser is the browsed file, with its row, and no result
/// is selected.
pub proof fn browsed_file_is_on_display(m: SessionModel, path: Seq<char>)
    ensures
        browsing(m, path).browser.browsed_file == Some(path),
        browsing(m, path).browser.browsed_row == row_of(m.browser.rows, path),
        browsing(m, path).search.selected_result is None,
        browsing(m, path).search.results == m.search.results,
        browsing(m, path).search.query == m.search.query,
        browsing(m, path).browser.docs == m.browser.docs && browsing(m, path).browser.rows
            == m.browser.rows,
        browsing(m, path).preview == after_open(
            m.preview,
            path,
            text::ends_with(text::lowercase(path), ".pdf"@),
            "txt"@,
        ),
        browsing(m, path).status == m.status && browsing(m, path).progress == m.progress,
{
}

/// The progress of a batch follows what the tagger has finished; once all are done the
/// batch is over, and the window says how many there were.
pub proof fn progress_follows_the_tagger(
    m: SessionModel,
    shown: usize,
    total: usize,
    completed: usize,
)
    requires
        m.progress == Some((shown, total)),
    ensures
        ({
            let step = step_of_batch(m, completed);
            let after = after_step(m, step);
            &&& completed <= shown ==> after == m
            &&& shown < completed < total ==> after.progress == Some((completed, total))
                && after.browser.dirty && after.status == m.status
            &&& completed > shown && completed >= total ==> after.progress is None
                && after.browser.dirty && after.status == "Tagging complete — "@ + json::decimal(
                total as nat,
            ) + " files processed"@
            &&& after.search == m.search && after.preview == m.preview
        }),
        step_of_batch(SessionModel { progress: None, ..m }, completed) == ProgressStep::Same,
{
}

/// What the panel shows: why nothing can be found, or what is on display.
pub proof fn panel_shows_what_there_is(m: SessionModel)
    ensures
        pane_of(m, true, false) == Pane::EngineFailed,
        pane_of(m, false, true) == Pane::NoFolder,
        pane_of(m, false, false) == Pane::NoFolder,
        m.search.selected_result is None && m.search.query.len() == 0
            && m.browser.browsed_file is None ==> pane_of(m, true, true) == Pane::AskForQuery,
        ({
            let asked = m.search.selected_result is Some || m.search.query.len() > 0
                || m.browser.browsed_file is Some;
            let nothing_found = m.search.results.len() == 0 && text::trim(m.search.query).len() > 0;
            &&& asked && nothing_found ==> pane_of(m, true, true) == Pane::NoResults
            &&& asked && !nothing_found && m.preview.has_texture ==> pane_of(m, true, true)
                == Pane::Page
            &&& asked && !nothing_found && !m.preview.has_texture && m.browser.browsed_file is Some
                && text::ends_with(text::lowercase(m.browser.browsed_file->0), ".pdf"@) ==> pane_of(
                m,
                true,
                true,
            ) == Pane::NoRendering
            &&& asked && !nothing_found && !m.preview.has_texture && (m.browser.browsed_file is None
                || !text::ends_with(text::lowercase(m.browser.browsed_file->0), ".pdf"@))
                && m.preview.text is Some ==> pane_of(m, true, true) == Pane::Text
            &&& asked && !nothing_found && !m.preview.has_texture && (m.browser.browsed_file is None
                || !text::ends_with(text::lowercase(m.browser.browsed_file->0), ".pdf"@))
                && m.preview.text is None ==> pane_of(m, true, true) == Pane::Blank
        }),
        LISTED_TAGS == 5 && REFRESH_COOLDOWN == 30 && REFRESH_PERIOD == 300,
        blank_browser().dirty && blank_browser().docs.len() == 0
            && blank_browser().selected_files.len() == 0 && blank_browser().sort_column
            == SortColumn::Name && blank_browser().sort_direction == SortDirection::Ascending,
{
}

/// The window is seen as all that it keeps.
pub proof fn window_is_seen_whole(p: PreviewState, b: BrowserState, s: Session)
    ensures
        p@.has_texture == p.has_texture && p@.text == model::opt_text(p.text),
        p@.file_type == model::opt_text(p.file_type) && p@.path == model::opt_text(p.path),
        p@.current_page == p.current_page && p@.page_count == p.page_count,
        p@.zoom_percent == p.zoom_percent && p@.latest_request_id == p.latest_request_id,
        p@.panel_width == p.panel_width && p@.panel_height == p.panel_height,
        b@.docs == model::views(b.docs@) && b@.rows == b.rows@ && b@.dirty == b.dirty,
        b@.refresh_cooldown == b.refresh_cooldown && b@.periodic_timer == b.periodic_timer,
        b@.browsed_file == model::opt_text(b.browsed_file) && b@.selected_files == text::texts(
            b.selected_files@,
        ),
        b@.sort_column == b.sort_column && b@.sort_direction == b.sort_direction,
        b.browsed_row matches Some((hash, tagged)) ==> b@.browsed_row == Some((hash@, tagged)),
        b.browsed_row is None ==> b@.browsed_row is None,
        s@.search == s.search@ && s@.preview == s.preview@ && s@.browser == s.browser@,
        s@.status == s.status_message@ && s@.indexing_total == s.indexing_total,
        s@.indexing_done == s.indexing_done && s@.progress == s.auto_tag_progress,
{
}

/// The document that is found at a path is at that path, and none before it is; one that
/// is listed behind it is never found in its place, and one of that path that is listed
/// before all others is.
pub proof fn first_document_of_a_file_is_found(
    docs: Seq<model::InfoModel>,
    d: model::InfoModel,
    path: Seq<char>,
    i: int,
    j: int,
)
    requires
        is_first_at(docs, path, i),
    ensures
        0 <= i < docs.len() && docs[i].path == path,
        0 <= j < i ==> docs[j].path != path,
        is_first_at(docs.push(d), path, j) ==> docs.push(d)[j] == docs[i],
        d.path == path && is_first_at(seq![d] + docs, path, j) ==> j == 0,
        d.path != path ==> is_first_at(seq![d] + docs, path, i + 1),
{
    if is_first_at(docs.push(d), path, j) {
        assert(docs.push(d)[i] == docs[i]);
        if j < i {
            assert(docs.push(d)[j] == docs[j]);
        }
    }
    let more = seq![d] + docs;
    assert(more[0] == d);
    if d.path != path {
        assert(more[i + 1] == docs[i]);
        assert forall|k: int| 0 <= k < i + 1 implies (#[trigger] more[k]).path != path by {
            if k > 0 {
                assert(more[k] == docs[k - 1]);
            }
        }
    }
}

/// Zooming in and then out again, or out and then in again, shows the page as it was; each
/// step is a quarter, within the limits.
pub proof fn zooming_back_restores_the_page(
    p: &mut PreviewState,
    q: &mut PreviewState,
    first: bool,
    second: bool,
)
    ensures
        call_ensures(PreviewState::zoom_in, (p,), first) && call_ensures(
            PreviewState::zoom_out,
            (q,),
            second,
        ) && *final(p) == *old(q) ==> {
            &&& first <==> old(p)@.zoom_percent < 400
            &&& first ==> final(p)@.zoom_percent == old(p)@.zoom_percent + 25
            &&& first && old(p)@.zoom_percent > 0 ==> second && final(q)@ == old(p)@
        },
        call_ensures(PreviewState::zoom_out, (p,), first) && call_ensures(
            PreviewState::zoom_in,
            (q,),
            second,
        ) && *final(p) == *old(q) ==> {
            &&& first <==> old(p)@.zoom_percent > 25
            &&& first && old(p)@.zoom_percent <= 400 ==> second && final(q)@ == old(p)@
        },
{
}

/// Turning a page on and back again shows the page that was shown; no page is turned
/// behind the last, nor before the first.
pub proof fn turning_back_shows_the_same_page(
    p: &mut PreviewState,
    q: &mut PreviewState,
    first: bool,
    second: bool,
)
    requires
        1 <= old(p)@.current_page < usize::MAX,
    ensures
        call_ensures(PreviewState::next_page, (p,), first) && call_ensures(
            PreviewState::previous_page,
            (q,),
            second,
        ) && *final(p) == *old(q) ==> {
            &&& old(p)@.page_count > 0 ==> (first <==> old(p)@.current_page < old(p)@.page_count)
            &&& old(p)@.page_count == 0 ==> first
            &&& first ==> final(p)@.current_page == old(p)@.current_page + 1
            &&& first ==> second && final(q)@ == old(p)@
        },
        call_ensures(PreviewState::previous_page, (p,), first) ==> (first <==> old(
            p,
        )@.current_page > 1) && (first ==> final(p)@.current_page == old(p)@.current_page - 1),
{
}

/// The line of tags names the first five, or all where there are fewer; there is none
/// where there are no tags.
pub proof fn first_tags_are_listed(tags: Vec<String>, r: Option<String>)
    requires
        call_ensures(tags_line, (&tags,), r),
    ensures
        r is None <==> tags@.len() == 0,
        0 < tags@.len() <= 5 ==> r->0@ == "🏷 "@ + text::join(text::texts(tags@), ", "@),
        tags@.len() > 5 ==> r->0@ == "🏷 "@ + text::join(
            seq![tags@[0]@, tags@[1]@, tags@[2]@, tags@[3]@, tags@[4]@],
            ", "@,
        ),
{
    if tags@.len() > 5 {
        assert(text::texts(tags@).take(5) =~= seq![
            tags@[0]@,
            tags@[1]@,
            tags@[2]@,
            tags@[3]@,
            tags@[4]@,
        ]);
    } else {
        assert(text::texts(tags@).take(tags@.len() as int) =~= text::texts(tags@));
    }
}

/// A label for the matches is shown exactly where more match than are shown, and one for
/// the indexing exactly where a file was indexed; both say the numbers.
pub proof fn labels_say_the_numbers(
    shown: usize,
    total: usize,
    hits: Option<String>,
    indexed: Option<String>,
    page: String,
)
    requires
        call_ensures(hits_label, (shown, total), hits),
        call_ensures(indexing_label, (shown, total), indexed),
        call_ensures(page_label, (shown, total), page),
    ensures
        hits is None <==> total <= shown,
        hits is Some ==> hits->0@ == json::decimal(shown as nat) + " shown of "@ + json::decimal(
            total as nat,
        ) + " matches"@,
        indexed is None <==> shown == 0,
        shown > 0 && total > 0 ==> indexed->0@ == "Indexed "@ + json::decimal(shown as nat) + "/"@
            + json::decimal(total as nat),
        shown > 0 && total == 0 ==> indexed->0@ == "Indexed "@ + json::decimal(shown as nat)
            + " files…"@,
        total > 0 ==> page@ == "Page "@ + json::decimal(shown as nat) + " / "@ + json::decimal(
            total as nat,
        ),
        total == 0 ==> page@ == "Page "@ + json::decimal(shown as nat),
{
}

/// Of two columns only the one that the rows are sorted by is marked, and the other way
/// round where the order is.
pub proof fn sorted_column_is_marked(
    column: SortColumn,
    sorted_by: SortColumn,
    direction: SortDirection,
    r: &'static str,
    turned: &'static str,
)
    requires
        call_ensures(sort_mark, (column, sorted_by, direction), r),
        call_ensures(sort_mark, (column, sorted_by, browser::turned(direction)), turned),
    ensures
        r@.len() > 0 <==> column == sorted_by,
        column == sorted_by ==> r@ != turned@,
        column == sorted_by && direction == SortDirection::Ascending ==> r@ == " ▲"@,
        column == sorted_by && direction == SortDirection::Descending ==> r@ == " ▼"@,
{
    reveal_strlit(" ▲");
    reveal_strlit(" ▼");
    reveal_strlit("");
    if column == sorted_by {
        assert(" ▲"@[1] != " ▼"@[1]);
    }
}

/// The result that is selected is on display, where there is one at that place; no file of
/// the browser is, and the results stay as they are.
pub proof fn selected_result_is_on_display(s: &mut Session, index: usize, r: OpenAction)
    requires
        call_ensures(Session::select_result, (s, index), r),
    ensures
        index >= old(s)@.search.results.len() ==> final(s)@ == old(s)@ && r is Nothing,
        index < old(s)@.search.results.len() ==> {
            &&& final(s)@.search.selected_result == Some(index)
            &&& final(s)@.search.selected_hash == Some(
                old(s)@.search.results[index as int].content_hash,
            )
            &&& final(s)@.browser.browsed_file is None
            &&& final(s)@.search.results == old(s)@.search.results
            &&& final(s)@.search.query == old(s)@.search.query
            &&& final(s)@.browser.docs == old(s)@.browser.docs
        },
{
}

/// A file that is clicked with Ctrl is ticked where it was not, and no longer where it was,
/// and nothing is opened; no other file is, and two such clicks leave the same files ticked.
pub proof fn clicks_with_ctrl_tick_files(
    s: &mut Session,
    t: &mut Session,
    path: &str,
    hash: &str,
    first: OpenAction,
    second: OpenAction,
    other: Seq<char>,
)
    ensures
        call_ensures(Session::click_row, (s, path, hash, true), first) && call_ensures(
            Session::click_row,
            (t, path, hash, true),
            second,
        ) && *final(s) == *old(t) ==> {
            let before = old(s)@.browser.selected_files;
            let between = final(s)@.browser.selected_files;
            let after = final(t)@.browser.selected_files;
            &&& first is Nothing && second is Nothing
            &&& between.contains(path@) <==> !before.contains(path@)
            &&& other != path@ ==> (between.contains(other) <==> before.contains(other))
            &&& after.contains(other) <==> before.contains(other)
            &&& final(s)@.search == old(s)@.search && final(s)@.preview == old(s)@.preview
        },
{
    session::toggling_twice_changes_nothing(old(s)@.browser.selected_files, path@);
}

/// The document on display is the selected result, and without one the browsed file.
pub proof fn document_on_display_is_the_selected_one(s: Session, r: Option<String>)
    requires
        call_ensures(Session::shown_path, (&s,), r),
    ensures
        s@.search.selected_result is None ==> model::opt_text(r) == s@.browser.browsed_file,
        s@.search.selected_result matches Some(i) && i < s@.search.results.len() ==> r is Some
            && r->0@ == s@.search.results[s@.search.selected_result->0 as int].file_path,
{
}

/// What the indexer tells is shown: how many files are done, that all are, and an error
/// with its file and its whole text.
pub proof fn progress_of_the_indexer_is_shown(s: &mut Session, progress: IndexerProgress)
    requires
        call_ensures(Session::on_indexer_progress, (s, progress), ()),
    ensures
        progress matches IndexerProgress::Progress { processed } ==> final(s)@.indexing_done
            == processed && final(s)@.indexing_total == old(s)@.indexing_total,
        progress matches IndexerProgress::ScanComplete { total } ==> final(s)@.indexing_done == total
            && final(s)@.indexing_total == total && final(s)@.browser.dirty,
        progress matches IndexerProgress::Error { path, error } ==> final(s)@.status
            == "Error indexing "@ + path@ + ": "@ + error@,
        progress matches IndexerProgress::DocsSnapshot { docs } ==> final(s)@.browser.docs.len()
            == docs@.len() && final(s)@.browser.rows.len() == docs@.len(),
        final(s)@.search == old(s)@.search && final(s)@.preview == old(s)@.preview,
{
}

/// The rows are fetched anew at the first file that is indexed, and not again before thirty
/// frames have passed; without any, every three hundred frames.
pub proof fn rows_are_fetched_now_and_then(b: &mut BrowserState, c: &mut BrowserState)
    ensures
        call_ensures(BrowserState::on_file_indexed, (b,), ()) ==> {
            &&& old(b)@.refresh_cooldown == 0 ==> final(b)@.dirty
                && final(b)@.refresh_cooldown == 30
            &&& old(b)@.refresh_cooldown > 0 ==> final(b)@ == old(b)@
        },
        call_ensures(BrowserState::tick, (c,), ()) ==> {
            let (before, after) = (old(c)@, final(c)@);
            &&& before.refresh_cooldown > 0 ==> after.refresh_cooldown == before.refresh_cooldown
                - 1
            &&& before.refresh_cooldown == 0 ==> after.refresh_cooldown == 0
            &&& before.periodic_timer + 1 < 300 ==> after.periodic_timer == before.periodic_timer
                + 1 && after.dirty == before.dirty
            &&& before.periodic_timer + 1 >= 300 ==> after.periodic_timer == 0 && after.dirty
            &&& after.docs == before.docs
        },
{
}

} // verus!
