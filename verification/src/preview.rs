//! Previews: what is rendered of a PDF, in which order, and what is kept of it.

use vstd::prelude::*;

use crate::indexer::extractors;
use crate::text;

verus! {

/// Maximum file size to cache in memory (200 MB).
pub const BYTE_CACHE_MAX_BYTES: u64 = 209715200;

/// Maximum number of rendered page bitmaps to keep in the page cache.
pub const MAX_CACHED_PAGES: usize = 8;

/// How much of a text file is shown, in bytes.
pub const PREVIEW_MAX_BYTES: usize = 2097152;

/// What the window asks of the renderer.
#[derive(Debug, Clone)]
pub struct RenderRequest {
    pub request_id: u64,
    pub path: String,
    /// The page, counted from 1.
    pub page: usize,
    /// The zoom, in percent.
    pub zoom_percent: u32,
    /// Target display dimensions in physical pixels (0 = use default max).
    pub target_width: u32,
    pub target_height: u32,
    /// Priority: 0 = prefetch (process only when idle), 1 = normal.
    pub priority: u8,
}

/// What the renderer answers.
#[derive(Debug, Clone)]
pub struct RenderResult {
    pub request_id: u64,
    pub path: String,
    pub page: usize,
    pub page_count: usize,
    pub rgba_bytes: Vec<u8>,
    pub width: usize,
    pub height: usize,
    /// Whether this is a low-res preview (true) or the final full-res render (false).
    pub is_preview: bool,
}

/// What a request holds.
#[verifier::ext_equal]
pub struct RequestModel {
    pub request_id: u64,
    pub path: Seq<char>,
    pub page: usize,
    pub zoom_percent: u32,
    pub target_width: u32,
    pub target_height: u32,
    pub priority: u8,
}

impl View for RenderRequest {
    type V = RequestModel;

    open spec fn view(&self) -> RequestModel {
        RequestModel {
            request_id: self.request_id,
            path: self.path@,
            page: self.page,
            zoom_percent: self.zoom_percent,
            target_width: self.target_width,
            target_height: self.target_height,
            priority: self.priority,
        }
    }
}

impl RenderRequest {
    /// A copy of a request.
    pub fn duplicate(&self) -> (r: Self)
        ensures
            r@ == self@,
    {
        RenderRequest {
            request_id: self.request_id,
            path: text::copy_str(self.path.as_str()),
            page: self.page,
            zoom_percent: self.zoom_percent,
            target_width: self.target_width,
            target_height: self.target_height,
            priority: self.priority,
        }
    }
}

// ── Dimensions ──

/// The zoom of a request within its limits, in percent.
pub open spec fn clamped_zoom(zoom_percent: int) -> int {
    if zoom_percent < 25 {
        25
    } else if zoom_percent > 400 {
        400
    } else {
        zoom_percent
    }
}

/// A dimension in pixels: at least one, and a quarter of it for a preview.
pub open spec fn pixels(full: int, is_preview: bool) -> int {
    let n = if is_preview {
        full / 4
    } else {
        full
    };
    if n < 1 {
        1
    } else {
        n
    }
}

/// The dimensions to render a request in: the display's where they are known, and
/// a square of 2000 pixels otherwise, zoomed.
pub open spec fn render_dimensions(r: RequestModel, is_preview: bool) -> (int, int) {
    let zoom = clamped_zoom(r.zoom_percent as int);
    let (w, h) = if r.target_width > 0 && r.target_height > 0 {
        (r.target_width as int, r.target_height as int)
    } else {
        (2000int, 2000int)
    };
    (pixels(w * zoom / 100, is_preview), pixels(h * zoom / 100, is_preview))
}

/// A zoomed dimension.
fn zoomed(size: u32, zoom: u32, is_preview: bool) -> (r: u64)
    requires
        zoom <= 400,
    ensures
        r == pixels(size * zoom / 100, is_preview),
{
    proof {
        assert(size * zoom <= 4294967295 * 400) by (nonlinear_arith)
            requires
                size <= 4294967295,
                zoom <= 400,
        ;
        assert(size * zoom >= 0) by (nonlinear_arith);
    }
    let full: u64 = (size as u64) * (zoom as u64) / 100;
    let n: u64 = if is_preview {
        full / 4
    } else {
        full
    };
    if n < 1 {
        1
    } else {
        n
    }
}

/// Compute render dimensions from the request.
pub fn compute_dimensions(request: &RenderRequest, is_preview: bool) -> (r: (u64, u64))
    ensures
        (r.0 as int, r.1 as int) == render_dimensions(request@, is_preview),
{
    let zoom: u32 = if request.zoom_percent < 25 {
        25
    } else if request.zoom_percent > 400 {
        400
    } else {
        request.zoom_percent
    };
    if request.target_width > 0 && request.target_height > 0 {
        (
            zoomed(request.target_width, zoom, is_preview),
            zoomed(request.target_height, zoom, is_preview),
        )
    } else {
        (zoomed(2000, zoom, is_preview), zoomed(2000, zoom, is_preview))
    }
}

/// The index of the page to render in a document of so many pages: the page that
/// is asked for, counted from 0 and in 16 bits, or the last.
pub fn page_index(page: usize, page_count: u16) -> (r: u16)
    ensures
        r == ({
            let wanted = (if page < 1 {
                0
            } else {
                page - 1
            }) % 65536;
            let last = if page_count == 0 {
                0
            } else {
                page_count - 1
            };
            if wanted < last {
                wanted
            } else {
                last
            }
        }),
        page_count > 0 ==> r < page_count,
{
    let from_zero: usize = if page < 1 {
        0
    } else {
        page - 1
    };
    let wanted: u16 = (from_zero % 65536) as u16;
    let last: u16 = if page_count == 0 {
        0
    } else {
        page_count - 1
    };
    if wanted < last {
        wanted
    } else {
        last
    }
}

// ── The page cache ──

/// A rendered page.
#[derive(Debug, Clone)]
pub struct CachedPage {
    pub path: String,
    pub page: usize,
    pub zoom_percent: u32,
    pub bytes: Vec<u8>,
    pub width: u32,
    pub height: u32,
}

/// What a rendered page is found by.
#[verifier::ext_equal]
pub struct PageKey {
    pub path: Seq<char>,
    pub page: usize,
    pub zoom_percent: u32,
}

/// What a rendered page holds.
#[verifier::ext_equal]
pub struct PageModel {
    pub key: PageKey,
    pub bytes: Seq<u8>,
    pub width: u32,
    pub height: u32,
}

impl View for CachedPage {
    type V = PageModel;

    open spec fn view(&self) -> PageModel {
        PageModel {
            key: PageKey { path: self.path@, page: self.page, zoom_percent: self.zoom_percent },
            bytes: self.bytes@,
            width: self.width,
            height: self.height,
        }
    }
}

/// The key of the page that a request asks for.
pub open spec fn key_of(r: RequestModel) -> PageKey {
    PageKey { path: r.path, page: r.page, zoom_percent: r.zoom_percent }
}

/// The rendered pages that are kept, the one used last in front.
#[derive(Debug, Clone)]
pub struct PageCache {
    entries: Vec<CachedPage>,
}

impl View for PageCache {
    type V = Seq<PageModel>;

    closed spec fn view(&self) -> Seq<PageModel> {
        self.entries@.map_values(|e: CachedPage| e@)
    }
}

/// No two pages have the same key, and there are no more than are kept.
pub open spec fn pages_wf(pages: Seq<PageModel>) -> bool {
    &&& pages.len() <= MAX_CACHED_PAGES
    &&& forall|i: int, j: int|
        0 <= i < j < pages.len() ==> (#[trigger] pages[i]).key != (#[trigger] pages[j]).key
}

/// The place of the page with a key; the number of pages where there is none.
pub open spec fn place_of(pages: Seq<PageModel>, key: PageKey) -> int
    decreases pages.len(),
{
    if pages.len() == 0 || pages[0].key == key {
        0
    } else {
        1 + place_of(pages.skip(1), key)
    }
}

/// The pages once the one at a place was used: it stands in front.
pub open spec fn used(pages: Seq<PageModel>, i: int) -> Seq<PageModel> {
    seq![pages[i]] + pages.remove(i)
}

/// The pages without the one that has a key.
pub open spec fn without_key(pages: Seq<PageModel>, key: PageKey) -> Seq<PageModel> {
    if place_of(pages, key) < pages.len() {
        pages.remove(place_of(pages, key))
    } else {
        pages
    }
}

/// The pages once a page was rendered: it stands in front, in place of one with
/// its key, and the one used longest ago goes where there are too many.
pub open spec fn with_page(pages: Seq<PageModel>, page: PageModel) -> Seq<PageModel> {
    let all = seq![page] + without_key(pages, page.key);
    if all.len() > MAX_CACHED_PAGES {
        all.drop_last()
    } else {
        all
    }
}

/// What the place of a page says.
proof fn lemma_place_of(pages: Seq<PageModel>, key: PageKey)
    ensures
        0 <= place_of(pages, key) <= pages.len(),
        place_of(pages, key) < pages.len() ==> pages[place_of(pages, key)].key == key,
        forall|i: int| 0 <= i < place_of(pages, key) ==> (#[trigger] pages[i]).key != key,
    decreases pages.len(),
{
    if pages.len() == 0 || pages[0].key == key {
    } else {
        lemma_place_of(pages.skip(1), key);
        assert forall|i: int| 0 <= i < place_of(pages, key) implies (#[trigger] pages[i]).key
            != key by {
            if i > 0 {
                assert(pages.skip(1)[i - 1] == pages[i]);
            }
        }
    }
}

/// Where the place of a page is.
proof fn lemma_place_is(pages: Seq<PageModel>, key: PageKey, i: int)
    requires
        0 <= i <= pages.len(),
        i < pages.len() ==> pages[i].key == key,
        forall|k: int| 0 <= k < i ==> (#[trigger] pages[k]).key != key,
    ensures
        place_of(pages, key) == i,
{
    lemma_place_of(pages, key);
    let j = place_of(pages, key);
    if j < i {
        assert(pages[j].key != key);
    } else if i < j {
        assert(pages[i].key != key);
    }
}

/// The operations keep the pages valid.
proof fn lemma_pages_wf(pages: Seq<PageModel>, page: PageModel)
    requires
        pages_wf(pages),
    ensures
        pages_wf(with_page(pages, page)),
        forall|i: int| 0 <= i < pages.len() ==> pages_wf(#[trigger] used(pages, i)),
{
    let key = page.key;
    lemma_place_of(pages, key);
    let at = place_of(pages, key);
    let rest = without_key(pages, key);
    assert forall|i: int| 0 <= i < rest.len() implies (#[trigger] rest[i]).key != key by {
        if at < pages.len() {
            if i < at {
                assert(pages[i].key != pages[at].key);
            } else {
                assert(pages[at].key != pages[i + 1].key);
            }
        }
    }
    let all = seq![page] + rest;
    assert forall|i: int, j: int| 0 <= i < j < all.len() implies (#[trigger] all[i]).key != (
    #[trigger] all[j]).key by {
        assert(all[j] == rest[j - 1]);
        if i > 0 {
            assert(all[i] == rest[i - 1]);
            if at < pages.len() {
                let pi = if i - 1 < at {
                    i - 1
                } else {
                    i as int
                };
                let pj = if j - 1 < at {
                    j - 1
                } else {
                    j as int
                };
                assert(pages[pi].key != pages[pj].key);
            } else {
                assert(pages[i - 1].key != pages[j - 1].key);
            }
        }
    }
    assert forall|k: int| 0 <= k < pages.len() implies pages_wf(#[trigger] used(pages, k)) by {
        let u = used(pages, k);
        assert forall|i: int, j: int| 0 <= i < j < u.len() implies (#[trigger] u[i]).key != (
        #[trigger] u[j]).key by {
            let pi = if i == 0 {
                k
            } else if i - 1 < k {
                i - 1
            } else {
                i as int
            };
            let pj = if j - 1 < k {
                j - 1
            } else {
                j as int
            };
            assert(u[i] == pages[pi]);
            assert(u[j] == pages[pj]);
            if pi < pj {
                assert(pages[pi].key != pages[pj].key);
            } else {
                assert(pages[pj].key != pages[pi].key);
            }
        }
    }
}

impl PageCache {
    pub open spec fn wf(&self) -> bool {
        pages_wf(self@)
    }

    /// No page yet.
    pub fn new() -> (r: Self)
        ensures
            r.wf(),
            r@ == Seq::<PageModel>::empty(),
    {
        let r = PageCache { entries: Vec::new() };
        assert(r@ =~= Seq::<PageModel>::empty());
        r
    }

    /// How many pages are kept.
    pub fn len(&self) -> (r: usize)
        ensures
            r == self@.len(),
    {
        self.entries.len()
    }

    /// Forget every page.
    pub fn clear(&mut self)
        ensures
            final(self).wf(),
            final(self)@ == Seq::<PageModel>::empty(),
    {
        self.entries = Vec::new();
        assert(self@ =~= Seq::<PageModel>::empty());
    }

    /// Where the page that a request asks for stands.
    fn find(&self, request: &RenderRequest) -> (r: usize)
        ensures
            r == place_of(self@, key_of(request@)),
            r <= self@.len(),
    {
        let ghost key = key_of(request@);
        let mut i: usize = 0;
        while i < self.entries.len()
            invariant
                key == key_of(request@),
                i <= self.entries@.len(),
                forall|k: int| 0 <= k < i ==> (#[trigger] self@[k]).key != key,
            decreases self.entries@.len() - i,
        {
            let e: &CachedPage = &self.entries[i];
            assert(self@[i as int] == e@);
            if e.page == request.page && e.zoom_percent == request.zoom_percent && text::same_text(
                e.path.as_str(),
                request.path.as_str(),
            ) {
                proof {
                    lemma_place_is(self@, key, i as int);
                }
                return i;
            }
            i = i + 1;
        }
        proof {
            lemma_place_is(self@, key, i as int);
        }
        i
    }

    /// Check the page cache for a matching render.
    /// Moves the found entry to the front (most-recently-used position).
    pub fn cache_lookup(&mut self, request: &RenderRequest) -> (r: Option<(Vec<u8>, u32, u32)>)
        requires
            old(self).wf(),
        ensures
            final(self).wf(),
            ({
                let i = place_of(old(self)@, key_of(request@));
                if i < old(self)@.len() {
                    &&& r matches Some((bytes, width, height)) && bytes@ == old(self)@[i].bytes
                        && width == old(self)@[i].width && height == old(self)@[i].height
                    &&& final(self)@ == used(old(self)@, i)
                } else {
                    r is None && final(self)@ == old(self)@
                }
            }),
    {
        let i: usize = self.find(request);
        if i >= self.entries.len() {
            return None;
        }
        let ghost before = self@;
        let ghost entries = self.entries@;
        let entry: CachedPage = self.entries.remove(i);
        let bytes: Vec<u8> = extractors::copy_bytes(&entry.bytes, entry.bytes.len());
        let found: (Vec<u8>, u32, u32) = (bytes, entry.width, entry.height);
        self.entries.insert(0, entry);
        proof {
            assert(found.0@ =~= before[i as int].bytes);
            assert(self@ =~= used(before, i as int));
            lemma_pages_wf(before, before[i as int]);
            assert(pages_wf(used(before, i as int)));
        }
        Some(found)
    }

    /// Insert a rendered page into the cache, evicting the oldest if needed.
    pub fn cache_insert(&mut self, request: &RenderRequest, bytes: Vec<u8>, width: u32, height: u32)
        requires
            old(self).wf(),
        ensures
            final(self).wf(),
            final(self)@ == with_page(
                old(self)@,
                (PageModel { key: key_of(request@), bytes: bytes@, width: width, height: height }),
            ),
    {
        let ghost before = self@;
        let ghost page = PageModel {
            key: key_of(request@),
            bytes: bytes@,
            width: width,
            height: height,
        };
        let i: usize = self.find(request);
        if i < self.entries.len() {
            let _gone: CachedPage = self.entries.remove(i);
        }
        assert(self@ =~= without_key(before, page.key));
        let entry = CachedPage {
            path: text::copy_str(request.path.as_str()),
            page: request.page,
            zoom_percent: request.zoom_percent,
            bytes: bytes,
            width: width,
            height: height,
        };
        self.entries.insert(0, entry);
        assert(self@ =~= seq![page] + without_key(before, page.key));
        if self.entries.len() > MAX_CACHED_PAGES {
            let _gone: Option<CachedPage> = self.entries.pop();
        }
        proof {
            assert(self@ =~= with_page(before, page));
            lemma_pages_wf(before, page);
        }
    }
}

/// A page that was rendered is found, as long as it was among the last that were
/// used; looking pages up forgets none of them.
pub proof fn rendered_page_is_found(pages: Seq<PageModel>, page: PageModel)
    requires
        pages_wf(pages),
    ensures
        place_of(with_page(pages, page), page.key) == 0,
        with_page(pages, page)[0] == page,
        forall|i: int| 0 <= i < pages.len() ==> (#[trigger] used(pages, i)).to_multiset()
            == pages.to_multiset(),
{
    assert(with_page(pages, page)[0] == page);
    assert forall|i: int| 0 <= i < pages.len() implies (#[trigger] used(pages, i)).to_multiset()
        == pages.to_multiset() by {
        broadcast use vstd::seq_lib::group_to_multiset_ensures;

        let rest = pages.remove(i);
        assert(pages =~= pages.take(i) + seq![pages[i]] + pages.skip(i + 1));
        assert(rest =~= pages.take(i) + pages.skip(i + 1));
        vstd::seq_lib::lemma_multiset_commutative(seq![pages[i]], rest);
        vstd::seq_lib::lemma_multiset_commutative(pages.take(i), pages.skip(i + 1));
        vstd::seq_lib::lemma_multiset_commutative(pages.take(i) + seq![pages[i]], pages.skip(i + 1));
        vstd::seq_lib::lemma_multiset_commutative(pages.take(i), seq![pages[i]]);
        assert(used(pages, i).to_multiset() =~= pages.to_multiset());
    }
}

/// Where the cache is full, the page that goes is the one used longest ago; every
/// other page stays.
pub proof fn oldest_page_goes(pages: Seq<PageModel>, page: PageModel)
    requires
        pages_wf(pages),
        place_of(pages, page.key) == pages.len(),
    ensures
        pages.len() < MAX_CACHED_PAGES ==> with_page(pages, page) == seq![page] + pages,
        pages.len() == MAX_CACHED_PAGES ==> with_page(pages, page) == seq![page]
            + pages.drop_last(),
{
    let all = seq![page] + pages;
    assert(without_key(pages, page.key) == pages);
    if pages.len() == MAX_CACHED_PAGES {
        assert(all.drop_last() =~= seq![page] + pages.drop_last());
    }
}

// ── The document ──

/// How the document of a request is come by.
#[derive(Debug, Clone, Copy, PartialEq, Eq, Structural)]
pub enum DocumentPlan {
    /// The parsed document is at hand.
    Reuse,
    /// The file is too large to keep: it is loaded for this render alone.
    LoadOnce,
    /// The file is to be read and parsed, and kept.
    Load,
}

/// What the renderer keeps: which document is parsed, and the rendered pages.
#[derive(Debug, Clone)]
pub struct RendererState {
    document: Option<String>,
    pages: PageCache,
    byte_cache_max_bytes: u64,
}

/// What the renderer keeps.
#[verifier::ext_equal]
pub struct RendererModel {
    pub document: Option<Seq<char>>,
    pub pages: Seq<PageModel>,
    pub limit: u64,
}

impl View for RendererState {
    type V = RendererModel;

    closed spec fn view(&self) -> RendererModel {
        RendererModel {
            document: match self.document {
                Some(path) => Some(path@),
                None => None,
            },
            pages: self.pages@,
            limit: self.byte_cache_max_bytes,
        }
    }
}

/// How the document at a path, of this size, is come by.
pub open spec fn document_plan(m: RendererModel, path: Seq<char>, file_size: u64) -> DocumentPlan {
    if m.document == Some(path) {
        DocumentPlan::Reuse
    } else if file_size > m.limit {
        DocumentPlan::LoadOnce
    } else {
        DocumentPlan::Load
    }
}

/// The renderer once the document at a path is at hand: a document that is too
/// large is not kept, and the pages of another document are forgotten.
pub open spec fn with_document(m: RendererModel, path: Seq<char>, file_size: u64) -> RendererModel {
    match document_plan(m, path, file_size) {
        DocumentPlan::Reuse => m,
        DocumentPlan::LoadOnce => RendererModel { document: None, pages: Seq::empty(), ..m },
        DocumentPlan::Load => RendererModel { document: Some(path), pages: Seq::empty(), ..m },
    }
}

/// A result is the answer for a page that is kept.
pub open spec fn is_cached_result(request: RequestModel, page: PageModel, r: RenderResult) -> bool {
    &&& r.request_id == request.request_id
    &&& r.path@ == request.path
    &&& r.page == request.page
    &&& r.page_count == 0
    &&& r.rgba_bytes@ == page.bytes
    &&& r.width == page.width as usize
    &&& r.height == page.height as usize
    &&& !r.is_preview
}

impl RendererState {
    pub open spec fn wf(&self) -> bool {
        pages_wf(self@.pages)
    }

    /// A renderer that keeps files of up to 200 MB.
    pub fn new() -> (r: Self)
        ensures
            r.wf(),
            r@ == (RendererModel {
                document: None,
                pages: Seq::empty(),
                limit: BYTE_CACHE_MAX_BYTES,
            }),
    {
        Self::new_with_cache_limit(BYTE_CACHE_MAX_BYTES)
    }

    /// A renderer with an overridable per-file cache limit.
    pub fn new_with_cache_limit(byte_cache_max_bytes: u64) -> (r: Self)
        ensures
            r.wf(),
            r@ == (RendererModel {
                document: None,
                pages: Seq::empty(),
                limit: byte_cache_max_bytes,
            }),
    {
        RendererState {
            document: None,
            pages: PageCache::new(),
            byte_cache_max_bytes: byte_cache_max_bytes,
        }
    }

    /// The answer from the page cache, for a full render of a page that is kept.
    /// The number of pages is unknown there, and given as 0.
    pub fn cached_result(&mut self, request: &RenderRequest, is_preview: bool) -> (r: Option<
        RenderResult,
    >)
        requires
            old(self).wf(),
        ensures
            final(self).wf(),
            ({
                let i = place_of(old(self)@.pages, key_of(request@));
                if !is_preview && i < old(self)@.pages.len() {
                    &&& r is Some
                    &&& is_cached_result(request@, old(self)@.pages[i], r->0)
                    &&& final(self)@ == (RendererModel {
                        pages: used(old(self)@.pages, i),
                        ..old(self)@
                    })
                } else {
                    r is None && final(self)@ == old(self)@
                }
            }),
    {
        if is_preview {
            return None;
        }
        match self.pages.cache_lookup(request) {
            Some((bytes, width, height)) => Some(
                RenderResult {
                    request_id: request.request_id,
                    path: text::copy_str(request.path.as_str()),
                    page: request.page,
                    page_count: 0,
                    rgba_bytes: bytes,
                    width: width as usize,
                    height: height as usize,
                    is_preview: false,
                },
            ),
            None => None,
        }
    }

    /// How the document at a path is come by, where its file has this size.
    pub fn plan_document(&self, path: &str, file_size: u64) -> (r: DocumentPlan)
        ensures
            r == document_plan(self@, path@, file_size),
    {
        if let Some(kept) = &self.document {
            if text::same_text(kept.as_str(), path) {
                return DocumentPlan::Reuse;
            }
        }
        if file_size > self.byte_cache_max_bytes {
            DocumentPlan::LoadOnce
        } else {
            DocumentPlan::Load
        }
    }

    /// The document at a path is at hand, as planned for this size.
    pub fn on_document(&mut self, path: &str, file_size: u64)
        requires
            old(self).wf(),
        ensures
            final(self).wf(),
            final(self)@ == with_document(old(self)@, path@, file_size),
    {
        match self.plan_document(path, file_size) {
            DocumentPlan::Reuse => {},
            DocumentPlan::LoadOnce => {
                self.pages.clear();
                self.document = None;
            },
            DocumentPlan::Load => {
                self.pages.clear();
                self.document = Some(text::copy_str(path));
            },
        }
    }

    /// A page was rendered: it is kept where it was rendered in full.
    pub fn on_rendered(&mut self, request: &RenderRequest, result: &RenderResult, is_preview: bool)
        requires
            old(self).wf(),
        ensures
            final(self).wf(),
            final(self)@ == if !is_preview && result.width > 0 {
                RendererModel {
                    pages: with_page(
                        old(self)@.pages,
                        PageModel {
                            key: key_of(request@),
                            bytes: result.rgba_bytes@,
                            width: result.width as u32,
                            height: result.height as u32,
                        },
                    ),
                    ..old(self)@
                }
            } else {
                old(self)@
            },
    {
        if !is_preview && result.width > 0 {
            let bytes: Vec<u8> = extractors::copy_bytes(
                &result.rgba_bytes,
                result.rgba_bytes.len(),
            );
            assert(bytes@ =~= result.rgba_bytes@);
            let width: u32 = #[verifier::truncate] (result.width as u32);
            let height: u32 = #[verifier::truncate] (result.height as u32);
            self.pages.cache_insert(request, bytes, width, height);
        }
    }

    /// The path of the document that is kept.
    pub fn kept_document(&self) -> (r: Option<String>)
        ensures
            match r {
                Some(path) => self@.document == Some(path@),
                None => self@.document is None,
            },
    {
        match &self.document {
            Some(path) => Some(text::copy_str(path.as_str())),
            None => None,
        }
    }

    /// How many rendered pages are kept.
    pub fn kept_pages(&self) -> (r: usize)
        ensures
            r == self@.pages.len(),
    {
        self.pages.len()
    }
}

/// Every page that is kept is one of the document at a path.
pub open spec fn pages_are_of(m: RendererModel, path: Seq<char>) -> bool {
    forall|i: int| 0 <= i < m.pages.len() ==> (#[trigger] m.pages[i]).key.path == path
}

/// Pages of different documents are never kept together: once a document is at
/// hand every page that is kept is one of its own, and it stays so when a page of
/// it is rendered.
pub proof fn kept_pages_are_of_one_document(
    m: RendererModel,
    path: Seq<char>,
    file_size: u64,
    page: PageModel,
)
    requires
        m.document matches Some(p) ==> pages_are_of(m, p),
        page.key.path == path,
    ensures
        pages_are_of(with_document(m, path, file_size), path),
        pages_are_of(
            (RendererModel {
                pages: with_page(with_document(m, path, file_size).pages, page),
                ..with_document(m, path, file_size)
            }),
            path,
        ),
        file_size > m.limit && m.document != Some(path) ==> with_document(
            m,
            path,
            file_size,
        ).document is None,
{
    let after = with_document(m, path, file_size);
    assert(pages_are_of(after, path));
    lemma_place_of(after.pages, page.key);
    let rest = without_key(after.pages, page.key);
    let at = place_of(after.pages, page.key);
    assert forall|i: int| 0 <= i < rest.len() implies (#[trigger] rest[i]).key.path == path by {
        if at < after.pages.len() && i >= at {
            assert(after.pages[i + 1].key.path == path);
        } else {
            assert(after.pages[i].key.path == path);
        }
    }
    let all = seq![page] + rest;
    assert forall|i: int| 0 <= i < all.len() implies (#[trigger] all[i]).key.path == path by {
        if i > 0 {
            assert(all[i] == rest[i - 1]);
        }
    }
}

// ── The order of renders ──

/// The last request of normal priority, or the first one where there is none.
pub open spec fn latest(first: RequestModel, newer: Seq<RequestModel>) -> RequestModel
    decreases newer.len(),
{
    if newer.len() == 0 {
        first
    } else if newer.last().priority >= 1 {
        newer.last()
    } else {
        latest(first, newer.drop_last())
    }
}

/// A render that is to be made.
#[derive(Debug, Clone)]
pub struct Render {
    pub request: RenderRequest,
    pub is_preview: bool,
}

/// Coalesce: of the requests that wait, keep only the latest of normal priority.
pub fn coalesce(first: RenderRequest, newer: Vec<RenderRequest>) -> (r: RenderRequest)
    ensures
        r@ == latest(first@, newer@.map_values(|n: RenderRequest| n@)),
{
    let ghost all = newer@.map_values(|n: RenderRequest| n@);
    let mut i: usize = newer.len();
    assert(all.take(all.len() as int) =~= all);
    while i > 0
        invariant
            i <= newer@.len(),
            all == newer@.map_values(|n: RenderRequest| n@),
            latest(first@, all) == latest(first@, all.take(i as int)),
        decreases i,
    {
        assert(all.take(i as int).drop_last() =~= all.take(i - 1));
        assert(all.take(i as int).last() == newer@[i - 1]@);
        if newer[i - 1].priority >= 1 {
            return newer[i - 1].duplicate();
        }
        i = i - 1;
    }
    assert(all.take(0) =~= Seq::<RequestModel>::empty());
    first
}

/// Whether the renderer takes a request up: a prefetch only where nothing else
/// waits.
pub fn takes_up(request: &RenderRequest, queue_is_empty: bool) -> (r: bool)
    ensures
        r == (request.priority != 0 || queue_is_empty),
{
    request.priority != 0 || queue_is_empty
}

/// The renders behind a preview that was shown: the full render of its page, or,
/// where the user has moved on meanwhile, both renders of the new one.
pub fn after_preview(request: &RenderRequest, newer: Vec<RenderRequest>) -> (r: Vec<Render>)
    ensures
        ({
            let all = newer@.map_values(|n: RenderRequest| n@);
            let moved = exists|i: int| 0 <= i < all.len() && (#[trigger] all[i]).priority >= 1;
            let next = latest(request@, all);
            if moved {
                &&& r@.len() == 2
                &&& r@[0].request@ == next && r@[0].is_preview
                &&& r@[1].request@ == next && !r@[1].is_preview
            } else {
                r@.len() == 1 && r@[0].request@ == request@ && !r@[0].is_preview
            }
        }),
{
    let ghost all = newer@.map_values(|n: RenderRequest| n@);
    let mut moved: bool = false;
    let mut i: usize = 0;
    while i < newer.len()
        invariant
            i <= newer@.len(),
            all == newer@.map_values(|n: RenderRequest| n@),
            moved == exists|k: int| 0 <= k < i && (#[trigger] all[k]).priority >= 1,
        decreases newer@.len() - i,
    {
        assert(all[i as int] == newer@[i as int]@);
        if newer[i].priority >= 1 {
            moved = true;
        }
        i = i + 1;
    }
    let mut r: Vec<Render> = Vec::new();
    if moved {
        let next: RenderRequest = coalesce(request.duplicate(), newer);
        r.push(Render { request: next.duplicate(), is_preview: true });
        r.push(Render { request: next, is_preview: false });
    } else {
        r.push(Render { request: request.duplicate(), is_preview: false });
    }
    r
}

/// The answer to a render that failed: no page, no size.
pub fn failed_result(request: &RenderRequest) -> (r: RenderResult)
    ensures
        r.request_id == request.request_id,
        r.path@ == request.path@,
        r.page == request.page,
        r.page_count == 0,
        r.rgba_bytes@.len() == 0,
        r.width == 0,
        r.height == 0,
        !r.is_preview,
{
    RenderResult {
        request_id: request.request_id,
        path: text::copy_str(request.path.as_str()),
        page: request.page,
        page_count: 0,
        rgba_bytes: Vec::new(),
        width: 0,
        height: 0,
        is_preview: false,
    }
}

/// No request of normal priority is passed over for an older one: the one that is
/// rendered is the last of them.
pub proof fn latest_request_wins(first: RequestModel, newer: Seq<RequestModel>, i: int)
    requires
        0 <= i < newer.len(),
        newer[i].priority >= 1,
        forall|k: int| i < k < newer.len() ==> (#[trigger] newer[k]).priority == 0,
    ensures
        latest(first, newer) == newer[i],
    decreases newer.len(),
{
    if i < newer.len() - 1 {
        assert(newer[newer.len() - 1].priority == 0);
        assert forall|k: int| i < k < newer.drop_last().len() implies (
        #[trigger] newer.drop_last()[k]).priority == 0 by {
            assert(newer[k].priority == 0);
        }
        latest_request_wins(first, newer.drop_last(), i);
    }
}

// ── Text ──

/// What is shown of a text file: its first two megabytes, read as UTF-8, and a
/// note where there is more.
pub open spec fn preview_text(bytes: Seq<u8>) -> Seq<char> {
    if bytes.len() > PREVIEW_MAX_BYTES {
        extractors::utf8_lossy(bytes.take(PREVIEW_MAX_BYTES as int))
            + "\n\n─── Preview truncated at 2 MB ───"@
    } else {
        extractors::utf8_lossy(bytes)
    }
}

/// The text that is shown of a text file with these bytes.
pub fn text_preview(bytes: &Vec<u8>) -> (r: String)
    ensures
        r@ == preview_text(bytes@),
{
    if bytes.len() > PREVIEW_MAX_BYTES {
        let part: Vec<u8> = extractors::copy_bytes(bytes, PREVIEW_MAX_BYTES);
        let mut shown: String = extractors::decode_lossy(part.as_slice());
        shown.append("\n\n─── Preview truncated at 2 MB ───");
        shown
    } else {
        extractors::decode_lossy(bytes.as_slice())
    }
}

// ── What is shown ──

/// A page is rendered as large as the panel at the zoom that is asked for, where that is
/// from 25 to 400 percent; beyond these limits as at the limit.
pub proof fn pages_are_rendered_as_large_as_asked(r: RequestModel)
    requires
        r.target_width > 0,
        r.target_height > 0,
    ensures
        ({
            let (w, h) = render_dimensions(r, false);
            let z = if r.zoom_percent < 25 {
                25int
            } else if r.zoom_percent > 400 {
                400int
            } else {
                r.zoom_percent as int
            };
            &&& w >= 1 && h >= 1
            &&& r.target_width * z >= 100 ==> 100 * w <= r.target_width * z < 100 * w + 100
            &&& r.target_height * z >= 100 ==> 100 * h <= r.target_height * z < 100 * h + 100
            &&& r.target_width * z < 100 ==> w == 1
            &&& r.target_height * z < 100 ==> h == 1
        }),
        r.zoom_percent == 100 ==> render_dimensions(r, false) == (
            r.target_width as int,
            r.target_height as int,
        ),
{
    if r.zoom_percent == 100 {
        assert(clamped_zoom(r.zoom_percent as int) == 100);
        assert(render_dimensions(r, false) == (
            pixels(r.target_width as int * 100 / 100, false),
            pixels(r.target_height as int * 100 / 100, false),
        ));
    }
}

/// Within the limits, zooming in gives a page that is no smaller, and one that is larger
/// in a panel of at least 100 pixels.
pub proof fn zooming_in_gives_a_larger_page(a: RequestModel, b: RequestModel)
    requires
        a.target_width > 0 && a.target_height > 0,
        b.target_width == a.target_width && b.target_height == a.target_height,
        25 <= a.zoom_percent < b.zoom_percent <= 400,
    ensures
        render_dimensions(a, false).0 <= render_dimensions(b, false).0,
        render_dimensions(a, false).1 <= render_dimensions(b, false).1,
        a.target_width >= 100 ==> render_dimensions(a, false).0 < render_dimensions(b, false).0,
        a.target_height >= 100 ==> render_dimensions(a, false).1 < render_dimensions(b, false).1,
{
    let (w, h) = (a.target_width as int, a.target_height as int);
    let (x, y) = (a.zoom_percent as int, b.zoom_percent as int);
    assert(w * y == w * x + w * (y - x)) by (nonlinear_arith);
    assert(h * y == h * x + h * (y - x)) by (nonlinear_arith);
    assert(w * (y - x) >= w && h * (y - x) >= h) by (nonlinear_arith)
        requires
            w >= 0,
            h >= 0,
            y - x >= 1,
    ;
    assert(w >= 100 ==> w * x >= 100) by (nonlinear_arith)
        requires
            x >= 25,
    ;
    assert(h >= 100 ==> h * x >= 100) by (nonlinear_arith)
        requires
            x >= 25,
    ;
}

/// Where the size of the panel is not known, the page is rendered for one of 2000 pixels
/// each way; a quick preview has a quarter of the pixels each way, and at least one.
pub proof fn previews_are_a_quarter_as_large(r: RequestModel)
    ensures
        ({
            let (w, h) = render_dimensions(r, false);
            let (pw, ph) = render_dimensions(r, true);
            &&& w >= 4 ==> 4 * pw <= w < 4 * pw + 4
            &&& h >= 4 ==> 4 * ph <= h < 4 * ph + 4
            &&& w < 4 ==> pw == 1
            &&& h < 4 ==> ph == 1
        }),
        r.target_width == 0 || r.target_height == 0 ==> render_dimensions(r, false)
            == render_dimensions(
            RequestModel { target_width: 2000, target_height: 2000, ..r },
            false,
        ),
        r.target_width == 0 && r.zoom_percent == 100 ==> render_dimensions(r, false) == (
            2000int,
            2000int,
        ),
{
}

/// Two requests ask for the same rendered page where they are for the same page of the
/// same file at the same zoom.
pub proof fn pages_are_found_by_file_page_and_zoom(a: RequestModel, b: RequestModel)
    ensures
        key_of(a) == key_of(b) <==> a.path == b.path && a.page == b.page && a.zoom_percent
            == b.zoom_percent,
        key_of(a).path == a.path,
{
}

/// A page that is kept is found, and what is found is the page that was asked for.
pub proof fn kept_page_is_found(pages: Seq<PageModel>, key: PageKey, i: int)
    ensures
        0 <= i < pages.len() && pages[i].key == key ==> place_of(pages, key) < pages.len(),
        place_of(pages, key) < pages.len() ==> 0 <= place_of(pages, key) && pages[place_of(
            pages,
            key,
        )].key == key,
        pages_wf(pages) && 0 <= i < pages.len() && pages[i].key == key ==> place_of(pages, key)
            == i,
{
    lemma_place_of(pages, key);
}

/// Looking a page up puts it in front, and leaves the others as they stood.
pub proof fn looking_up_keeps_every_page(pages: Seq<PageModel>, i: int)
    requires
        0 <= i < pages.len(),
    ensures
        used(pages, i).len() == pages.len(),
        used(pages, i)[0] == pages[i],
        forall|k: int| 0 <= k < i ==> #[trigger] used(pages, i)[k + 1] == pages[k],
        forall|k: int| i < k < pages.len() ==> #[trigger] used(pages, i)[k] == pages[k],
{
}

/// A rendered page stands in front of the others. Eight are kept: a page is forgotten
/// only where it was the eighth and one that was not there came, or where the new one is
/// in its place.
pub proof fn eight_pages_are_kept(pages: Seq<PageModel>, page: PageModel, i: int)
    requires
        pages_wf(pages),
        0 <= i < pages.len(),
        pages[i].key != page.key,
    ensures
        with_page(pages, page).len() <= 8,
        with_page(pages, page)[0] == page,
        pages.len() <= 8,
        i < 7 || pages.len() < 8 || (exists|k: int|
            0 <= k < pages.len() && (#[trigger] pages[k]).key == page.key) ==> exists|k: int|
            1 <= k < with_page(pages, page).len() && #[trigger] with_page(pages, page)[k]
                == pages[i] && k <= i + 1,
        with_page(pages, page).len() <= pages.len() + 1,
{
    lemma_place_of(pages, page.key);
    let at = place_of(pages, page.key);
    let after = with_page(pages, page);
    if at < pages.len() {
        assert(after.len() == pages.len());
        if i < at {
            assert(after[i + 1] == pages[i]);
        } else {
            assert(after[i] == pages[i]);
        }
    } else {
        if i < 7 || pages.len() < 8 {
            assert(after[i + 1] == pages[i]);
        }
    }
}

/// A document that is at hand is used again, with its pages, however large it is. Any
/// other is read: one that is larger than what is kept for this render alone, and with no
/// document kept; any other is kept in place of the one before.
pub proof fn one_document_is_kept(m: RendererModel, path: Seq<char>, size: u64)
    ensures
        m.document == Some(path) ==> document_plan(m, path, size) == DocumentPlan::Reuse
            && with_document(m, path, size) == m,
        m.document != Some(path) && size <= m.limit ==> document_plan(m, path, size)
            == DocumentPlan::Load && with_document(m, path, size).document == Some(path)
            && with_document(m, path, size).pages.len() == 0,
        m.document != Some(path) && size > m.limit ==> document_plan(m, path, size)
            == DocumentPlan::LoadOnce && with_document(m, path, size).document is None
            && with_document(m, path, size).pages.len() == 0,
        with_document(m, path, size).limit == m.limit,
        BYTE_CACHE_MAX_BYTES == 200 * 1024 * 1024,
{
}

/// What is answered from the cache is what was rendered.
pub proof fn kept_page_is_answered(request: RequestModel, page: PageModel, r: RenderResult)
    requires
        is_cached_result(request, page, r),
    ensures
        r.request_id == request.request_id && r.path@ == request.path && r.page == request.page,
        r.rgba_bytes@ == page.bytes && r.width == page.width && r.height == page.height,
        !r.is_preview && r.page_count == 0,
{
}

/// Where only prefetches wait, the request that came first is rendered.
pub proof fn prefetches_displace_nothing(first: RequestModel, newer: Seq<RequestModel>)
    requires
        forall|k: int| 0 <= k < newer.len() ==> (#[trigger] newer[k]).priority == 0,
    ensures
        latest(first, newer) == first,
    decreases newer.len(),
{
    if newer.len() > 0 {
        let rest = newer.drop_last();
        assert forall|k: int| 0 <= k < rest.len() implies (#[trigger] rest[k]).priority == 0 by {
            assert(rest[k] == newer[k]);
        }
        assert(newer[newer.len() - 1].priority == 0);
        prefetches_displace_nothing(first, rest);
    }
}

/// A text file of up to two megabytes is shown whole; of a larger one the first two, and
/// a note that there is more.
pub proof fn text_is_shown_up_to_two_megabytes(bytes: Seq<u8>)
    ensures
        bytes.len() <= 2097152 ==> preview_text(bytes) == extractors::utf8_lossy(bytes),
        bytes.len() > 2097152 ==> preview_text(bytes) == extractors::utf8_lossy(
            bytes.take(2097152),
        ) + "\n\n─── Preview truncated at 2 MB ───"@,
{
}

/// A request and a rendered page are seen as all that they hold.
pub proof fn requests_and_pages_are_seen_whole(r: RenderRequest, p: CachedPage)
    ensures
        r@.request_id == r.request_id && r@.path == r.path@ && r@.page == r.page,
        r@.zoom_percent == r.zoom_percent && r@.priority == r.priority,
        r@.target_width == r.target_width && r@.target_height == r.target_height,
        p@.key.path == p.path@ && p@.key.page == p.page && p@.key.zoom_percent == p.zoom_percent,
        p@.bytes == p.bytes@ && p@.width == p.width && p@.height == p.height,
        MAX_CACHED_PAGES == 8,
{
}

/// The dimensions that are computed are those of the panel at 100 percent, grow with the
/// zoom up to 400 percent, and are a quarter for a preview.
pub proof fn computed_dimensions_follow_the_zoom(
    a: RenderRequest,
    b: RenderRequest,
    full: (u64, u64),
    preview: (u64, u64),
    larger: (u64, u64),
)
    requires
        call_ensures(compute_dimensions, (&a, false), full),
        call_ensures(compute_dimensions, (&a, true), preview),
        call_ensures(compute_dimensions, (&b, false), larger),
        a@.target_width == b@.target_width && a@.target_height == b@.target_height,
        a@.target_width >= 4 && a@.target_height >= 4,
    ensures
        a@.zoom_percent == 100 ==> full.0 == a@.target_width && full.1 == a@.target_height,
        100 * full.0 >= 25 * a@.target_width - 99,
        a@.zoom_percent >= 400 ==> full.0 == 4 * a@.target_width && full.1 == 4 * a@.target_height,
        25 <= a@.zoom_percent && a@.zoom_percent + 25 <= b@.zoom_percent <= 400 ==> larger.0 > full.0
            && larger.1 > full.1,
        full.0 >= 4 ==> 4 * preview.0 <= full.0 < 4 * preview.0 + 4,
        full.1 >= 4 ==> 4 * preview.1 <= full.1 < 4 * preview.1 + 4,
{
    pages_are_rendered_as_large_as_asked(a@);
    pages_are_rendered_as_large_as_asked(b@);
    previews_are_a_quarter_as_large(a@);
    let za = clamped_zoom(a@.zoom_percent as int);
    let zb = clamped_zoom(b@.zoom_percent as int);
    let (w, h) = (a@.target_width as int, a@.target_height as int);
    assert(w * za >= 100 && h * za >= 100) by (nonlinear_arith)
        requires
            w >= 4,
            h >= 4,
            za >= 25,
    ;
    assert(w * za >= 25 * w) by (nonlinear_arith)
        requires
            w >= 4,
            za >= 25,
    ;
    if 25 <= a@.zoom_percent && a@.zoom_percent + 25 <= b@.zoom_percent <= 400 {
        assert(w * zb >= w * za + 100 && h * zb >= h * za + 100) by (nonlinear_arith)
            requires
                w >= 4,
                h >= 4,
                zb >= za + 25,
        ;
    }
}

/// The page that is rendered is the one that is asked for, where the document has it, and
/// the last where it has not; up to page 65536 another page is another index.
pub proof fn asked_page_is_rendered(page: usize, other: usize, page_count: u16, r: u16, s: u16)
    requires
        call_ensures(page_index, (page, page_count), r),
        call_ensures(page_index, (other, page_count), s),
    ensures
        1 <= page <= page_count ==> r + 1 == page,
        page_count > 0 && page_count < page <= 65536 ==> r + 1 == page_count,
        page_count == 0 || page == 0 ==> r == 0,
        1 <= page < other <= page_count ==> r < s,
{
}

/// Behind a preview comes a full render: that of the same page where no other was asked
/// for meanwhile, and otherwise the page is shown as a preview first.
pub proof fn full_render_follows_the_preview(
    request: RenderRequest,
    newer: Vec<RenderRequest>,
    r: Vec<Render>,
)
    requires
        call_ensures(after_preview, (&request, newer), r),
    ensures
        r@.len() > 0 && !r@.last().is_preview,
        (forall|i: int| 0 <= i < newer@.len() ==> (#[trigger] newer@[i])@.priority == 0) ==> r@.len()
            == 1 && r@[0].request@ == request@,
        r@.len() > 1 ==> r@.len() == 2 && r@[0].is_preview && r@[0].request@ == r@[1].request@,
{
}

} // verus!
