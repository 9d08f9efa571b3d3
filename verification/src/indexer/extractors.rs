//! The text of a file, from what was read of it.

use vstd::prelude::*;

use crate::text;

verus! {

/// Supported file extensions for text extraction and watching.
pub const SUPPORTED_EXTENSIONS: [&'static str; 4] = ["pdf", "txt", "md", "log"];

/// How much of a text file is read, in bytes.
pub const MAX_TEXT_BYTES: usize = 10485760;

/// A file: its name, its extension as it is written, and what was read of it. Of a PDF
/// that is what came of opening it and of reading its pages, of any other file its bytes.
#[derive(Debug, Clone)]
pub struct FileContent {
    pub file_name: String,
    pub extension: String,
    pub bytes: Vec<u8>,
    pub pdf: Option<PdfReading>,
}

/// Extracted content from a file.
#[derive(Debug, Clone)]
pub struct ExtractedContent {
    pub text: String,
    pub title: Option<String>,
    pub page_count: Option<usize>,
}

/// Why a file could not be read.
#[derive(Debug, Clone)]
pub enum ExtractError {
    /// The PDF could not be opened.
    OpenPdf(String),
    /// The pages of the PDF could not be counted.
    PageCount(String),
    /// A page of the PDF could not be read.
    Page { page: usize, detail: String },
}

/// What came of reading a PDF.
#[derive(Debug, Clone)]
pub enum PdfReading {
    /// It could not be opened.
    NotOpened(String),
    /// Its pages could not be counted.
    NotCounted(String),
    /// Its pages were read, from the first up to the last or to one that could not be.
    Pages(Vec<Result<String, String>>),
}

/// Single-method extractor — returns Ok(None) for unsupported files.
/// Send + Sync bounds allow one shared chain across parallel extraction.
pub trait Extractor: Send + Sync {
    /// Attempt text extraction. Returns Ok(None) if this extractor
    /// cannot handle this file type (not an error — try next extractor).
    /// Returns Err only on genuine extraction failures.
    fn extract(&self, file: &FileContent) -> Result<Option<ExtractedContent>, ExtractError>;
}

/// Extracts text from plain text files (.txt, .md, .log).
#[derive(Debug, Clone, Copy)]
pub struct TextExtractor;

/// Extracts text from PDF files.
#[derive(Debug, Clone, Copy)]
pub struct PdfExtractor;

// ── Models ──

/// Whether an extension is that of a plain text file.
pub open spec fn is_text_extension(extension: Seq<char>) -> bool {
    let lower = text::lowercase(extension);
    lower == "txt"@ || lower == "md"@ || lower == "log"@
}

/// Whether an extension is that of a PDF file.
pub open spec fn is_pdf_extension(extension: Seq<char>) -> bool {
    text::ascii_lowercase(extension) == "pdf"@
}

/// Whether one of the listed extensions is this one, up to the case of ASCII letters.
pub open spec fn is_listed_extension(extension: Seq<char>, extensions: Seq<Seq<char>>) -> bool {
    exists|i: int|
        0 <= i < extensions.len() && text::ascii_lowercase(extension)
            == text::ascii_lowercase(#[trigger] extensions[i])
}

/// The part of a text file that is read.
pub open spec fn read_part(bytes: Seq<u8>) -> Seq<u8> {
    if bytes.len() > MAX_TEXT_BYTES {
        bytes.take(MAX_TEXT_BYTES as int)
    } else {
        bytes
    }
}

/// What `String::from_utf8_lossy` makes of some bytes.
pub uninterp spec fn utf8_lossy(bytes: Seq<u8>) -> Seq<char>;

/// The text that some bytes encode, where they are valid UTF-8.
pub open spec fn encoded_text(bytes: Seq<u8>) -> Option<Seq<char>> {
    if vstd::utf8::valid_utf8(bytes) {
        Some(vstd::utf8::decode_utf8(bytes))
    } else {
        None
    }
}

/// The content of a text file.
pub open spec fn is_text_content(file: FileContent, content: ExtractedContent) -> bool {
    &&& content.text@ == utf8_lossy(read_part(file.bytes@))
    &&& content.title is Some
    &&& content.title->0@ == file.file_name@
    &&& content.page_count is None
}

/// The page at this place is the first that could not be read.
pub open spec fn is_first_unread(pages: Seq<Result<String, String>>, k: int) -> bool {
    &&& 0 <= k < pages.len()
    &&& pages[k] is Err
    &&& forall|i: int| 0 <= i < k ==> (#[trigger] pages[i]) is Ok
}

/// The texts of pages that were read.
pub open spec fn page_texts(pages: Seq<Result<String, String>>) -> Seq<Seq<char>> {
    pages.map_values(|p: Result<String, String>| p->Ok_0@)
}

/// What a PDF with these pages holds: their texts, one per line.
pub open spec fn holds_pages(
    content: ExtractedContent,
    file_name: Seq<char>,
    pages: Seq<Seq<char>>,
) -> bool {
    &&& content.text@ == text::join(pages, "\n"@)
    &&& content.title is Some
    &&& content.title->0@ == file_name
    &&& content.page_count is Some
    &&& content.page_count->0 == pages.len()
}

/// What is made of reading a PDF: its content where every page was read, and else the
/// error, with the page where it is that of a page.
pub open spec fn is_made_of(
    file_name: Seq<char>,
    reading: PdfReading,
    r: Result<ExtractedContent, ExtractError>,
) -> bool {
    match reading {
        PdfReading::NotOpened(detail) => r matches Err(ExtractError::OpenPdf(d)) && d@ == detail@,
        PdfReading::NotCounted(detail) => r matches Err(ExtractError::PageCount(d)) && d@
            == detail@,
        PdfReading::Pages(pages) => match r {
            Ok(content) => {
                &&& forall|i: int| 0 <= i < pages@.len() ==> (#[trigger] pages@[i]) is Ok
                &&& holds_pages(content, file_name, page_texts(pages@))
            },
            Err(ExtractError::Page { page, detail }) => {
                &&& is_first_unread(pages@, page as int)
                &&& detail@ == pages@[page as int]->Err_0@
            },
            Err(_) => false,
        },
    }
}

/// A result that says something of a file: content, or an error.
pub open spec fn is_some_result(r: Result<Option<ExtractedContent>, ExtractError>) -> bool {
    r is Err || r->Ok_0 is Some
}

/// What such a result says.
pub open spec fn some_result(r: Result<Option<ExtractedContent>, ExtractError>) -> Result<
    ExtractedContent,
    ExtractError,
> {
    match r {
        Ok(content) => Ok(content->0),
        Err(e) => Err(e),
    }
}

/// What is extracted of a PDF file: what is made of what came of reading it. A file that
/// was not read as a PDF could not be opened.
pub open spec fn is_pdf_result(
    file: FileContent,
    r: Result<Option<ExtractedContent>, ExtractError>,
) -> bool {
    &&& is_some_result(r)
    &&& match file.pdf {
        Some(reading) => is_made_of(file.file_name@, reading, some_result(r)),
        None => r matches Err(ExtractError::OpenPdf(detail)) && detail@ == "not read as a PDF"@,
    }
}

/// What is extracted of a PDF file whose every page was read is the text of the pages,
/// one per line; where a page was not, the error is that of the first such page.
pub proof fn extracted_pdf_is_its_pages(
    file: FileContent,
    pages: Vec<Result<String, String>>,
    r: Result<Option<ExtractedContent>, ExtractError>,
)
    requires
        file.pdf == Some(PdfReading::Pages(pages)),
        is_pdf_result(file, r),
    ensures
        (forall|i: int| 0 <= i < pages@.len() ==> (#[trigger] pages@[i]) is Ok) ==> r is Ok
            && r->Ok_0 is Some && holds_pages(
            r->Ok_0->0,
            file.file_name@,
            page_texts(pages@),
        ),
        forall|k: int| #[trigger]
            is_first_unread(pages@, k) ==> (r matches Err(ExtractError::Page { page, detail })
                && page == k && detail@ == pages@[k]->Err_0@),
{
    if let Err(ExtractError::Page { page, detail }) = r {
        assert(pages@[page as int] is Err);
    }
}

// ── Reading bytes ──

/// `String::from_utf8_lossy`, copied into a `String`. The result is named; where
/// the bytes are valid UTF-8 it is the text that they encode.
#[verifier::external_body]
pub(crate) fn decode_lossy(bytes: &[u8]) -> (r: String)
    ensures
        r@ == utf8_lossy(bytes@),
        vstd::utf8::valid_utf8(bytes@) ==> r@ == vstd::utf8::decode_utf8(bytes@),
{
    String::from_utf8_lossy(bytes).to_string()
}

/// `String::from_utf8`: the text that the bytes encode, and nothing where they are
/// not valid UTF-8.
#[verifier::external_body]
pub(crate) fn decode_strict(bytes: Vec<u8>) -> (r: Option<String>)
    ensures
        match r {
            Some(decoded) => encoded_text(bytes@) == Some(decoded@),
            None => encoded_text(bytes@) is None,
        },
{
    String::from_utf8(bytes).ok()
}

/// A copy of some bytes.
pub(crate) fn copy_bytes(bytes: &Vec<u8>, len: usize) -> (r: Vec<u8>)
    requires
        len <= bytes@.len(),
    ensures
        r@ == bytes@.take(len as int),
{
    let mut r: Vec<u8> = Vec::new();
    let mut i: usize = 0;
    while i < len
        invariant
            i <= len <= bytes@.len(),
            r@ == bytes@.take(i as int),
        decreases len - i,
    {
        r.push(bytes[i]);
        assert(r@ =~= bytes@.take(i + 1));
        i = i + 1;
    }
    r
}

/// Whether two texts are the same up to the case of ASCII letters.
pub fn same_ignoring_ascii_case(a: &str, b: &str) -> (r: bool)
    ensures
        r == (text::ascii_lowercase(a@) == text::ascii_lowercase(b@)),
{
    let x: Vec<char> = text::chars_of(a);
    let y: Vec<char> = text::chars_of(b);
    if x.len() != y.len() {
        assert(text::ascii_lowercase(a@).len() == a@.len());
        assert(text::ascii_lowercase(b@).len() == b@.len());
        return false;
    }
    let mut i: usize = 0;
    while i < x.len()
        invariant
            i <= x@.len(),
            x@.len() == y@.len(),
            x@ == a@,
            y@ == b@,
            forall|k: int|
                0 <= k < i ==> text::ascii_lower(#[trigger] x@[k]) == text::ascii_lower(y@[k]),
        decreases x@.len() - i,
    {
        if lower_char(x[i]) != lower_char(y[i]) {
            assert(text::ascii_lowercase(a@)[i as int] != text::ascii_lowercase(b@)[i as int]);
            return false;
        }
        i = i + 1;
    }
    assert(text::ascii_lowercase(a@) =~= text::ascii_lowercase(b@));
    true
}

/// The lower-case form of an ASCII letter.
fn lower_char(c: char) -> (r: char)
    ensures
        r == text::ascii_lower(c),
{
    if 'A' <= c && c <= 'Z' {
        ((c as u8) + 32) as char
    } else {
        c
    }
}

/// Whether a file is a PDF, by its extension.
pub fn is_pdf_file(extension: &str) -> (r: bool)
    ensures
        r == is_pdf_extension(extension@),
{
    proof {
        reveal_strlit("pdf");
        assert(text::ascii_lowercase("pdf"@) =~= "pdf"@);
    }
    same_ignoring_ascii_case(extension, "pdf")
}

/// Whether a file is one that is indexed: its extension is listed, whatever the
/// case of its letters.
pub fn is_supported_extension(extension: &str, extensions: &[&str]) -> (r: bool)
    ensures
        r == is_listed_extension(extension@, extensions@.map_values(|e: &str| e@)),
{
    let ghost listed = extensions@.map_values(|e: &str| e@);
    let mut i: usize = 0;
    while i < extensions.len()
        invariant
            i <= extensions@.len(),
            listed == extensions@.map_values(|e: &str| e@),
            forall|k: int|
                0 <= k < i ==> text::ascii_lowercase(extension@) != text::ascii_lowercase(
                    #[trigger] listed[k],
                ),
        decreases extensions@.len() - i,
    {
        assert(listed[i as int] == extensions@[i as int]@);
        if same_ignoring_ascii_case(extension, extensions[i]) {
            return true;
        }
        i = i + 1;
    }
    false
}

impl Extractor for TextExtractor {
    /// The text of a plain text file: its first ten megabytes, read as UTF-8,
    /// what is not UTF-8 replaced.
    fn extract(&self, file: &FileContent) -> (r: Result<Option<ExtractedContent>, ExtractError>)
        ensures
            r is Ok,
            r->Ok_0 is Some <==> is_text_extension(file.extension@),
            r->Ok_0 is Some ==> is_text_content(*file, r->Ok_0->0),
    {
        let lower: String = text::to_lowercase(file.extension.as_str());
        let is_text: bool = text::same_text(lower.as_str(), "txt") || text::same_text(
            lower.as_str(),
            "md",
        ) || text::same_text(lower.as_str(), "log");
        if !is_text {
            return Ok(None);
        }
        let content: String = if file.bytes.len() > MAX_TEXT_BYTES {
            let part: Vec<u8> = copy_bytes(&file.bytes, MAX_TEXT_BYTES);
            decode_lossy(part.as_slice())
        } else {
            decode_lossy(file.bytes.as_slice())
        };
        Ok(
            Some(
                ExtractedContent {
                    text: content,
                    title: Some(text::copy_str(file.file_name.as_str())),
                    page_count: None,
                },
            ),
        )
    }
}

impl PdfExtractor {
    /// Create a new PDF extractor — always succeeds.
    pub fn new() -> (r: Result<Self, ExtractError>)
        ensures
            r is Ok,
    {
        Ok(PdfExtractor)
    }
}

/// The pages of a PDF as they are read, one after another.
#[derive(Debug, Clone)]
pub struct PageRun {
    count: usize,
    pages: Vec<Result<String, String>>,
}

impl PageRun {
    /// How many pages there are.
    pub closed spec fn count(&self) -> nat {
        self.count as nat
    }

    /// What came of the pages so far.
    pub closed spec fn pages(&self) -> Seq<Result<String, String>> {
        self.pages@
    }

    /// No more pages were read than there are, and none behind one that could not be.
    pub open spec fn wf(&self) -> bool {
        &&& self.pages().len() <= self.count()
        &&& forall|i: int| 0 <= i < self.pages().len() - 1 ==> (#[trigger] self.pages()[i]) is Ok
    }

    /// A page is left to be read: there is one, and all before it could be.
    pub open spec fn goes_on(&self) -> bool {
        &&& self.pages().len() < self.count()
        &&& self.pages().len() > 0 ==> self.pages().last() is Ok
    }

    /// The run of a PDF with so many pages.
    pub fn new(count: usize) -> (r: Self)
        ensures
            r.wf(),
            r.count() == count,
            r.pages() == Seq::<Result<String, String>>::empty(),
    {
        PageRun { count: count, pages: Vec::new() }
    }

    /// The page to read next: the first that was not read, up to the last or to one that
    /// could not be.
    pub fn next_page(&self) -> (r: Option<usize>)
        requires
            self.wf(),
        ensures
            r is Some <==> self.goes_on(),
            r is Some ==> r->0 == self.pages().len(),
    {
        let n: usize = self.pages.len();
        if n >= self.count {
            return None;
        }
        if n > 0 {
            if let Err(_) = &self.pages[n - 1] {
                return None;
            }
        }
        Some(n)
    }

    /// What came of the page that was to be read.
    pub fn on_page(&mut self, page: Result<String, String>)
        requires
            old(self).wf(),
            old(self).goes_on(),
        ensures
            final(self).wf(),
            final(self).count() == old(self).count(),
            final(self).pages() == old(self).pages().push(page),
    {
        self.pages.push(page);
    }

    /// What came of all of them.
    pub fn finish(self) -> (r: PdfReading)
        ensures
            r matches PdfReading::Pages(pages) && pages@ == self.pages(),
    {
        PdfReading::Pages(self.pages)
    }
}

/// A PDF that is read to the end has every page read, or ends with the one page that
/// could not be.
pub proof fn pages_are_read_to_the_end_or_to_an_error(run: PageRun)
    requires
        run.wf(),
        !run.goes_on(),
    ensures
        run.pages().len() == run.count() && (forall|i: int|
            0 <= i < run.pages().len() ==> (#[trigger] run.pages()[i]) is Ok) || is_first_unread(
            run.pages(),
            run.pages().len() - 1,
        ),
{
    if run.pages().len() > 0 && run.pages().last() is Err {
        assert(is_first_unread(run.pages(), run.pages().len() - 1));
    }
}

/// What a PDF with these pages holds.
pub fn pdf_content(file_name: &str, pages: Vec<String>) -> (r: ExtractedContent)
    ensures
        r.text@ == text::join(text::texts(pages@), "\n"@),
        r.title is Some,
        r.title->0@ == file_name@,
        r.page_count == Some(pages@.len() as usize),
{
    ExtractedContent {
        text: text::join_texts(&pages, "\n"),
        title: Some(text::copy_str(file_name)),
        page_count: Some(pages.len()),
    }
}

/// What is made of reading a PDF.
pub fn pdf_result(file_name: &str, reading: &PdfReading) -> (r: Result<
    ExtractedContent,
    ExtractError,
>)
    ensures
        is_made_of(file_name@, *reading, r),
{
    let pages: &Vec<Result<String, String>> = match reading {
        PdfReading::NotOpened(detail) => {
            return Err(ExtractError::OpenPdf(text::copy_str(detail.as_str())));
        },
        PdfReading::NotCounted(detail) => {
            return Err(ExtractError::PageCount(text::copy_str(detail.as_str())));
        },
        PdfReading::Pages(pages) => pages,
    };
    let mut texts: Vec<String> = Vec::new();
    let mut i: usize = 0;
    while i < pages.len()
        invariant
            i <= pages@.len(),
            *reading == PdfReading::Pages(*pages),
            texts@.len() == i,
            forall|k: int|
                0 <= k < i ==> (#[trigger] pages@[k]) is Ok && texts@[k]@ == pages@[k]->Ok_0@,
        decreases pages@.len() - i,
    {
        match &pages[i] {
            Ok(page) => texts.push(text::copy_str(page.as_str())),
            Err(detail) => {
                return Err(
                    ExtractError::Page { page: i, detail: text::copy_str(detail.as_str()) },
                );
            },
        }
        i = i + 1;
    }
    assert(text::texts(texts@) =~= page_texts(pages@));
    Ok(pdf_content(file_name, texts))
}

impl Extractor for PdfExtractor {
    /// The text of a PDF file: the texts of its pages, one after the other, with a
    /// line break between two.
    fn extract(&self, file: &FileContent) -> (r: Result<Option<ExtractedContent>, ExtractError>)
        ensures
            !is_pdf_extension(file.extension@) ==> r == Ok::<Option<ExtractedContent>, ExtractError>(None),
            is_pdf_extension(file.extension@) ==> is_pdf_result(*file, r),
    {
        if !is_pdf_file(file.extension.as_str()) {
            return Ok(None);
        }
        match &file.pdf {
            Some(reading) => match pdf_result(file.file_name.as_str(), reading) {
                Ok(content) => Ok(Some(content)),
                Err(e) => Err(e),
            },
            None => Err(ExtractError::OpenPdf(text::copy_str("not read as a PDF"))),
        }
    }
}

// ── What is extracted ──

/// Where every page of a PDF was read, what is made of it counts each page, and holds the
/// text of each, one per line and in order.
pub proof fn every_page_is_extracted(
    file_name: Seq<char>,
    pages: Vec<Result<String, String>>,
    r: Result<ExtractedContent, ExtractError>,
) -> (texts: Seq<Seq<char>>)
    requires
        is_made_of(file_name, PdfReading::Pages(pages), r),
        forall|i: int| 0 <= i < pages@.len() ==> (#[trigger] pages@[i]) is Ok,
    ensures
        r is Ok,
        r->Ok_0.page_count == Some(pages@.len() as usize) && r->Ok_0.page_count->0
            == pages@.len(),
        r->Ok_0.title is Some && r->Ok_0.title->0@ == file_name,
        texts.len() == pages@.len(),
        forall|i: int| 0 <= i < pages@.len() ==> (#[trigger] texts[i]) == pages@[i]->Ok_0@,
        r->Ok_0.text@ == text::join(texts, "\n"@),
{
    if let Err(ExtractError::Page { page, detail }) = r {
        assert(pages@[page as int] is Err);
    }
    let texts = Seq::new(pages@.len(), |i: int| pages@[i]->Ok_0@);
    assert(texts =~= page_texts(pages@));
    texts
}

/// The text of each page of a PDF stands in what is extracted of it.
pub proof fn text_of_each_page_is_found(
    file_name: Seq<char>,
    pages: Vec<Result<String, String>>,
    r: Result<ExtractedContent, ExtractError>,
    i: int,
) -> (at: int)
    requires
        is_made_of(file_name, PdfReading::Pages(pages), r),
        forall|k: int| 0 <= k < pages@.len() ==> (#[trigger] pages@[k]) is Ok,
        0 <= i < pages@.len(),
    ensures
        r is Ok,
        0 <= at <= at + pages@[i]->Ok_0@.len() <= r->Ok_0.text@.len(),
        r->Ok_0.text@.subrange(at, at + pages@[i]->Ok_0@.len()) == pages@[i]->Ok_0@,
{
    let texts = every_page_is_extracted(file_name, pages, r);
    assert(texts[i] == pages@[i]->Ok_0@);
    text::every_piece_is_in_what_is_joined(texts, "\n"@, i)
}

/// A PDF that could not be opened, or counted, or has a page that could not be read, is
/// an error that says so: of the first such page, with its number counted from 0.
pub proof fn pdf_errors_say_what_failed(
    file_name: Seq<char>,
    reading: PdfReading,
    r: Result<ExtractedContent, ExtractError>,
)
    requires
        is_made_of(file_name, reading, r),
    ensures
        reading matches PdfReading::NotOpened(detail) ==> (r matches Err(ExtractError::OpenPdf(d))
            && d@ == detail@),
        reading matches PdfReading::NotCounted(detail) ==> (r matches Err(
            ExtractError::PageCount(d),
        ) && d@ == detail@),
        reading matches PdfReading::Pages(pages) ==> forall|k: int|
            0 <= k < pages@.len() && (#[trigger] pages@[k]) is Err && (forall|i: int|
                0 <= i < k ==> (#[trigger] pages@[i]) is Ok) ==> (r matches Err(
                ExtractError::Page { page, detail },
            ) && page == k && detail@ == pages@[k]->Err_0@),
{
    if let PdfReading::Pages(pages) = reading {
        assert forall|k: int|
            0 <= k < pages@.len() && (#[trigger] pages@[k]) is Err && (forall|i: int|
                0 <= i < k ==> (#[trigger] pages@[i]) is Ok) implies (r matches Err(
            ExtractError::Page { page, detail },
        ) && page == k && detail@ == pages@[k]->Err_0@) by {
            if let Err(ExtractError::Page { page, detail }) = r {
                assert(pages@[page as int] is Err);
            }
        }
    }
}

/// The content of a text file is its bytes read as UTF-8, all of them up to ten megabytes
/// and else the first ten; a file of valid UTF-8 is shown as what it encodes.
pub proof fn text_files_are_read_whole(file: FileContent, content: ExtractedContent)
    requires
        is_text_content(file, content),
    ensures
        file.bytes@.len() <= 10485760 ==> content.text@ == utf8_lossy(file.bytes@),
        file.bytes@.len() > 10485760 ==> content.text@ == utf8_lossy(file.bytes@.take(10485760)),
        content.title is Some && content.title->0@ == file.file_name@,
        content.page_count is None,
{
}

/// A file is supported where its extension is one of the listed ones, whatever the case
/// of its letters; the listed ones are `pdf`, `txt`, `md` and `log`.
pub proof fn supported_files_are_found_by_their_extension(
    extension: Seq<char>,
    listed: Seq<Seq<char>>,
    i: int,
)
    requires
        0 <= i < listed.len(),
    ensures
        text::ascii_lowercase(extension) == text::ascii_lowercase(listed[i])
            ==> is_listed_extension(extension, listed),
        (forall|k: int|
            0 <= k < listed.len() ==> text::ascii_lowercase(extension) != text::ascii_lowercase(
                #[trigger] listed[k],
            )) ==> !is_listed_extension(extension, listed),
        is_pdf_extension(extension) <==> text::ascii_lowercase(extension) == "pdf"@,
        is_text_extension(extension) <==> text::lowercase(extension) == "txt"@ || text::lowercase(
            extension,
        ) == "md"@ || text::lowercase(extension) == "log"@,
        SUPPORTED_EXTENSIONS@.len() == 4,
        SUPPORTED_EXTENSIONS@[0]@ == "pdf"@ && SUPPORTED_EXTENSIONS@[1]@ == "txt"@
            && SUPPORTED_EXTENSIONS@[2]@ == "md"@ && SUPPORTED_EXTENSIONS@[3]@ == "log"@,
{
}

/// A PDF file that was not read as one could not be opened; of any other what is extracted
/// is what is made of reading it.
pub proof fn pdf_files_are_read_as_such(
    file: FileContent,
    r: Result<Option<ExtractedContent>, ExtractError>,
)
    requires
        is_pdf_result(file, r),
    ensures
        file.pdf is None ==> (r matches Err(ExtractError::OpenPdf(d)) && d@
            == "not read as a PDF"@),
        file.pdf is Some && r is Ok ==> r->Ok_0 is Some && is_made_of(
            file.file_name@,
            file.pdf->0,
            Ok(r->Ok_0->0),
        ),
        file.pdf is Some && r is Err ==> is_made_of(file.file_name@, file.pdf->0, Err(r->Err_0)),
        vstd::utf8::valid_utf8(file.bytes@) ==> encoded_text(file.bytes@) == Some(
            vstd::utf8::decode_utf8(file.bytes@),
        ),
        !vstd::utf8::valid_utf8(file.bytes@) ==> encoded_text(file.bytes@) is None,
{
}

/// What comes of a PDF whose pages were read has the number of its pages, and one page
/// more gives what there was, a line end, and the text of that page.
pub proof fn each_page_adds_its_text(
    file_name: &str,
    pages: Vec<Result<String, String>>,
    more: Vec<Result<String, String>>,
    page: String,
    r: Result<ExtractedContent, ExtractError>,
    s: Result<ExtractedContent, ExtractError>,
)
    requires
        call_ensures(pdf_result, (file_name, &PdfReading::Pages(pages)), r),
        call_ensures(pdf_result, (file_name, &PdfReading::Pages(more)), s),
        forall|i: int| 0 <= i < pages@.len() ==> (#[trigger] pages@[i]) is Ok,
        more@ == pages@.push(Ok(page)),
    ensures
        r is Ok && s is Ok,
        r->Ok_0.page_count == Some(pages@.len() as usize),
        s->Ok_0.page_count == Some(more@.len() as usize),
        pages@.len() == 0 ==> s->Ok_0.text@ == page@,
        pages@.len() > 0 ==> s->Ok_0.text@ == r->Ok_0.text@ + "\n"@ + page@,
{
    let texts = every_page_is_extracted(file_name@, pages, r);
    assert forall|i: int| 0 <= i < more@.len() implies (#[trigger] more@[i]) is Ok by {
        if i < pages@.len() {
            assert(more@[i] == pages@[i]);
        }
    }
    let all = every_page_is_extracted(file_name@, more, s);
    assert(all =~= texts.push(page@));
    text::joining_appends_each_piece(texts, page@, "\n"@);
}

} // verus!
