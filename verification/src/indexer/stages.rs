//! The chain of extractors that a file is handed to.

use vstd::prelude::*;

use crate::indexer::extractors;
use crate::indexer::extractors::{
    ExtractError, ExtractedContent, Extractor, FileContent, PdfExtractor, TextExtractor,
};
use crate::text;

verus! {

/// A stage of the chain.
#[derive(Debug, Clone, Copy)]
pub enum Stage {
    Pdf(PdfExtractor),
    Text(TextExtractor),
}

/// Whether a stage reads files with this extension.
pub open spec fn handles(stage: Stage, extension: Seq<char>) -> bool {
    match stage {
        Stage::Pdf(_) => extractors::is_pdf_extension(extension),
        Stage::Text(_) => extractors::is_text_extension(extension),
    }
}

/// Whether a result is what a stage gives of a file that it reads.
pub open spec fn is_extracted(
    stage: Stage,
    file: FileContent,
    result: Result<Option<ExtractedContent>, ExtractError>,
) -> bool {
    match stage {
        Stage::Pdf(_) => extractors::is_pdf_result(file, result),
        Stage::Text(_) => result is Ok && result->Ok_0 is Some && extractors::is_text_content(
            file,
            result->Ok_0->0,
        ),
    }
}

/// Whether a result is what a stage gives of a file: nothing of a file that it does not
/// read.
pub open spec fn gives(
    stage: Stage,
    file: FileContent,
    result: Result<Option<ExtractedContent>, ExtractError>,
) -> bool {
    if handles(stage, file.extension@) {
        is_extracted(stage, file, result)
    } else {
        result == Ok::<Option<ExtractedContent>, ExtractError>(None)
    }
}

/// The place of the first stage that reads files with this extension; the number
/// of stages where none does.
pub open spec fn first_stage(stages: Seq<Stage>, extension: Seq<char>) -> int
    decreases stages.len(),
{
    if stages.len() == 0 {
        0
    } else if handles(stages[0], extension) {
        0
    } else {
        1 + first_stage(stages.skip(1), extension)
    }
}

/// What a chain gives of a file: what the first stage that reads such files gives, and
/// nothing where there is none.
pub open spec fn chain_extracts(
    stages: Seq<Stage>,
    file: FileContent,
    result: Result<Option<ExtractedContent>, ExtractError>,
) -> bool {
    let at = first_stage(stages, file.extension@);
    if 0 <= at < stages.len() {
        is_extracted(stages[at], file, result)
    } else {
        result == Ok::<Option<ExtractedContent>, ExtractError>(None)
    }
}

impl Extractor for Stage {
    fn extract(&self, file: &FileContent) -> (r: Result<Option<ExtractedContent>, ExtractError>)
        ensures
            gives(*self, *file, r),
    {
        match self {
            Stage::Pdf(extractor) => extractor.extract(file),
            Stage::Text(extractor) => extractor.extract(file),
        }
    }
}

/// Assemble the extraction pipeline stages in priority order: PDF first, then
/// plain text. The first one that returns `Ok(Some(...))` wins.
pub fn create_extractor_chain() -> (r: Vec<Stage>)
    ensures
        r@ == seq![Stage::Pdf(PdfExtractor), Stage::Text(TextExtractor)],
{
    let mut stages: Vec<Stage> = Vec::new();
    match PdfExtractor::new() {
        Ok(extractor) => stages.push(Stage::Pdf(extractor)),
        Err(_) => {},
    }
    stages.push(Stage::Text(TextExtractor));
    stages
}

/// Run the extractor chain on a file.
/// Returns the extracted content from the first extractor that handles this file.
pub fn run_chain(file: &FileContent, stages: &[Stage]) -> (r: Result<
    Option<ExtractedContent>,
    ExtractError,
>)
    ensures
        chain_extracts(stages@, *file, r),
{
    let mut i: usize = 0;
    assert(stages@.skip(0) =~= stages@);
    while i < stages.len()
        invariant
            i <= stages@.len(),
            first_stage(stages@, file.extension@) == i + first_stage(
                stages@.skip(i as int),
                file.extension@,
            ),
        decreases stages@.len() - i,
    {
        proof {
            assert(stages@.skip(i as int)[0] == stages@[i as int]);
            assert(stages@.skip(i as int).skip(1) =~= stages@.skip(i + 1));
        }
        match stages[i].extract(file) {
            Ok(Some(content)) => {
                return Ok(Some(content));
            },
            Ok(None) => {},
            Err(e) => {
                return Err(e);
            },
        }
        i = i + 1;
    }
    Ok(None)
}

/// The chain of the library reads every supported file and no other: PDF files
/// as such, the rest as text. An error is one of reading the PDF.
pub proof fn chain_reads_supported_files(
    file: FileContent,
    result: Result<Option<ExtractedContent>, ExtractError>,
)
    requires
        chain_extracts(
            seq![Stage::Pdf(PdfExtractor), Stage::Text(TextExtractor)],
            file,
            result,
        ),
    ensures
        extractors::is_pdf_extension(file.extension@) ==> extractors::is_pdf_result(file, result),
        !extractors::is_pdf_extension(file.extension@) && extractors::is_text_extension(
            file.extension@,
        ) ==> result is Ok && result->Ok_0 is Some && extractors::is_text_content(
            file,
            result->Ok_0->0,
        ),
        !extractors::is_pdf_extension(file.extension@) && !extractors::is_text_extension(
            file.extension@,
        ) ==> result == Ok::<Option<ExtractedContent>, ExtractError>(None),
{
    let stages = seq![Stage::Pdf(PdfExtractor), Stage::Text(TextExtractor)];
    reveal_with_fuel(first_stage, 3);
    assert(stages.skip(1) =~= seq![Stage::Text(TextExtractor)]);
    assert(stages.skip(1).skip(1) =~= Seq::<Stage>::empty());
}

/// What the chain makes of a file: of a PDF, by its extension in any case, the text of
/// all its pages where each was read; of a text file its bytes read as UTF-8; and nothing
/// of any other file.
pub proof fn chain_extracts_whole_files(
    file: FileContent,
    pages: Vec<Result<String, String>>,
    result: Result<Option<ExtractedContent>, ExtractError>,
) -> (texts: Seq<Seq<char>>)
    requires
        chain_extracts(
            seq![Stage::Pdf(PdfExtractor), Stage::Text(TextExtractor)],
            file,
            result,
        ),
        file.pdf == Some(extractors::PdfReading::Pages(pages)),
        forall|i: int| 0 <= i < pages@.len() ==> (#[trigger] pages@[i]) is Ok,
    ensures
        text::ascii_lowercase(file.extension@) == "pdf"@ ==> {
            &&& result is Ok && result->Ok_0 is Some
            &&& result->Ok_0->0.page_count is Some && result->Ok_0->0.page_count->0 == pages@.len()
            &&& texts.len() == pages@.len()
            &&& forall|i: int| 0 <= i < pages@.len() ==> (#[trigger] texts[i]) == pages@[i]->Ok_0@
            &&& result->Ok_0->0.text@ == text::join(texts, "\n"@)
        },
        text::ascii_lowercase(file.extension@) != "pdf"@ && (text::lowercase(file.extension@)
            == "txt"@ || text::lowercase(file.extension@) == "md"@ || text::lowercase(
            file.extension@,
        ) == "log"@) ==> {
            &&& result is Ok && result->Ok_0 is Some
            &&& file.bytes@.len() <= 10485760 ==> result->Ok_0->0.text@ == extractors::utf8_lossy(
                file.bytes@,
            )
        },
        text::ascii_lowercase(file.extension@) != "pdf"@ && text::lowercase(file.extension@)
            != "txt"@ && text::lowercase(file.extension@) != "md"@ && text::lowercase(
            file.extension@,
        ) != "log"@ ==> result == Ok::<Option<ExtractedContent>, ExtractError>(None),
{
    chain_reads_supported_files(file, result);
    if text::ascii_lowercase(file.extension@) == "pdf"@ {
        assert(extractors::is_pdf_extension(file.extension@));
        extractors::every_page_is_extracted(
            file.file_name@,
            pages,
            extractors::some_result(result),
        )
    } else {
        if extractors::is_text_extension(file.extension@) {
            extractors::text_files_are_read_whole(file, result->Ok_0->0);
        }
        Seq::empty()
    }
}

} // verus!
