//! The file browser: the order of its rows and what they show.

use vstd::prelude::*;

use crate::json;
use crate::order;
use crate::paths;
use crate::tags::model;
use crate::tags::model::{DocumentInfo, Row};
use crate::text;
use crate::times;

verus! {

/// The file type of PDF files.
pub const PDF_TYPE: &'static str = "pdf";

/// Which column the file browser is sorted by.
#[derive(Debug, Clone, Copy, PartialEq, Eq, Structural)]
pub enum SortColumn {
    Name,
    Date,
    Size,
}

/// Sort direction.
#[derive(Debug, Clone, Copy, PartialEq, Eq, Structural)]
pub enum SortDirection {
    Ascending,
    Descending,
}

// ── The order of the rows ──

/// The other direction.
pub open spec fn turned(direction: SortDirection) -> SortDirection {
    match direction {
        SortDirection::Ascending => SortDirection::Descending,
        SortDirection::Descending => SortDirection::Ascending,
    }
}

/// Compute new sort state when a column header is clicked.
/// If the same column is clicked again, toggle direction; otherwise switch to the
/// new column ascending.
pub fn handle_sort_column_click(
    current_column: SortColumn,
    current_direction: SortDirection,
    clicked_column: SortColumn,
) -> (r: (SortColumn, SortDirection))
    ensures
        r.0 == clicked_column,
        r.1 == if current_column == clicked_column {
            turned(current_direction)
        } else {
            SortDirection::Ascending
        },
{
    if current_column == clicked_column {
        let new_direction = match current_direction {
            SortDirection::Ascending => SortDirection::Descending,
            SortDirection::Descending => SortDirection::Ascending,
        };
        (current_column, new_direction)
    } else {
        (clicked_column, SortDirection::Ascending)
    }
}

/// The text that a document is sorted by under `Name`: the name of its file, or
/// its path where it has none, in lower case.
pub open spec fn name_key(path: Seq<char>) -> Seq<char> {
    text::lowercase(paths::shown_name(path))
}

/// Whether a document comes before another by what a column shows.
pub open spec fn column_less(column: SortColumn, a: model::InfoModel, b: model::InfoModel) -> bool {
    match column {
        SortColumn::Name => text::text_less(name_key(a.path), name_key(b.path)),
        SortColumn::Date => a.modified < b.modified,
        SortColumn::Size => a.size < b.size,
    }
}

/// Whether a document comes before another under a column and a direction.
pub open spec fn doc_less(
    column: SortColumn,
    direction: SortDirection,
    a: model::InfoModel,
    b: model::InfoModel,
) -> bool {
    match direction {
        SortDirection::Ascending => column_less(column, a, b),
        SortDirection::Descending => column_less(column, b, a),
    }
}

/// Whether the document at one place comes before the one at another.
pub open spec fn place_less(
    column: SortColumn,
    direction: SortDirection,
    docs: Seq<model::InfoModel>,
) -> spec_fn(int, int) -> bool {
    |i: int, j: int| doc_less(column, direction, docs[i], docs[j])
}

/// `sorted` is `docs` in the order of a column and a direction, documents that
/// are the same there in the order in which they stood.
pub open spec fn is_sorted(
    column: SortColumn,
    direction: SortDirection,
    docs: Seq<model::InfoModel>,
    sorted: Seq<model::InfoModel>,
) -> bool {
    exists|places: Seq<usize>| #[trigger]
        order::is_stable_order(place_less(column, direction, docs), docs.len() as int, places)
            && sorted == order::permuted(docs, places)
}

/// A column orders documents.
proof fn lemma_columns_order(column: SortColumn, direction: SortDirection, docs: Seq<model::InfoModel>)
    ensures
        order::orders(place_less(column, direction, docs), docs.len() as int),
{
    let lt = place_less(column, direction, docs);
    assert forall|i: int, j: int| #[trigger] lt(i, j) implies !lt(j, i) by {
        text::text_order_is_total(
            name_key(docs[i].path),
            name_key(docs[j].path),
            name_key(docs[i].path),
        );
        text::text_order_is_total(
            name_key(docs[j].path),
            name_key(docs[i].path),
            name_key(docs[j].path),
        );
    }
    assert forall|i: int, j: int, k: int| #[trigger]
        order::before(lt, i, j) && #[trigger] order::before(lt, j, k) implies order::before(lt, i, k) by {
        let a = name_key(docs[i].path);
        let b = name_key(docs[j].path);
        let c = name_key(docs[k].path);
        text::text_order_is_total(a, b, c);
        text::text_order_is_total(b, c, a);
        text::text_order_is_total(c, a, b);
        text::text_order_is_total(a, c, b);
        text::text_order_is_total(b, a, c);
        text::text_order_is_total(c, b, a);
    }
}

/// Sort file browser documents in-place according to the given column and direction.
pub fn sort_docs(docs: &mut Vec<DocumentInfo>, column: SortColumn, direction: SortDirection)
    ensures
        is_sorted(column, direction, model::views(old(docs)@), model::views(final(docs)@)),
{
    let ghost all = model::views(docs@);
    let ghost lt = place_less(column, direction, all);
    proof {
        lemma_columns_order(column, direction, all);
    }
    let mut keys: Vec<String> = Vec::new();
    let mut k: usize = 0;
    while k < docs.len()
        invariant
            k <= docs@.len(),
            all == model::views(docs@),
            keys@.len() == k,
            forall|i: int| 0 <= i < k ==> (#[trigger] keys@[i])@ == name_key(all[i].path),
        decreases docs@.len() - k,
    {
        let name: String = paths::name_to_show(docs[k].file_path.as_str());
        assert(all[k as int].path == docs@[k as int].file_path@);
        keys.push(text::to_lowercase(name.as_str()));
        k = k + 1;
    }
    let mut rows: Vec<DocumentInfo> = Vec::new();
    std::mem::swap(docs, &mut rows);
    let less = |i: usize, j: usize| -> (b: bool)
        requires
            i < rows@.len(),
            j < rows@.len(),
            keys@.len() == rows@.len(),
        ensures
            b == match direction {
                SortDirection::Ascending => match column {
                    SortColumn::Name => text::text_less(keys@[i as int]@, keys@[j as int]@),
                    SortColumn::Date => rows@[i as int].modified_ts < rows@[j as int].modified_ts,
                    SortColumn::Size => rows@[i as int].file_size < rows@[j as int].file_size,
                },
                SortDirection::Descending => match column {
                    SortColumn::Name => text::text_less(keys@[j as int]@, keys@[i as int]@),
                    SortColumn::Date => rows@[j as int].modified_ts < rows@[i as int].modified_ts,
                    SortColumn::Size => rows@[j as int].file_size < rows@[i as int].file_size,
                },
            },
        {
            let (x, y): (usize, usize) = match direction {
                SortDirection::Ascending => (i, j),
                SortDirection::Descending => (j, i),
            };
            match column {
                SortColumn::Name => text::less_text(keys[x].as_str(), keys[y].as_str()),
                SortColumn::Date => rows[x].modified_ts < rows[y].modified_ts,
                SortColumn::Size => rows[x].file_size < rows[y].file_size,
            }
        };
    let n: usize = rows.len();
    let places: Vec<usize> = order::stable_order(Ghost(lt), &less, n);
    let mut a: usize = 0;
    while a < places.len()
        invariant
            a <= places@.len(),
            all == model::views(rows@),
            order::is_stable_order(lt, rows@.len() as int, places@),
            docs@.len() == a,
            forall|i: int| 0 <= i < a ==> (#[trigger] docs@[i])@ == rows@[places@[i] as int]@,
        decreases places@.len() - a,
    {
        docs.push(rows[places[a]].duplicate());
        a = a + 1;
    }
    assert(model::views(docs@) =~= order::permuted(all, places@));
}

/// In a sorted list no document comes before one that stands ahead of it, and
/// every document of the list is there.
pub proof fn sorted_documents_are_in_order(
    column: SortColumn,
    direction: SortDirection,
    docs: Seq<model::InfoModel>,
    sorted: Seq<model::InfoModel>,
)
    requires
        is_sorted(column, direction, docs, sorted),
        docs.len() <= usize::MAX,
    ensures
        sorted.len() == docs.len(),
        forall|a: int, b: int|
            0 <= a < b < sorted.len() ==> !doc_less(
                column,
                direction,
                #[trigger] sorted[b],
                #[trigger] sorted[a],
            ),
        forall|i: int| 0 <= i < docs.len() ==> sorted.contains(#[trigger] docs[i]),
{
    let lt = place_less(column, direction, docs);
    let places = choose|places: Seq<usize>| #[trigger]
        order::is_stable_order(lt, docs.len() as int, places) && sorted == order::permuted(
            docs,
            places,
        );
    lemma_columns_order(column, direction, docs);
    assert forall|a: int, b: int| 0 <= a < b < sorted.len() implies !doc_less(
        column,
        direction,
        #[trigger] sorted[b],
        #[trigger] sorted[a],
    ) by {
        let i = places[a] as int;
        let j = places[b] as int;
        assert(order::before(lt, i, j));
        assert(lt(j, i) == doc_less(column, direction, sorted[b], sorted[a]));
    }
    assert forall|i: int| 0 <= i < docs.len() implies sorted.contains(#[trigger] docs[i]) by {
        assert(places.contains(i as usize));
        let a = choose|a: int| 0 <= a < places.len() && places[a] == i as usize;
        assert(sorted[a] == docs[i]);
    }
}

/// Clicking a header twice sorts by its column the other way round.
pub proof fn second_click_turns_the_order(direction: SortDirection)
    ensures
        turned(turned(direction)) == direction,
        turned(direction) != direction,
{
}

// ── What a row shows ──

/// The multiple of `step` next to `n`; of two that are equally near, the even one.
pub open spec fn nearest_even(n: nat, step: nat) -> nat {
    let below = n / step;
    let rest = n % step;
    if 2 * rest < step {
        below
    } else if 2 * rest > step {
        below + 1
    } else if below % 2 == 0 {
        below
    } else {
        below + 1
    }
}

/// How far apart the numbers are that a binary fraction of 53 digits can hold
/// near `n`.
pub open spec fn precision_step(n: nat) -> nat
    decreases n,
{
    if n < 9007199254740992 {
        1
    } else {
        2 * precision_step(n / 2)
    }
}

/// A size to 53 binary digits.
pub open spec fn rounded_size(size: nat) -> nat {
    nearest_even(size, precision_step(size)) * precision_step(size)
}

/// How many bytes the unit of a size has: the largest unit up to GB that it
/// reaches.
pub open spec fn unit_bytes(size: nat) -> nat {
    if size < 1024 {
        1
    } else if size < 1048576 {
        1024
    } else if size < 1073741824 {
        1048576
    } else {
        1073741824
    }
}

/// The name of a unit.
pub open spec fn unit_name(bytes: nat) -> Seq<char> {
    if bytes == 1 {
        " B"@
    } else if bytes == 1024 {
        " KB"@
    } else if bytes == 1048576 {
        " MB"@
    } else {
        " GB"@
    }
}

/// A size as it is shown: in bytes below a KB, and with one digit behind the
/// point in the largest unit that it reaches otherwise.
pub open spec fn size_text(size: nat) -> Seq<char> {
    let rounded = rounded_size(size);
    let unit = unit_bytes(rounded);
    if unit == 1 {
        json::decimal(size) + unit_name(unit)
    } else {
        let tenths = nearest_even(10 * rounded, unit);
        json::decimal(tenths / 10) + "."@ + json::decimal(tenths % 10) + unit_name(unit)
    }
}

/// The multiple of `step` next to `n`, counted in steps.
fn round_to_step(n: u128, step: u128) -> (r: u128)
    requires
        0 < step,
        n < 1000000000000000000000000,
    ensures
        r == nearest_even(n as nat, step as nat),
{
    let below: u128 = n / step;
    let rest: u128 = n % step;
    proof {
        assert(below <= n) by (nonlinear_arith)
            requires
                below == n / step,
                0 < step,
        ;
        assert(rest <= n) by (nonlinear_arith)
            requires
                rest == n % step,
                0 < step,
        ;
    }
    if rest < step - rest {
        below
    } else if rest > step - rest {
        below + 1
    } else if below % 2 == 0 {
        below
    } else {
        below + 1
    }
}

/// How far apart the numbers are that 53 binary digits can hold near `n`.
fn step_of(n: u64) -> (r: u64)
    ensures
        r == precision_step(n as nat),
        1 <= r,
        r == 1 || r * 4503599627370496 <= n,
    decreases n,
{
    if n < 9007199254740992 {
        1
    } else {
        let half: u64 = step_of(n / 2);
        2 * half
    }
}

/// Format a file size in bytes into a human-readable string.
/// Examples: "0 B", "512 B", "23.4 KB", "1.2 MB", "1.4 GB".
pub fn format_file_size(size: u64) -> (r: String)
    ensures
        r@ == size_text(size as nat),
{
    let step: u64 = step_of(size);
    let steps: u128 = round_to_step(size as u128, step as u128);
    proof {
        assert(steps <= size / step + 1);
        assert(steps * step <= size + step) by (nonlinear_arith)
            requires
                steps <= size / step + 1,
                1 <= step,
        ;
    }
    let rounded: u128 = steps * (step as u128);
    let unit: u128 = if rounded < 1024 {
        1
    } else if rounded < 1048576 {
        1024
    } else if rounded < 1073741824 {
        1048576
    } else {
        1073741824
    };
    let mut r: String;
    if unit == 1 {
        r = json::decimal_text(size);
    } else {
        let tenths: u128 = round_to_step(10 * rounded, unit);
        proof {
            assert(tenths <= (10 * rounded) as nat / unit as nat + 1);
            if unit == 1024 {
                assert(tenths <= u64::MAX);
            } else if unit == 1048576 {
                assert(tenths <= u64::MAX);
            } else {
                assert(tenths <= u64::MAX);
            }
        }
        r = json::decimal_text((tenths / 10) as u64);
        let tenth: String = json::decimal_text((tenths % 10) as u64);
        r.append(".");
        r.append(tenth.as_str());
    }
    if unit == 1 {
        r.append(" B");
    } else if unit == 1024 {
        r.append(" KB");
    } else if unit == 1048576 {
        r.append(" MB");
    } else {
        r.append(" GB");
    }
    r
}

/// A row of the file browser, with the texts that it shows.
#[derive(Debug, Clone)]
pub struct FileBrowserRow {
    pub file_path: String,
    pub content_hash: String,
    pub has_tags: bool,
    /// The icon, a sparkle where there are tags, and the name of the file.
    pub label: String,
    /// The date and the size.
    pub date_size: String,
}

/// How many characters of a file name a row shows.
pub const MAX_NAME_CHARS: usize = 40;

/// The icon of a file type.
pub open spec fn icon_of(file_type: Seq<char>) -> Seq<char> {
    if file_type == PDF_TYPE@ {
        "📄 "@
    } else if file_type == "txt"@ {
        "📝 "@
    } else if file_type == "md"@ {
        "📋 "@
    } else {
        "📎 "@
    }
}

/// A file name cut to what a row shows.
pub open spec fn cut_name(name: Seq<char>) -> Seq<char> {
    if name.len() > MAX_NAME_CHARS {
        name.take(MAX_NAME_CHARS as int).push('…')
    } else {
        name
    }
}

/// What a row shows first: the icon, a sparkle where there are tags, the name.
pub open spec fn row_label(d: model::InfoModel) -> Seq<char> {
    icon_of(d.file_type) + (if d.has_tags {
        "✨"@
    } else {
        ""@
    }) + cut_name(paths::shown_name(d.path))
}

/// A row is that of a document with this date.
pub open spec fn is_row(d: model::InfoModel, date: Seq<char>, row: FileBrowserRow) -> bool {
    &&& row.file_path@ == d.path
    &&& row.content_hash@ == d.hash
    &&& row.has_tags == d.has_tags
    &&& row.label@ == row_label(d)
    &&& row.date_size@ == date + " · "@ + size_text(d.size as nat)
}

/// The date that a row shows.
pub open spec fn shown_date(modified: u64) -> Seq<char> {
    match times::time_text(modified as i64, 0, times::MINUTE_PATTERN@) {
        Some(date) => date,
        None => ""@,
    }
}

/// The rows are those of the documents, in order.
pub open spec fn are_rows(docs: Seq<model::InfoModel>, rows: Seq<FileBrowserRow>) -> bool {
    &&& rows.len() == docs.len()
    &&& forall|i: int|
        0 <= i < docs.len() ==> is_row(docs[i], shown_date(docs[i].modified), #[trigger] rows[i])
}

/// The row of a document, with this date.
pub fn file_browser_row(doc: &DocumentInfo, date: &str) -> (r: FileBrowserRow)
    ensures
        is_row(doc@, date@, r),
{
    let file_type: &str = doc.file_type.as_str();
    let mut label: String = String::new();
    if text::same_text(file_type, PDF_TYPE) {
        label.append("📄 ");
    } else if text::same_text(file_type, "txt") {
        label.append("📝 ");
    } else if text::same_text(file_type, "md") {
        label.append("📋 ");
    } else {
        label.append("📎 ");
    }
    assert(label@ =~= icon_of(doc@.file_type));
    if doc.has_tags {
        label.append("✨");
    } else {
        label.append("");
    }
    let name: String = paths::name_to_show(doc.file_path.as_str());
    let chars: Vec<char> = text::chars_of(name.as_str());
    if chars.len() > MAX_NAME_CHARS {
        let mut cut: String = text::string_of(&chars, 0, MAX_NAME_CHARS);
        assert(cut@ =~= name@.take(MAX_NAME_CHARS as int));
        cut.push('…');
        label.append(cut.as_str());
    } else {
        label.append(name.as_str());
    }
    let size: String = format_file_size(doc.file_size);
    let mut date_size: String = text::copy_str(date);
    date_size.append(" · ");
    date_size.append(size.as_str());
    FileBrowserRow {
        file_path: text::copy_str(doc.file_path.as_str()),
        content_hash: text::copy_str(doc.content_hash.as_str()),
        has_tags: doc.has_tags,
        label: label,
        date_size: date_size,
    }
}

/// Build pre-rendered rows for the file browser panel.
pub fn build_file_browser_rows(docs: &[DocumentInfo]) -> (r: Vec<FileBrowserRow>)
    ensures
        are_rows(model::views(docs@), r@),
{
    let ghost all = model::views(docs@);
    let mut rows: Vec<FileBrowserRow> = Vec::new();
    let mut i: usize = 0;
    while i < docs.len()
        invariant
            i <= docs@.len(),
            all == model::views(docs@),
            rows@.len() == i,
            forall|k: int|
                0 <= k < i ==> is_row(all[k], shown_date(all[k].modified), #[trigger] rows@[k]),
        decreases docs@.len() - i,
    {
        let doc: &DocumentInfo = &docs[i];
        assert(all[i as int] == doc@);
        let seconds: i64 = #[verifier::truncate] (doc.modified_ts as i64);
        let row: FileBrowserRow = match times::format_time(seconds, 0, times::MINUTE_PATTERN) {
            Some(date) => file_browser_row(doc, date.as_str()),
            None => file_browser_row(doc, ""),
        };
        rows.push(row);
        i = i + 1;
    }
    rows
}

// ── What the list shows ──

/// Where the rows of a sorted list come from: each row of the list once, rows of which
/// neither comes before the other as they stood.
proof fn lemma_sorted_places(
    column: SortColumn,
    direction: SortDirection,
    docs: Seq<model::InfoModel>,
    sorted: Seq<model::InfoModel>,
) -> (places: Seq<int>)
    requires
        is_sorted(column, direction, docs, sorted),
        docs.len() <= usize::MAX,
    ensures
        sorted.len() == docs.len(),
        places.len() == docs.len(),
        places.no_duplicates(),
        forall|a: int| 0 <= a < docs.len() ==> 0 <= #[trigger] places[a] < docs.len() && sorted[a]
            == docs[places[a]],
        forall|a: int, b: int|
            0 <= a < b < docs.len() ==> doc_less(column, direction, sorted[a], sorted[b]) || (
            !doc_less(column, direction, sorted[b], sorted[a]) && #[trigger] places[a]
                < #[trigger] places[b]),
{
    let lt = place_less(column, direction, docs);
    let order = choose|order: Seq<usize>| #[trigger]
        order::is_stable_order(lt, docs.len() as int, order) && sorted == order::permuted(
            docs,
            order,
        );
    lemma_columns_order(column, direction, docs);
    let places = order.map_values(|i: usize| i as int);
    assert forall|a: int, b: int| 0 <= a < b < docs.len() implies doc_less(
        column,
        direction,
        sorted[a],
        sorted[b],
    ) || (!doc_less(column, direction, sorted[b], sorted[a]) && #[trigger] places[a]
        < #[trigger] places[b]) by {
        assert(order::before(lt, order[a] as int, order[b] as int));
        assert(lt(places[a], places[b]) == doc_less(column, direction, sorted[a], sorted[b]));
        assert(lt(places[b], places[a]) == doc_less(column, direction, sorted[b], sorted[a]));
    }
    assert forall|a: int, b: int|
        0 <= a < places.len() && 0 <= b < places.len() && a != b implies places[a] != places[b] by {
        let (x, y) = if a < b {
            (a, b)
        } else {
            (b, a)
        };
        assert(order::before(lt, order[x] as int, order[y] as int));
        if places[a] == places[b] {
            assert(!lt(places[x], places[x]) || !lt(places[x], places[x]));
        }
    }
    places
}

/// A list sorted by name holds each document once, in the order of the names of their
/// files in lower case, or against it; documents whose names are the same there stay as
/// they stood.
pub proof fn documents_are_listed_by_their_names(
    direction: SortDirection,
    docs: Seq<model::InfoModel>,
    sorted: Seq<model::InfoModel>,
) -> (places: Seq<int>)
    requires
        is_sorted(SortColumn::Name, direction, docs, sorted),
        docs.len() <= usize::MAX,
    ensures
        sorted.len() == docs.len(),
        places.len() == docs.len(),
        places.no_duplicates(),
        forall|a: int| 0 <= a < docs.len() ==> 0 <= #[trigger] places[a] < docs.len() && sorted[a]
            == docs[places[a]],
        direction == SortDirection::Ascending ==> forall|a: int, b: int|
            0 <= a < b < sorted.len() ==> !text::text_less(
                text::lowercase(paths::shown_name((#[trigger] sorted[b]).path)),
                text::lowercase(paths::shown_name((#[trigger] sorted[a]).path)),
            ),
        direction == SortDirection::Descending ==> forall|a: int, b: int|
            0 <= a < b < sorted.len() ==> !text::text_less(
                text::lowercase(paths::shown_name((#[trigger] sorted[a]).path)),
                text::lowercase(paths::shown_name((#[trigger] sorted[b]).path)),
            ),
        forall|a: int, b: int|
            0 <= a < b < sorted.len() && text::lowercase(paths::shown_name(sorted[a].path))
                == text::lowercase(paths::shown_name(sorted[b].path)) ==> #[trigger] places[a]
                < #[trigger] places[b],
{
    let places = lemma_sorted_places(SortColumn::Name, direction, docs, sorted);
    assert forall|a: int, b: int| 0 <= a < b < sorted.len() implies !doc_less(
        SortColumn::Name,
        direction,
        #[trigger] sorted[b],
        #[trigger] sorted[a],
    ) by {
        let x = text::lowercase(paths::shown_name(sorted[a].path));
        let y = text::lowercase(paths::shown_name(sorted[b].path));
        text::text_order_is_total(x, y, x);
        assert(places[a] < docs.len() && places[b] < docs.len());
    }
    assert forall|a: int, b: int|
        0 <= a < b < sorted.len() && text::lowercase(paths::shown_name(sorted[a].path))
            == text::lowercase(paths::shown_name(sorted[b].path)) implies #[trigger] places[a]
        < #[trigger] places[b] by {
        let x = text::lowercase(paths::shown_name(sorted[a].path));
        text::text_order_is_total(x, x, x);
    }
    places
}

/// A list sorted by date, or by size, holds each document once, the smaller one first or
/// the larger one; documents that are the same there stay as they stood.
pub proof fn documents_are_listed_by_date_or_size(
    column: SortColumn,
    direction: SortDirection,
    docs: Seq<model::InfoModel>,
    sorted: Seq<model::InfoModel>,
) -> (places: Seq<int>)
    requires
        is_sorted(column, direction, docs, sorted),
        docs.len() <= usize::MAX,
        column != SortColumn::Name,
    ensures
        sorted.len() == docs.len(),
        places.len() == docs.len(),
        places.no_duplicates(),
        forall|a: int| 0 <= a < docs.len() ==> 0 <= #[trigger] places[a] < docs.len() && sorted[a]
            == docs[places[a]],
        forall|a: int, b: int|
            0 <= a < b < sorted.len() ==> match (column, direction) {
                (SortColumn::Date, SortDirection::Ascending) => sorted[a].modified
                    <= sorted[b].modified && (sorted[a].modified == sorted[b].modified ==> places[a]
                    < places[b]),
                (SortColumn::Date, SortDirection::Descending) => sorted[a].modified
                    >= sorted[b].modified && (sorted[a].modified == sorted[b].modified ==> places[a]
                    < places[b]),
                (SortColumn::Size, SortDirection::Ascending) => sorted[a].size <= sorted[b].size
                    && (sorted[a].size == sorted[b].size ==> places[a] < places[b]),
                (SortColumn::Size, SortDirection::Descending) => sorted[a].size >= sorted[b].size
                    && (sorted[a].size == sorted[b].size ==> #[trigger] places[a]
                    < #[trigger] places[b]),
                (SortColumn::Name, _) => false,
            },
{
    lemma_sorted_places(column, direction, docs, sorted)
}

/// The multiple of a step that is taken is one of the two next to a number, and no
/// further from it than half a step.
proof fn lemma_nearest(n: nat, step: nat)
    requires
        step > 0,
    ensures
        2 * n <= 2 * nearest_even(n, step) * step + step,
        2 * nearest_even(n, step) * step <= 2 * n + step,
{
    let below = n / step;
    let rest = n % step;
    assert(n == below * step + rest && 0 <= rest < step) by (nonlinear_arith)
        requires
            step > 0,
            below == n / step,
            rest == n % step,
    ;
    assert((below + 1) * step == below * step + step) by (nonlinear_arith);
    assert(2 * below * step == 2 * (below * step)) by (nonlinear_arith);
    assert(2 * (below + 1) * step == 2 * ((below + 1) * step)) by (nonlinear_arith);
}

/// A size below a KB is shown in bytes; one below a MB in KB, one below a GB in MB, and
/// any other in GB, each with one digit behind the point, as near to it as one digit can
/// be.
pub proof fn sizes_are_shown_to_one_digit(size: nat) -> (tenths: nat)
    requires
        size < 9007199254740992,
    ensures
        size < 1024 ==> size_text(size) == json::decimal(size) + " B"@,
        1024 <= size < 1048576 ==> size_text(size) == json::decimal(tenths / 10) + "."@
            + json::decimal(tenths % 10) + " KB"@ && 20 * size <= 2 * tenths * 1024 + 1024 && 2
            * tenths * 1024 <= 20 * size + 1024,
        1048576 <= size < 1073741824 ==> size_text(size) == json::decimal(tenths / 10) + "."@
            + json::decimal(tenths % 10) + " MB"@ && 20 * size <= 2 * tenths * 1048576 + 1048576
            && 2 * tenths * 1048576 <= 20 * size + 1048576,
        1073741824 <= size ==> size_text(size) == json::decimal(tenths / 10) + "."@
            + json::decimal(tenths % 10) + " GB"@ && 20 * size <= 2 * tenths * 1073741824
            + 1073741824 && 2 * tenths * 1073741824 <= 20 * size + 1073741824,
{
    assert(precision_step(size) == 1);
    assert(rounded_size(size) == size) by {
        assert(size / 1 == size && size % 1 == 0);
    }
    let unit = unit_bytes(size);
    lemma_nearest(10 * size, unit);
    nearest_even(10 * size, unit)
}

/// A size that has more than 53 binary digits is rounded to as many before it is shown:
/// by no more than one part in 2 to the 53.
pub proof fn large_sizes_are_rounded_little(size: nat)
    ensures
        size < 9007199254740992 ==> rounded_size(size) == size,
        size >= 9007199254740992 ==> {
            &&& 9007199254740992 * rounded_size(size) <= 9007199254740993 * size
            &&& 9007199254740991 * size <= 9007199254740992 * rounded_size(size)
        },
{
    let step = precision_step(size);
    lemma_step(size);
    lemma_nearest(size, step);
    let rounded = nearest_even(size, step) * step;
    assert(2 * nearest_even(size, step) * step == 2 * rounded) by (nonlinear_arith)
        requires
            rounded == nearest_even(size, step) * step,
    ;
    if size < 9007199254740992 {
        assert(size / 1 == size && size % 1 == 0);
    }
}

/// A step is no larger than one part in 2 to the 52.
proof fn lemma_step(n: nat)
    ensures
        precision_step(n) >= 1,
        n >= 9007199254740992 ==> precision_step(n) * 4503599627370496 <= n,
        n < 9007199254740992 ==> precision_step(n) == 1,
    decreases n,
{
    if n >= 9007199254740992 {
        lemma_step(n / 2);
    }
}

/// A row shows the icon of the type of its file, a sparkle where the document has tags,
/// and the name of the file, whole where it has no more than 40 characters and else its
/// first 40 and an ellipsis; beside them the date and the size.
pub proof fn rows_show_their_documents(
    docs: Seq<model::InfoModel>,
    rows: Seq<FileBrowserRow>,
    i: int,
)
    requires
        are_rows(docs, rows),
        0 <= i < docs.len(),
    ensures
        rows.len() == docs.len(),
        rows[i].file_path@ == docs[i].path,
        rows[i].content_hash@ == docs[i].hash,
        rows[i].has_tags == docs[i].has_tags,
        ({
            let name = paths::shown_name(docs[i].path);
            let shown = if name.len() <= 40 {
                name
            } else {
                name.take(40).push('…')
            };
            let icon = if docs[i].file_type == "pdf"@ {
                "📄 "@
            } else if docs[i].file_type == "txt"@ {
                "📝 "@
            } else if docs[i].file_type == "md"@ {
                "📋 "@
            } else {
                "📎 "@
            };
            rows[i].label@ == icon + (if docs[i].has_tags {
                "✨"@
            } else {
                ""@
            }) + shown
        }),
        rows[i].date_size@ == (match times::time_text(
            docs[i].modified as i64,
            0,
            "%Y-%m-%d %H:%M"@,
        ) {
            Some(date) => date,
            None => ""@,
        }) + " · "@ + size_text(docs[i].size as nat),
{
    assert(is_row(docs[i], shown_date(docs[i].modified), rows[i]));
}

/// A size of any number of digits is shown in the unit of what it is rounded to, as near
/// to that as one digit behind the point can be.
pub proof fn large_sizes_are_shown_in_gigabytes(size: nat) -> (tenths: nat)
    requires
        size >= 9007199254740992,
    ensures
        size_text(size) == json::decimal(tenths / 10) + "."@ + json::decimal(tenths % 10) + " GB"@,
        20 * rounded_size(size) <= 2 * tenths * 1073741824 + 1073741824,
        2 * tenths * 1073741824 <= 20 * rounded_size(size) + 1073741824,
{
    large_sizes_are_rounded_little(size);
    let rounded = rounded_size(size);
    assert(rounded >= 1073741824) by {
        assert(9007199254740991 * size <= 9007199254740992 * rounded);
    }
    lemma_nearest(10 * rounded, 1073741824);
    nearest_even(10 * rounded, 1073741824)
}

/// The header that is clicked again turns the order, and what orders two documents is the
/// column: the name of the file in lower case, the date, or the size.
pub proof fn columns_order_by_what_they_show(a: model::InfoModel, b: model::InfoModel)
    ensures
        turned(SortDirection::Ascending) == SortDirection::Descending,
        turned(SortDirection::Descending) == SortDirection::Ascending,
        doc_less(SortColumn::Name, SortDirection::Ascending, a, b) == text::text_less(
            text::lowercase(paths::shown_name(a.path)),
            text::lowercase(paths::shown_name(b.path)),
        ),
        doc_less(SortColumn::Date, SortDirection::Ascending, a, b) == (a.modified < b.modified),
        doc_less(SortColumn::Size, SortDirection::Ascending, a, b) == (a.size < b.size),
        doc_less(SortColumn::Name, SortDirection::Descending, a, b) == text::text_less(
            text::lowercase(paths::shown_name(b.path)),
            text::lowercase(paths::shown_name(a.path)),
        ),
        doc_less(SortColumn::Date, SortDirection::Descending, a, b) == (b.modified < a.modified),
        doc_less(SortColumn::Size, SortDirection::Descending, a, b) == (b.size < a.size),
{
}

/// Two clicks on the header of a column sort by it, the second the other way round; a
/// third restores the order of the first.
pub proof fn clicks_on_a_header_turn_the_order(
    column: SortColumn,
    direction: SortDirection,
    clicked: SortColumn,
    first: (SortColumn, SortDirection),
    second: (SortColumn, SortDirection),
    third: (SortColumn, SortDirection),
)
    requires
        call_ensures(handle_sort_column_click, (column, direction, clicked), first),
        call_ensures(handle_sort_column_click, (first.0, first.1, clicked), second),
        call_ensures(handle_sort_column_click, (second.0, second.1, clicked), third),
    ensures
        first.0 == clicked && second.0 == clicked && third == first,
        second.1 != first.1,
        column != clicked ==> first.1 == SortDirection::Ascending,
        column == clicked ==> first.1 != direction,
{
}

} // verus!
