//! Search requests, search results and the spans to highlight in a snippet.

use vstd::prelude::*;

use crate::text;

verus! {

/// A search request with query string and options.
#[derive(Debug, Clone)]
pub struct SearchRequest {
    pub query: String,
    pub tag_filters: Vec<String>,
    pub fuzzy: bool,
    pub limit: usize,
}

impl SearchRequest {
    /// Create a new search request with defaults (no tag filters, exact match, limit 50).
    pub fn new(query: String) -> (r: Self)
        ensures
            r.query == query,
            r.tag_filters@ == Seq::<String>::empty(),
            r.fuzzy == false,
            r.limit == 50,
    {
        SearchRequest { query: query, tag_filters: Vec::new(), fuzzy: false, limit: 50 }
    }

    /// Set tag filters for this request.
    pub fn with_tags(self, tags: Vec<String>) -> (r: Self)
        ensures
            r == (SearchRequest { tag_filters: tags, ..self }),
    {
        SearchRequest { query: self.query, tag_filters: tags, fuzzy: self.fuzzy, limit: self.limit }
    }

    /// Enable fuzzy matching.
    pub fn with_fuzzy(self, fuzzy: bool) -> (r: Self)
        ensures
            r == (SearchRequest { fuzzy: fuzzy, ..self }),
    {
        SearchRequest {
            query: self.query,
            tag_filters: self.tag_filters,
            fuzzy: fuzzy,
            limit: self.limit,
        }
    }

    /// Set result limit.
    pub fn with_limit(self, limit: usize) -> (r: Self)
        ensures
            r == (SearchRequest { limit: limit, ..self }),
    {
        SearchRequest {
            query: self.query,
            tag_filters: self.tag_filters,
            fuzzy: self.fuzzy,
            limit: limit,
        }
    }
}

/// A single search result.
#[derive(Debug, Clone)]
pub struct SearchResult {
    pub file_name: String,
    pub file_path: String,
    pub file_type: String,
    pub snippet: String,
    pub match_count: usize,
    /// The lower-cased words of the query.
    pub match_terms: Vec<String>,
    /// Highlight spans into `snippet`: byte offsets, merged, on character
    /// boundaries. They are computed once per search, not once per frame.
    pub highlight_spans: Vec<(usize, usize)>,
    pub content_hash: String,
    pub tags: Vec<String>,
    pub lower_snippet: String,
}

/// What a search result holds.
#[verifier::ext_equal]
pub struct ResultModel {
    pub file_name: Seq<char>,
    pub file_path: Seq<char>,
    pub file_type: Seq<char>,
    pub snippet: Seq<char>,
    pub match_count: usize,
    pub match_terms: Seq<Seq<char>>,
    pub highlight_spans: Seq<(usize, usize)>,
    pub content_hash: Seq<char>,
    pub tags: Seq<Seq<char>>,
    pub lower_snippet: Seq<char>,
}

impl View for SearchResult {
    type V = ResultModel;

    open spec fn view(&self) -> ResultModel {
        ResultModel {
            file_name: self.file_name@,
            file_path: self.file_path@,
            file_type: self.file_type@,
            snippet: self.snippet@,
            match_count: self.match_count,
            match_terms: text::texts(self.match_terms@),
            highlight_spans: self.highlight_spans@,
            content_hash: self.content_hash@,
            tags: text::texts(self.tags@),
            lower_snippet: self.lower_snippet@,
        }
    }
}

/// A copy of some spans.
fn copy_spans(spans: &Vec<(usize, usize)>) -> (r: Vec<(usize, usize)>)
    ensures
        r@ == spans@,
{
    let mut r: Vec<(usize, usize)> = Vec::new();
    let mut i: usize = 0;
    while i < spans.len()
        invariant
            i <= spans@.len(),
            r@ == spans@.take(i as int),
        decreases spans@.len() - i,
    {
        r.push(spans[i]);
        assert(r@ =~= spans@.take(i + 1));
        i = i + 1;
    }
    assert(spans@.take(spans@.len() as int) =~= spans@);
    r
}

impl SearchResult {
    /// A copy of a result, with these terms and tags in place of its own.
    pub fn with_terms_and_tags(&self, match_terms: Vec<String>, tags: Vec<String>) -> (r: Self)
        ensures
            r@ == (ResultModel {
                match_terms: text::texts(match_terms@),
                tags: text::texts(tags@),
                ..self@
            }),
    {
        SearchResult {
            file_name: text::copy_str(self.file_name.as_str()),
            file_path: text::copy_str(self.file_path.as_str()),
            file_type: text::copy_str(self.file_type.as_str()),
            snippet: text::copy_str(self.snippet.as_str()),
            match_count: self.match_count,
            match_terms: match_terms,
            highlight_spans: copy_spans(&self.highlight_spans),
            content_hash: text::copy_str(self.content_hash.as_str()),
            tags: tags,
            lower_snippet: text::copy_str(self.lower_snippet.as_str()),
        }
    }

    /// A copy of a result.
    pub fn duplicate(&self) -> (r: Self)
        ensures
            r@ == self@,
    {
        let terms: Vec<String> = text::clone_strings(&self.match_terms);
        let tags: Vec<String> = text::clone_strings(&self.tags);
        self.with_terms_and_tags(terms, tags)
    }
}

/// Collection of search results with metadata.
#[derive(Debug, Clone)]
pub struct SearchResults {
    pub items: Vec<SearchResult>,
    pub total_hits: usize,
}

// ── Highlight spans ──

/// The UTF-8 bytes of a text.
pub open spec fn utf8_bytes(s: Seq<char>) -> Seq<u8> {
    vstd::utf8::encode_utf8(s)
}

/// The bytes of `needle` stand in `hay` at `at`.
pub open spec fn occurs_at(hay: Seq<u8>, needle: Seq<u8>, at: int) -> bool {
    &&& 0 <= at
    &&& at + needle.len() <= hay.len()
    &&& hay.subrange(at, at + needle.len()) == needle
}

/// A left-to-right scan that starts at `from` finds `needle` at `at`, where each
/// match is searched for after the end of the one before it.
pub open spec fn scan_finds(hay: Seq<u8>, needle: Seq<u8>, from: int, at: int) -> bool
    decreases hay.len() - from,
{
    if needle.len() == 0 || from < 0 || from + needle.len() > hay.len() {
        false
    } else if occurs_at(hay, needle, from) {
        at == from || scan_finds(hay, needle, from + needle.len(), at)
    } else {
        scan_finds(hay, needle, from + 1, at)
    }
}

/// `span` is a match of `term` in the lower-cased snippet, and both of its ends
/// are character boundaries of the snippet itself.
pub open spec fn is_term_span(snippet: Seq<u8>, lower: Seq<u8>, term: Seq<u8>, span: (int, int)) -> bool {
    &&& scan_finds(lower, term, 0, span.0)
    &&& span.1 == span.0 + term.len()
    &&& vstd::utf8::is_char_boundary(snippet, span.0)
    &&& vstd::utf8::is_char_boundary(snippet, span.1)
}

/// Byte `p` lies in a match of one of the first `n` terms.
pub open spec fn term_covers(
    snippet: Seq<u8>,
    lower: Seq<u8>,
    terms: Seq<Seq<u8>>,
    n: int,
    p: int,
) -> bool {
    exists|t: int, start: int|
        0 <= t < n && #[trigger] is_term_span(
            snippet,
            lower,
            terms[t],
            (start, start + terms[t].len()),
        ) && start <= p < start + terms[t].len()
}

/// Byte `p` lies in one of the spans.
pub open spec fn span_covers(spans: Seq<(usize, usize)>, p: int) -> bool {
    exists|i: int| 0 <= i < spans.len() && (#[trigger] spans[i]).0 <= p < spans[i].1
}

/// The spans are not empty, come in order, and no two of them touch.
pub open spec fn separated(spans: Seq<(usize, usize)>) -> bool {
    &&& forall|i: int| 0 <= i < spans.len() ==> (#[trigger] spans[i]).0 < spans[i].1
    &&& forall|i: int, j: int| 0 <= i < j < spans.len() ==> (#[trigger] spans[i]).1 < (#[trigger] spans[j]).0
}

/// Both ends of every span are character boundaries.
pub open spec fn on_boundaries(snippet: Seq<u8>, spans: Seq<(usize, usize)>) -> bool {
    forall|i: int|
        0 <= i < spans.len() ==> vstd::utf8::is_char_boundary(snippet, (#[trigger] spans[i]).0 as int)
            && vstd::utf8::is_char_boundary(snippet, spans[i].1 as int)
}

/// The UTF-8 bytes of each term.
pub open spec fn term_bytes(terms: Seq<String>) -> Seq<Seq<u8>> {
    terms.map_values(|t: String| utf8_bytes(t@))
}

/// The spans come in the order of their starts, and none is empty.
spec fn ordered(spans: Seq<(usize, usize)>) -> bool {
    &&& forall|i: int| 0 <= i < spans.len() ==> (#[trigger] spans[i]).0 < spans[i].1
    &&& forall|i: int, j: int| 0 <= i < j < spans.len() ==> (#[trigger] spans[i]).0 <= (#[trigger] spans[j]).0
}

/// Whether the bytes of `needle` stand in `hay` at `at`.
fn bytes_match_at(hay: &[u8], needle: &[u8], at: usize) -> (r: bool)
    requires
        at + needle@.len() <= hay@.len(),
    ensures
        r == occurs_at(hay@, needle@, at as int),
{
    let total: usize = hay.len();
    let mut i: usize = 0;
    while i < needle.len()
        invariant
            i <= needle@.len(),
            at + needle@.len() <= hay@.len() == total,
            forall|k: int| 0 <= k < i ==> hay@[at + k] == needle@[k],
        decreases needle@.len() - i,
    {
        if hay[at + i] != needle[i] {
            assert(hay@.subrange(at as int, at + needle@.len())[i as int] != needle@[i as int]);
            return false;
        }
        i = i + 1;
    }
    assert(hay@.subrange(at as int, at + needle@.len()) =~= needle@);
    true
}

/// Puts a span in its place among spans that are in order.
fn insert_span(spans: &mut Vec<(usize, usize)>, span: (usize, usize))
    requires
        ordered(old(spans)@),
        span.0 < span.1,
    ensures
        ordered(final(spans)@),
        forall|p: int|
            #[trigger] span_covers(final(spans)@, p) <==> span_covers(old(spans)@, p) || span.0 <= p
                < span.1,
        forall|s: Seq<u8>|
            on_boundaries(s, old(spans)@) && vstd::utf8::is_char_boundary(s, span.0 as int)
                && vstd::utf8::is_char_boundary(s, span.1 as int) ==> #[trigger] on_boundaries(
                s,
                final(spans)@,
            ),
{
    let ghost before = spans@;
    let mut at: usize = spans.len();
    while at > 0 && spans[at - 1].0 > span.0
        invariant
            at <= spans@.len(),
            spans@ == before,
            ordered(before),
            forall|k: int| at <= k < spans@.len() ==> (#[trigger] before[k]).0 > span.0,
        decreases at,
    {
        at = at - 1;
    }
    spans.insert(at, span);
    let ghost after = spans@;
    proof {
        assert(after == before.insert(at as int, span));
        assert forall|i: int, j: int| 0 <= i < j < after.len() implies (#[trigger] after[i]).0 <= (
        #[trigger] after[j]).0 by {
            if at > 0 {
                assert(before[at - 1].0 <= span.0);
            }
            if i < at && j == at {
                assert(before[i].0 <= before[at - 1].0);
            }
        }
        assert forall|s: Seq<u8>|
            on_boundaries(s, before) && vstd::utf8::is_char_boundary(s, span.0 as int)
                && vstd::utf8::is_char_boundary(s, span.1 as int) implies #[trigger] on_boundaries(
            s,
            after,
        ) by {
            assert forall|i: int| 0 <= i < after.len() implies vstd::utf8::is_char_boundary(
                s,
                (#[trigger] after[i]).0 as int,
            ) && vstd::utf8::is_char_boundary(s, after[i].1 as int) by {
                if i < at {
                    assert(before[i] == after[i]);
                } else if i > at {
                    assert(before[i - 1] == after[i]);
                }
            }
        }
        assert forall|p: int| #[trigger] span_covers(after, p) <==> span_covers(before, p) || span.0
            <= p < span.1 by {
            if span_covers(after, p) {
                let i = choose|i: int| 0 <= i < after.len() && (#[trigger] after[i]).0 <= p < after[i].1;
                if i < at {
                    assert(before[i] == after[i]);
                } else if i > at {
                    assert(before[i - 1] == after[i]);
                }
            }
            if span_covers(before, p) {
                let i = choose|i: int|
                    0 <= i < before.len() && (#[trigger] before[i]).0 <= p < before[i].1;
                if i < at {
                    assert(after[i] == before[i]);
                } else {
                    assert(after[i + 1] == before[i]);
                }
            }
            if span.0 <= p < span.1 {
                assert(after[at as int] == span);
            }
        }
    }
}

/// Adds the matches of one term, where both ends are character boundaries of
/// the snippet, to spans that are in order.
fn add_term_spans(spans: &mut Vec<(usize, usize)>, snippet: &str, lower_snippet: &str, term: &str)
    requires
        ordered(old(spans)@),
        on_boundaries(utf8_bytes(snippet@), old(spans)@),
    ensures
        ordered(final(spans)@),
        on_boundaries(utf8_bytes(snippet@), final(spans)@),
        forall|p: int|
            #[trigger] span_covers(final(spans)@, p) <==> span_covers(old(spans)@, p) || exists|
                start: int,
            |
                #[trigger] is_term_span(
                    utf8_bytes(snippet@),
                    utf8_bytes(lower_snippet@),
                    utf8_bytes(term@),
                    (start, start + utf8_bytes(term@).len()),
                ) && start <= p < start + utf8_bytes(term@).len(),
{
    let hay: &[u8] = lower_snippet.as_bytes();
    let needle: &[u8] = term.as_bytes();
    let total: usize = hay.len();
    let width: usize = needle.len();
    if width == 0 {
        return;
    }
    let ghost s = utf8_bytes(snippet@);
    let ghost before = spans@;
    let mut from: usize = 0;
    proof {
        assert forall|start: int| start < from implies !(#[trigger] is_term_span(
            s,
            hay@,
            needle@,
            (start, start + needle@.len()),
        )) by {
            lemma_scan_step(hay@, needle@, 0, start);
        }
    }
    while from <= total && width <= total - from
        invariant
            from <= total == hay@.len(),
            0 < width == needle@.len(),
            hay@ == utf8_bytes(lower_snippet@),
            needle@ == utf8_bytes(term@),
            s == utf8_bytes(snippet@),
            ordered(before),
            ordered(spans@),
            on_boundaries(s, spans@),
            forall|at: int|
                at >= from ==> #[trigger] scan_finds(hay@, needle@, 0, at) == scan_finds(
                    hay@,
                    needle@,
                    from as int,
                    at,
                ),
            forall|p: int|
                #[trigger] span_covers(spans@, p) <==> span_covers(before, p) || exists|start: int|
                    start < from && #[trigger] is_term_span(
                        s,
                        hay@,
                        needle@,
                        (start, start + needle@.len()),
                    ) && start <= p < start + needle@.len(),
        decreases total - from,
    {
        let ghost spans0 = spans@;
        proof {
            lemma_scan_step(hay@, needle@, from as int, from as int);
            assert(scan_finds(hay@, needle@, 0, from as int) == scan_finds(
                hay@,
                needle@,
                from as int,
                from as int,
            ));
        }
        let found: bool = bytes_match_at(hay, needle, from);
        let to: usize = if found { from + width } else { from + 1 };
        proof {
            assert forall|at: int| at >= to implies #[trigger] scan_finds(hay@, needle@, 0, at)
                == scan_finds(hay@, needle@, to as int, at) by {
                lemma_scan_step(hay@, needle@, from as int, at);
            }
            assert forall|at: int| from < at < to implies !(#[trigger] scan_finds(hay@, needle@, 0, at)) by {
                lemma_scan_step(hay@, needle@, from as int, at);
                lemma_scan_step(hay@, needle@, to as int, at);
            }
        }
        if found && snippet.is_char_boundary(from) && snippet.is_char_boundary(to) {
            insert_span(spans, (from, to));
        }
        proof {
            lemma_covers_step(spans0, spans@, s, hay@, needle@, before, from as int, to as int);
        }
        from = to;
    }
    proof {
        assert forall|start: int| #[trigger] is_term_span(
            s,
            hay@,
            needle@,
            (start, start + needle@.len()),
        ) implies start < from by {
            if start >= from {
                assert(scan_finds(hay@, needle@, 0, start));
                assert(scan_finds(hay@, needle@, from as int, start));
            }
        }
    }
}

/// The scan from `from` finds only places at or after `from`; what it finds at
/// `from` itself is an occurrence; and what it finds later, it finds from where
/// it goes on.
proof fn lemma_scan_step(hay: Seq<u8>, needle: Seq<u8>, from: int, at: int)
    requires
        needle.len() > 0,
    ensures
        scan_finds(hay, needle, from, at) ==> from <= at,
        0 <= from ==> scan_finds(hay, needle, from, from) == occurs_at(hay, needle, from),
        0 <= from && occurs_at(hay, needle, from) && at > from ==> scan_finds(hay, needle, from, at)
            == scan_finds(hay, needle, from + needle.len(), at),
        0 <= from && from + needle.len() <= hay.len() && !occurs_at(hay, needle, from)
            ==> scan_finds(hay, needle, from, at) == scan_finds(hay, needle, from + 1, at),
    decreases hay.len() - from,
{
    if 0 <= from && from + needle.len() <= hay.len() {
        if occurs_at(hay, needle, from) {
            lemma_scan_step(hay, needle, from + needle.len(), at);
        } else {
            lemma_scan_step(hay, needle, from + 1, at);
            lemma_scan_step(hay, needle, from + 1, from);
        }
    }
}

/// One step of the scan: what the spans cover once the places before `to` have
/// been looked at, given what they cover for the places before `from`.
proof fn lemma_covers_step(
    spans0: Seq<(usize, usize)>,
    spans1: Seq<(usize, usize)>,
    s: Seq<u8>,
    hay: Seq<u8>,
    needle: Seq<u8>,
    before: Seq<(usize, usize)>,
    from: int,
    to: int,
)
    requires
        from < to,
        forall|start: int|
            from < start < to ==> !(#[trigger] scan_finds(hay, needle, 0, start)),
        forall|p: int|
            #[trigger] span_covers(spans0, p) <==> span_covers(before, p) || exists|start: int|
                start < from && #[trigger] is_term_span(s, hay, needle, (start, start + needle.len()))
                    && start <= p < start + needle.len(),
        if is_term_span(s, hay, needle, (from, from + needle.len())) {
            forall|p: int|
                #[trigger] span_covers(spans1, p) <==> span_covers(spans0, p) || from <= p < from
                    + needle.len()
        } else {
            spans1 == spans0
        },
    ensures
        forall|p: int|
            #[trigger] span_covers(spans1, p) <==> span_covers(before, p) || exists|start: int|
                start < to && #[trigger] is_term_span(s, hay, needle, (start, start + needle.len()))
                    && start <= p < start + needle.len(),
{
    assert forall|p: int| #[trigger] span_covers(spans1, p) <==> span_covers(before, p) || exists|
        start: int,
    |
        start < to && #[trigger] is_term_span(s, hay, needle, (start, start + needle.len())) && start
            <= p < start + needle.len() by {
        assert(span_covers(spans0, p) || !span_covers(spans0, p));
        if exists|start: int|
            start < to && #[trigger] is_term_span(s, hay, needle, (start, start + needle.len()))
                && start <= p < start + needle.len() {
            let start = choose|start: int|
                start < to && #[trigger] is_term_span(s, hay, needle, (start, start + needle.len()))
                    && start <= p < start + needle.len();
            assert(scan_finds(hay, needle, 0, start));
            assert(start <= from);
        }
    }
}

/// Find all match positions of the (lower-cased) terms in a snippet, merge
/// spans that overlap or touch, and drop those that do not lie on character
/// boundaries of the snippet. The offsets come from the lower-cased text, which
/// can misalign with the snippet where a letter changes its length.
pub fn compute_highlight_spans(
    snippet: &str,
    lower_snippet: &str,
    match_terms: &[String],
) -> (merged: Vec<(usize, usize)>)
    ensures
        separated(merged@),
        on_boundaries(utf8_bytes(snippet@), merged@),
        forall|p: int|
            #[trigger] span_covers(merged@, p) <==> term_covers(
                utf8_bytes(snippet@),
                utf8_bytes(lower_snippet@),
                term_bytes(match_terms@),
                match_terms@.len() as int,
                p,
            ),
{
    let ghost s = utf8_bytes(snippet@);
    let ghost lower = utf8_bytes(lower_snippet@);
    let ghost terms = term_bytes(match_terms@);
    let mut spans: Vec<(usize, usize)> = Vec::new();
    let mut t: usize = 0;
    while t < match_terms.len()
        invariant
            t <= match_terms@.len(),
            s == utf8_bytes(snippet@),
            lower == utf8_bytes(lower_snippet@),
            terms == term_bytes(match_terms@),
            ordered(spans@),
            on_boundaries(s, spans@),
            forall|p: int|
                #[trigger] span_covers(spans@, p) <==> term_covers(s, lower, terms, t as int, p),
        decreases match_terms@.len() - t,
    {
        let ghost spans0 = spans@;
        add_term_spans(&mut spans, snippet, lower_snippet, match_terms[t].as_str());
        proof {
            let term = terms[t as int];
            assert forall|p: int| #[trigger] span_covers(spans@, p) <==> term_covers(
                s,
                lower,
                terms,
                t + 1,
                p,
            ) by {
                assert(span_covers(spans0, p) == term_covers(s, lower, terms, t as int, p));
                if term_covers(s, lower, terms, t + 1, p) {
                    let (k, start) = choose|k: int, start: int|
                        0 <= k < t + 1 && #[trigger] is_term_span(
                            s,
                            lower,
                            terms[k],
                            (start, start + terms[k].len()),
                        ) && start <= p < start + terms[k].len();
                    if k < t {
                        assert(term_covers(s, lower, terms, t as int, p));
                    } else {
                        assert(is_term_span(s, lower, term, (start, start + term.len())));
                    }
                }
                if term_covers(s, lower, terms, t as int, p) {
                    let (k, start) = choose|k: int, start: int|
                        0 <= k < t && #[trigger] is_term_span(
                            s,
                            lower,
                            terms[k],
                            (start, start + terms[k].len()),
                        ) && start <= p < start + terms[k].len();
                    assert(is_term_span(s, lower, terms[k], (start, start + terms[k].len())));
                }
            }
        }
        t = t + 1;
    }
    let mut merged: Vec<(usize, usize)> = Vec::new();
    let mut i: usize = 0;
    while i < spans.len()
        invariant
            i <= spans@.len(),
            ordered(spans@),
            on_boundaries(s, spans@),
            separated(merged@),
            on_boundaries(s, merged@),
            merged@.len() > 0 ==> i > 0 && merged@.last().0 <= spans@[i - 1].0,
            merged@.len() == 0 ==> i == 0,
            forall|p: int| #[trigger] span_covers(merged@, p) <==> span_covers(spans@.take(i as int), p),
        decreases spans@.len() - i,
    {
        let span: (usize, usize) = spans[i];
        let n: usize = merged.len();
        let ghost merged0 = merged@;
        proof {
            lemma_take_covers(spans@, i as int);
        }
        if n > 0 && span.0 <= merged[n - 1].1 {
            assert(spans@[i - 1].0 <= spans@[i as int].0);
            let last: (usize, usize) = merged[n - 1];
            if span.1 > last.1 {
                merged.set(n - 1, (last.0, span.1));
                proof {
                    lemma_extend_last(merged0, merged@, span);
                }
            } else {
                proof {
                    assert forall|p: int| span.0 <= p < span.1 implies #[trigger] span_covers(merged@, p) by {
                        assert(merged@[n - 1].0 <= p < merged@[n - 1].1);
                    }
                }
            }
        } else {
            merged.push(span);
            proof {
                lemma_push_covers(merged0, span);
                assert forall|a: int, b: int| 0 <= a < b < merged@.len() implies (#[trigger] merged@[a]).1
                    < (#[trigger] merged@[b]).0 by {
                    if b == n && a < n - 1 {
                        assert(merged0[a].1 < merged0[n - 1].0);
                        assert(merged0[n - 1].0 < merged0[n - 1].1);
                    }
                }
            }
        }
        i = i + 1;
    }
    assert(spans@.take(spans@.len() as int) =~= spans@);
    merged
}

proof fn lemma_push_covers(spans: Seq<(usize, usize)>, span: (usize, usize))
    ensures
        forall|p: int|
            #[trigger] span_covers(spans.push(span), p) <==> span_covers(spans, p) || span.0 <= p
                < span.1,
{
    let after = spans.push(span);
    assert forall|p: int| #[trigger] span_covers(after, p) <==> span_covers(spans, p) || span.0 <= p
        < span.1 by {
        if span_covers(spans, p) {
            let i = choose|i: int| 0 <= i < spans.len() && (#[trigger] spans[i]).0 <= p < spans[i].1;
            assert(after[i] == spans[i]);
        }
        if span.0 <= p < span.1 {
            assert(after[spans.len() as int] == span);
        }
        if span_covers(after, p) {
            let i = choose|i: int| 0 <= i < after.len() && (#[trigger] after[i]).0 <= p < after[i].1;
            if i < spans.len() {
                assert(spans[i] == after[i]);
            }
        }
    }
}

proof fn lemma_take_covers(spans: Seq<(usize, usize)>, i: int)
    requires
        0 <= i < spans.len(),
    ensures
        forall|p: int|
            #[trigger] span_covers(spans.take(i + 1), p) <==> span_covers(spans.take(i), p)
                || spans[i].0 <= p < spans[i].1,
{
    assert(spans.take(i + 1) =~= spans.take(i).push(spans[i]));
    lemma_push_covers(spans.take(i), spans[i]);
}

proof fn lemma_extend_last(
    before: Seq<(usize, usize)>,
    after: Seq<(usize, usize)>,
    span: (usize, usize),
)
    requires
        before.len() > 0,
        before.last().0 <= span.0 <= before.last().1 < span.1,
        before.last().0 < before.last().1,
        after == before.update(before.len() - 1, (before.last().0, span.1)),
    ensures
        forall|p: int|
            #[trigger] span_covers(after, p) <==> span_covers(before, p) || span.0 <= p < span.1,
{
    let last = before.len() - 1;
    assert forall|p: int| #[trigger] span_covers(after, p) <==> span_covers(before, p) || span.0 <= p
        < span.1 by {
        if span_covers(before, p) {
            let i = choose|i: int|
                0 <= i < before.len() && (#[trigger] before[i]).0 <= p < before[i].1;
            assert(after[i].0 <= p < after[i].1);
        }
        if span.0 <= p < span.1 {
            assert(after[last].0 <= p < after[last].1);
        }
        if span_covers(after, p) {
            let i = choose|i: int| 0 <= i < after.len() && (#[trigger] after[i]).0 <= p < after[i].1;
            if i < last {
                assert(before[i] == after[i]);
            } else {
                assert(before[last].0 <= p);
            }
        }
    }
}

// ── Showing a snippet ──

/// A part of a snippet: where it starts and ends, in bytes, and whether it is
/// highlighted.
#[derive(Debug, Clone, Copy, PartialEq, Eq, Structural)]
pub struct Segment {
    pub start: usize,
    pub end: usize,
    pub highlighted: bool,
}

/// The segments stand one after another from the beginning to `end`, and none is
/// empty.
pub open spec fn tile(segments: Seq<Segment>, end: int) -> bool {
    &&& segments.len() == 0 ==> end == 0
    &&& segments.len() > 0 ==> segments[0].start == 0 && segments.last().end == end
    &&& forall|i: int| 0 <= i < segments.len() ==> (#[trigger] segments[i]).start < segments[i].end
    &&& forall|i: int, j: int|
        0 <= i && j == i + 1 && j < segments.len() ==> (#[trigger] segments[i]).end == (
        #[trigger] segments[j]).start
}

/// The parts that are highlighted, in order.
pub open spec fn highlighted_parts(segments: Seq<Segment>) -> Seq<(usize, usize)>
    decreases segments.len(),
{
    if segments.len() == 0 {
        Seq::empty()
    } else {
        let before = highlighted_parts(segments.drop_last());
        if segments.last().highlighted {
            before.push((segments.last().start, segments.last().end))
        } else {
            before
        }
    }
}

/// The parts of a snippet of so many bytes: the spans are highlighted, and what
/// stands between them is not.
pub fn snippet_segments(length: usize, spans: &Vec<(usize, usize)>) -> (r: Vec<Segment>)
    requires
        separated(spans@),
        forall|i: int| 0 <= i < spans@.len() ==> (#[trigger] spans@[i]).1 <= length,
    ensures
        tile(r@, length as int),
        highlighted_parts(r@) == spans@,
{
    let mut r: Vec<Segment> = Vec::new();
    let mut cursor: usize = 0;
    let mut i: usize = 0;
    assert(spans@.take(0) =~= Seq::<(usize, usize)>::empty());
    while i < spans.len()
        invariant
            i <= spans@.len(),
            separated(spans@),
            forall|k: int| 0 <= k < spans@.len() ==> (#[trigger] spans@[k]).1 <= length,
            cursor <= length,
            i == 0 ==> cursor == 0,
            i > 0 ==> cursor == spans@[i - 1].1,
            tile(r@, cursor as int),
            highlighted_parts(r@) == spans@.take(i as int),
        decreases spans@.len() - i,
    {
        let (start, end): (usize, usize) = spans[i];
        proof {
            if i > 0 {
                assert(spans@[i - 1].1 < spans@[i as int].0);
            }
            assert(spans@[i as int].0 < spans@[i as int].1);
        }
        if cursor < start {
            let ghost before = r@;
            r.push(Segment { start: cursor, end: start, highlighted: false });
            assert(r@.drop_last() =~= before);
            assert(highlighted_parts(r@) == highlighted_parts(before));
        }
        let ghost before = r@;
        assert(highlighted_parts(before) == spans@.take(i as int));
        r.push(Segment { start: start, end: end, highlighted: true });
        proof {
            assert(r@.drop_last() =~= before);
            assert(r@.last() == (Segment { start: start, end: end, highlighted: true }));
            assert(highlighted_parts(r@) == highlighted_parts(before).push((start, end)));
            assert(spans@.take(i + 1) =~= spans@.take(i as int).push(spans@[i as int]));
        }
        cursor = end;
        i = i + 1;
    }
    assert(spans@.take(spans@.len() as int) =~= spans@);
    if cursor < length {
        let ghost before = r@;
        r.push(Segment { start: cursor, end: length, highlighted: false });
        assert(r@.drop_last() =~= before);
    }
    r
}

// ── What is highlighted ──

/// What a scan finds stands there.
pub proof fn scans_find_what_stands(hay: Seq<u8>, needle: Seq<u8>, from: int, at: int)
    requires
        scan_finds(hay, needle, from, at),
    ensures
        occurs_at(hay, needle, at),
        from <= at,
        hay.subrange(at, at + needle.len()) == needle,
    decreases hay.len() - from,
{
    if occurs_at(hay, needle, from) {
        if at != from {
            scans_find_what_stands(hay, needle, from + needle.len(), at);
        }
    } else {
        scans_find_what_stands(hay, needle, from + 1, at);
    }
}

/// A scan passes nothing over: where a text stands it finds it, or one that reaches
/// there.
pub proof fn scans_pass_nothing_over(hay: Seq<u8>, needle: Seq<u8>, from: int, at: int) -> (start:
    int)
    requires
        needle.len() > 0,
        0 <= from <= at,
        at + needle.len() <= hay.len(),
        hay.subrange(at, at + needle.len()) == needle,
    ensures
        scan_finds(hay, needle, from, start),
        from <= start <= at < start + needle.len(),
    decreases hay.len() - from,
{
    if occurs_at(hay, needle, from) {
        if at < from + needle.len() {
            from
        } else {
            scans_pass_nothing_over(hay, needle, from + needle.len(), at)
        }
    } else {
        scans_pass_nothing_over(hay, needle, from + 1, at)
    }
}

/// A text occurs at a place where its bytes stand there.
pub proof fn bytes_stand_where_they_occur(hay: Seq<u8>, needle: Seq<u8>, at: int)
    ensures
        occurs_at(hay, needle, at) <==> 0 <= at && at + needle.len() <= hay.len() && forall|k: int|
            0 <= k < needle.len() ==> hay[at + k] == #[trigger] needle[k],
{
    if 0 <= at && at + needle.len() <= hay.len() {
        let part = hay.subrange(at, at + needle.len());
        assert forall|k: int| 0 <= k < needle.len() implies part[k] == hay[at + k] by {}
        if forall|k: int| 0 <= k < needle.len() ==> hay[at + k] == #[trigger] needle[k] {
            assert(part =~= needle);
        }
        if part == needle {
            assert forall|k: int| 0 <= k < needle.len() implies hay[at + k] == #[trigger] needle[k] by {
                assert(part[k] == hay[at + k]);
            }
        }
    }
}

/// Which part of a snippet a place lies in.
proof fn lemma_segment_at(segments: Seq<Segment>, end: int, p: int) -> (i: int)
    requires
        tile(segments, end),
        0 <= p < end,
    ensures
        0 <= i < segments.len(),
        segments[i].start <= p < segments[i].end,
    decreases segments.len(),
{
    assert(segments.len() > 0);
    let last = segments.len() - 1;
    if segments[last].start <= p {
        last
    } else {
        let rest = segments.drop_last();
        assert(last > 0);
        assert(segments[last - 1].end == segments[last].start);
        assert(rest.last() == segments[last - 1]);
        assert(tile(rest, segments[last].start as int)) by {
            assert forall|i: int| 0 <= i < rest.len() implies (#[trigger] rest[i]).start
                < rest[i].end by {
                assert(rest[i] == segments[i]);
            }
            assert forall|i: int, j: int|
                0 <= i && j == i + 1 && j < rest.len() implies (#[trigger] rest[i]).end == (
            #[trigger] rest[j]).start by {
                assert(rest[i] == segments[i] && rest[j] == segments[j]);
            }
        }
        lemma_segment_at(rest, segments[last].start as int, p)
    }
}

/// A part is highlighted where it is among the parts that are.
proof fn lemma_highlighted(segments: Seq<Segment>, i: int)
    requires
        0 <= i < segments.len(),
        segments[i].highlighted,
    ensures
        highlighted_parts(segments).contains((segments[i].start, segments[i].end)),
    decreases segments.len(),
{
    let before = highlighted_parts(segments.drop_last());
    if i == segments.len() - 1 {
        assert(highlighted_parts(segments).last() == (segments[i].start, segments[i].end));
    } else {
        lemma_highlighted(segments.drop_last(), i);
        let k = choose|k: int|
            0 <= k < before.len() && before[k] == (segments[i].start, segments[i].end);
        assert(highlighted_parts(segments)[k] == before[k]);
    }
}

/// A part among those that are highlighted is one of the parts.
proof fn lemma_highlighted_part(segments: Seq<Segment>, k: int) -> (i: int)
    requires
        0 <= k < highlighted_parts(segments).len(),
    ensures
        0 <= i < segments.len(),
        segments[i].highlighted,
        highlighted_parts(segments)[k] == (segments[i].start, segments[i].end),
    decreases segments.len(),
{
    let before = highlighted_parts(segments.drop_last());
    if k < before.len() {
        lemma_highlighted_part(segments.drop_last(), k)
    } else {
        segments.len() - 1
    }
}

/// The parts of a snippet show each of its bytes, highlighted where it lies in one of the
/// spans and plain where it does not.
pub proof fn parts_show_the_whole_snippet(
    length: usize,
    spans: Seq<(usize, usize)>,
    segments: Seq<Segment>,
    p: int,
) -> (i: int)
    requires
        tile(segments, length as int),
        highlighted_parts(segments) == spans,
        0 <= p < length,
    ensures
        0 <= i < segments.len(),
        segments[i].start <= p < segments[i].end <= length,
        segments[i].highlighted <==> exists|k: int|
            0 <= k < spans.len() && (#[trigger] spans[k]).0 <= p < spans[k].1,
{
    let i = lemma_segment_at(segments, length as int, p);
    lemma_parts_in_order(segments, length as int);
    if segments[i].highlighted {
        lemma_highlighted(segments, i);
        let k = choose|k: int| 0 <= k < spans.len() && spans[k] == (segments[i].start, segments[i].end);
        assert(spans[k].0 <= p < spans[k].1);
    }
    if exists|k: int| 0 <= k < spans.len() && (#[trigger] spans[k]).0 <= p < spans[k].1 {
        let k = choose|k: int| 0 <= k < spans.len() && (#[trigger] spans[k]).0 <= p < spans[k].1;
        let j = lemma_highlighted_part(segments, k);
        assert(i == j) by {
            if i < j {
                assert(segments[i].end <= segments[j].start);
            } else if j < i {
                assert(segments[j].end <= segments[i].start);
            }
        }
    }
    i
}

/// Parts that stand one after another overlap nowhere.
proof fn lemma_parts_in_order(segments: Seq<Segment>, end: int)
    requires
        tile(segments, end),
    ensures
        forall|i: int, j: int|
            0 <= i < j < segments.len() ==> (#[trigger] segments[i]).end <= (#[trigger] segments[j]).start,
        forall|i: int| 0 <= i < segments.len() ==> (#[trigger] segments[i]).end <= end,
    decreases segments.len(),
{
    if segments.len() > 1 {
        let last = segments.len() - 1;
        let rest = segments.drop_last();
        assert(segments[last - 1].end == segments[last].start);
        assert(rest.last() == segments[last - 1]);
        assert forall|i: int| 0 <= i < rest.len() implies (#[trigger] rest[i]).start < rest[i].end by {
            assert(rest[i] == segments[i]);
        }
        assert forall|i: int, j: int| 0 <= i && j == i + 1 && j < rest.len() implies (
        #[trigger] rest[i]).end == (#[trigger] rest[j]).start by {
            assert(rest[i] == segments[i] && rest[j] == segments[j]);
        }
        lemma_parts_in_order(rest, segments[last].start as int);
        assert forall|i: int, j: int| 0 <= i < j < segments.len() implies (#[trigger] segments[i]).end
            <= (#[trigger] segments[j]).start by {
            assert(rest[i] == segments[i]);
            if j < last {
                assert(rest[j] == segments[j]);
            }
        }
        assert forall|i: int| 0 <= i < segments.len() implies (#[trigger] segments[i]).end <= end by {
            if i < last {
                assert(rest[i] == segments[i]);
                assert(segments[last].start < segments[last].end);
            }
        }
    }
}

/// A result is seen as all that it holds.
pub proof fn results_are_seen_whole(r: SearchResult)
    ensures
        r@.file_name == r.file_name@ && r@.file_path == r.file_path@,
        r@.file_type == r.file_type@ && r@.snippet == r.snippet@,
        r@.match_count == r.match_count && r@.highlight_spans == r.highlight_spans@,
        r@.match_terms == text::texts(r.match_terms@) && r@.tags == text::texts(r.tags@),
        r@.content_hash == r.content_hash@ && r@.lower_snippet == r.lower_snippet@,
{
}

/// What is highlighted of some terms in a snippet: every place where a term stands in the
/// lower-cased text is covered, where each byte begins a character, and nothing is covered
/// but such places; the parts stand in order and apart.
pub proof fn terms_are_highlighted_where_they_stand(
    snippet: Seq<char>,
    lower: Seq<char>,
    terms: Seq<String>,
    spans: Seq<(usize, usize)>,
    t: int,
    at: int,
)
    requires
        forall|p: int|
            #[trigger] span_covers(spans, p) <==> term_covers(
                utf8_bytes(snippet),
                utf8_bytes(lower),
                term_bytes(terms),
                terms.len() as int,
                p,
            ),
        separated(spans),
        0 <= t < terms.len(),
    ensures
        vstd::utf8::encode_utf8(terms[t]@).len() > 0 && occurs_at(
            vstd::utf8::encode_utf8(lower),
            vstd::utf8::encode_utf8(terms[t]@),
            at,
        ) && (forall|b: int|
            0 <= b <= vstd::utf8::encode_utf8(lower).len() ==> #[trigger] vstd::utf8::is_char_boundary(
                vstd::utf8::encode_utf8(snippet),
                b,
            )) ==> exists|k: int|
            0 <= k < spans.len() && (#[trigger] spans[k]).0 <= at < spans[k].1,
        forall|k: int| 0 <= k < spans.len() ==> (#[trigger] spans[k]).0 < spans[k].1,
        forall|j: int, k: int|
            0 <= j < k < spans.len() ==> (#[trigger] spans[j]).1 < (#[trigger] spans[k]).0,
        forall|k: int|
            0 <= k < spans.len() ==> exists|x: int, start: int|
                0 <= x < terms.len() && start <= (#[trigger] spans[k]).0 < start
                    + vstd::utf8::encode_utf8(terms[x]@).len() && #[trigger] occurs_at(
                    vstd::utf8::encode_utf8(lower),
                    vstd::utf8::encode_utf8(terms[x]@),
                    start,
                ),
{
    let s = vstd::utf8::encode_utf8(snippet);
    let hay = vstd::utf8::encode_utf8(lower);
    let bytes = term_bytes(terms);
    let term = vstd::utf8::encode_utf8(terms[t]@);
    assert(bytes[t] == term);
    if term.len() > 0 && occurs_at(hay, term, at) && (forall|b: int|
        0 <= b <= hay.len() ==> #[trigger] vstd::utf8::is_char_boundary(s, b)) {
        let start = scans_pass_nothing_over(hay, term, 0, at);
        scans_find_what_stands(hay, term, 0, start);
        assert(vstd::utf8::is_char_boundary(s, start));
        assert(vstd::utf8::is_char_boundary(s, start + term.len()));
        assert(is_term_span(s, hay, bytes[t], (start, start + bytes[t].len())));
        assert(term_covers(s, hay, bytes, terms.len() as int, at));
        assert(span_covers(spans, at));
    }
    assert forall|k: int| 0 <= k < spans.len() implies exists|x: int, start: int|
        0 <= x < terms.len() && start <= (#[trigger] spans[k]).0 < start
            + vstd::utf8::encode_utf8(terms[x]@).len() && #[trigger] occurs_at(
            hay,
            vstd::utf8::encode_utf8(terms[x]@),
            start,
        ) by {
        let p = spans[k].0 as int;
        assert(spans[k].0 < spans[k].1);
        assert(span_covers(spans, p));
        assert(term_covers(s, hay, bytes, terms.len() as int, p));
        let (x, start) = choose|x: int, start: int|
            0 <= x < terms.len() && #[trigger] is_term_span(
                s,
                hay,
                bytes[x],
                (start, start + bytes[x].len()),
            ) && start <= p < start + bytes[x].len();
        scans_find_what_stands(hay, bytes[x], 0, start);
        assert(bytes[x] == vstd::utf8::encode_utf8(terms[x]@));
    }
}

/// Where each byte begins a character, each place where a term stands lies in one that is
/// highlighted whole, as one part.
pub proof fn terms_are_highlighted_whole(
    snippet: Seq<char>,
    lower: Seq<char>,
    terms: Seq<String>,
    spans: Seq<(usize, usize)>,
    t: int,
    at: int,
) -> (found: (int, int))
    requires
        forall|p: int|
            #[trigger] span_covers(spans, p) <==> term_covers(
                utf8_bytes(snippet),
                utf8_bytes(lower),
                term_bytes(terms),
                terms.len() as int,
                p,
            ),
        separated(spans),
        0 <= t < terms.len(),
        vstd::utf8::encode_utf8(terms[t]@).len() > 0,
        occurs_at(vstd::utf8::encode_utf8(lower), vstd::utf8::encode_utf8(terms[t]@), at),
        forall|b: int|
            0 <= b <= vstd::utf8::encode_utf8(lower).len() ==> #[trigger] vstd::utf8::is_char_boundary(
                vstd::utf8::encode_utf8(snippet),
                b,
            ),
    ensures
        0 <= found.0 < spans.len(),
        found.1 <= at < found.1 + vstd::utf8::encode_utf8(terms[t]@).len(),
        occurs_at(vstd::utf8::encode_utf8(lower), vstd::utf8::encode_utf8(terms[t]@), found.1),
        spans[found.0].0 <= found.1,
        found.1 + vstd::utf8::encode_utf8(terms[t]@).len() <= spans[found.0].1,
{
    let s = vstd::utf8::encode_utf8(snippet);
    let hay = vstd::utf8::encode_utf8(lower);
    let bytes = term_bytes(terms);
    let term = vstd::utf8::encode_utf8(terms[t]@);
    let n = terms.len() as int;
    assert(bytes[t] == term);
    let start = scans_pass_nothing_over(hay, term, 0, at);
    scans_find_what_stands(hay, term, 0, start);
    assert(vstd::utf8::is_char_boundary(s, start));
    assert(vstd::utf8::is_char_boundary(s, start + term.len()));
    assert(is_term_span(s, hay, bytes[t], (start, start + bytes[t].len())));
    assert(term_covers(s, hay, bytes, n, start));
    assert(span_covers(spans, start));
    let k = choose|k: int| 0 <= k < spans.len() && (#[trigger] spans[k]).0 <= start < spans[k].1;
    if spans[k].1 < start + term.len() {
        let p = spans[k].1 as int;
        assert(term_covers(s, hay, bytes, n, p));
        assert(span_covers(spans, p));
        let j = choose|j: int| 0 <= j < spans.len() && (#[trigger] spans[j]).0 <= p < spans[j].1;
        if j < k {
            assert(spans[j].1 < spans[k].0);
        } else if k < j {
            assert(spans[k].1 < spans[j].0);
        }
    }
    (k, start)
}

} // verus!
