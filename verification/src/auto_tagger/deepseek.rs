//! The DeepSeek provider: what is asked of the API and how its replies are read.
//!
//! The call itself is made outside; here stand the prompt, the request body, the
//! meaning of a failed call and the reading of a reply.

use vstd::prelude::*;

use crate::auto_tagger::provider;
use crate::auto_tagger::provider::{Entities, TagError, TagResponse};
use crate::json;
use crate::json::JsonModel;
use crate::text;

verus! {

/// Prompt template — minimal to force JSON compliance.
pub const PROMPT_TEMPLATE: &'static str = "Output ONLY this JSON. No other text.\nIf text is empty or unextractable, generate tags from the filename alone.\nIMPORTANT for person names: extract ALL name variants (full, partial, initials). Names may appear with/without spaces, reversed order, or CamelCase.\n{\"tags\":[\"keyword1\",\"keyword2\"],\"entities\":{\"persons\":[\"Full Name\"],\"organizations\":[\"Org Name\"],\"years\":[\"2024\"],\"doc_id\":[\"form-number\"],\"amounts\":[\"$1,000\"]}}\n\nFilename: {{FILENAME}}\nText (first 2 pages): {{TEXT}}\nExisting tags: {{EXISTING_TAGS}}\nJSON:";

// ── Truncation ──

/// A word of `s` begins at `i`.
pub open spec fn is_word_start(s: Seq<char>, i: int) -> bool {
    !text::is_whitespace(s[i]) && (i == 0 || text::is_whitespace(s[i - 1]))
}

/// How many words begin before `i`.
pub open spec fn words_begun(s: Seq<char>, i: int) -> nat
    decreases i,
{
    if i <= 0 {
        0
    } else {
        words_begun(s, i - 1) + if is_word_start(s, i - 1) {
            1nat
        } else {
            0nat
        }
    }
}

/// Where the text is cut so that `n` words are left: where the word after them
/// begins, or at the end where there is none.
pub open spec fn is_cut(s: Seq<char>, n: int, cut: int) -> bool {
    ||| 0 <= cut < s.len() && is_word_start(s, cut) && words_begun(s, cut) == n
    ||| cut == s.len() && words_begun(s, cut) <= n
}

/// `r` is the beginning of `s` up to `n` words, without white space at its end.
pub open spec fn is_truncation(s: Seq<char>, n: int, r: Seq<char>) -> bool {
    exists|cut: int| #[trigger] is_cut(s, n, cut) && r == text::trim_end(s.take(cut))
}

/// The words up to `i` are those that begin before `i`.
proof fn lemma_words_begun(s: Seq<char>, i: int)
    requires
        0 <= i <= s.len(),
    ensures
        text::words(s.take(i)).len() == words_begun(s, i),
    decreases i,
{
    if i == 0 {
        text::no_words_in_nothing(s.take(0));
    } else {
        lemma_words_begun(s, i - 1);
        text::words_grow(s.take(i - 1), s[i - 1]);
        assert(s.take(i - 1).push(s[i - 1]) =~= s.take(i));
        if i > 1 {
            assert(s.take(i - 1).last() == s[i - 2]);
        }
    }
}

/// What follows a cut changes none of the words before it.
proof fn lemma_words_after_cut(s: Seq<char>, cut: int, i: int)
    requires
        0 <= cut < i <= s.len(),
        is_word_start(s, cut),
    ensures
        text::words(s.take(i)).len() > text::words(s.take(cut)).len(),
        text::words(s.take(i)).take(text::words(s.take(cut)).len() as int) == text::words(
            s.take(cut),
        ),
    decreases i,
{
    let kept = text::words(s.take(cut));
    let n = kept.len() as int;
    text::words_grow(s.take(i - 1), s[i - 1]);
    assert(s.take(i - 1).push(s[i - 1]) =~= s.take(i));
    let after = text::words(s.take(i));
    if i == cut + 1 {
        if cut > 0 {
            assert(s.take(cut).last() == s[cut - 1]);
        }
        assert(after.take(n) =~= kept);
    } else {
        lemma_words_after_cut(s, cut, i - 1);
        let before = text::words(s.take(i - 1));
        assert(after.take(n) =~= before.take(n));
    }
}

/// A truncated text holds the first `n` words of the text, whole, and no others;
/// it is the beginning of the text, and no white space stands at its end.
pub proof fn truncation_keeps_whole_words(s: Seq<char>, n: int, r: Seq<char>)
    requires
        n >= 0,
        is_truncation(s, n, r),
    ensures
        text::words(r) == text::words(s).take(
            if n < text::words(s).len() {
                n
            } else {
                text::words(s).len() as int
            },
        ),
        text::starts_with(s, r),
        r.len() > 0 ==> !text::is_whitespace(r.last()),
{
    let cut = choose|cut: int| #[trigger] is_cut(s, n, cut) && r == text::trim_end(s.take(cut));
    text::trimming_keeps_words(s.take(cut));
    lemma_trim_end(s.take(cut));
    assert(s.take(cut).take(r.len() as int) =~= s.take(r.len() as int));
    lemma_words_begun(s, cut);
    assert(s.take(s.len() as int) =~= s);
    if cut < s.len() {
        lemma_words_after_cut(s, cut, s.len() as int);
    } else {
        assert(text::words(s).take(text::words(s).len() as int) =~= text::words(s));
    }
}

/// Trimming the end leaves the beginning.
proof fn lemma_trim_end(s: Seq<char>)
    ensures
        text::trim_end(s).len() <= s.len(),
        s.take(text::trim_end(s).len() as int) == text::trim_end(s),
        text::trim_end(s).len() > 0 ==> !text::is_whitespace(text::trim_end(s).last()),
    decreases s.len(),
{
    if s.len() > 0 && text::is_whitespace(s.last()) {
        lemma_trim_end(s.drop_last());
        let r = text::trim_end(s);
        assert(s.drop_last().take(r.len() as int) =~= s.take(r.len() as int));
    } else {
        assert(s.take(s.len() as int) =~= s);
    }
}

// ── The provider ──

/// Provider that calls the DeepSeek API for tag generation.
#[derive(Debug, Clone)]
pub struct DeepSeekProvider {
    pub endpoint: String,
    pub model: String,
    pub api_key_env: String,
    pub timeout_secs: u64,
    /// Maximum words of text to send (soft cap — truncates at word boundary).
    pub max_text_words: usize,
    /// Whether the model may think before it answers.
    pub thinking_enabled: bool,
    /// Output token budget.
    pub max_tokens: usize,
}

/// The prompt for a document: the template with the file name, the truncated
/// text and the tags that exist put in, in this order.
pub open spec fn prompt_of(filename: Seq<char>, truncated: Seq<char>, existing: Seq<char>) -> Seq<
    char,
> {
    text::replace_all(
        text::replace_all(
            text::replace_all(PROMPT_TEMPLATE@, "{{FILENAME}}"@, filename),
            "{{TEXT}}"@,
            truncated,
        ),
        "{{EXISTING_TAGS}}"@,
        existing,
    )
}

/// The tags that exist, as they stand in the prompt.
pub open spec fn existing_text(tags: Seq<Seq<char>>) -> Seq<char> {
    if tags.len() == 0 {
        "[]"@
    } else {
        json::json_render(json::text_array(tags))
    }
}

/// The text that stands at "temperature" in a request.
pub open spec fn temperature() -> JsonModel {
    match json::json_parse("0.1"@) {
        Some(v) => v,
        None => JsonModel::Null,
    }
}

/// The message that carries the prompt.
pub open spec fn message_model(prompt: Seq<char>) -> JsonModel {
    JsonModel::Object(
        Map::<Seq<char>, JsonModel>::empty().insert("role"@, JsonModel::Text("user"@)).insert(
            "content"@,
            JsonModel::Text(prompt),
        ),
    )
}

/// The body of a request.
pub open spec fn request_model(
    model: Seq<char>,
    prompt: Seq<char>,
    max_tokens: nat,
    thinking: bool,
) -> JsonModel {
    JsonModel::Object(
        Map::<Seq<char>, JsonModel>::empty().insert("model"@, JsonModel::Text(model)).insert(
            "messages"@,
            JsonModel::Array(seq![message_model(prompt)]),
        ).insert("temperature"@, temperature()).insert(
            "max_tokens"@,
            JsonModel::Number(json::decimal(max_tokens)),
        ).insert(
            "stream"@,
            JsonModel::Bool(false),
        ).insert(
            "thinking"@,
            JsonModel::Object(
                Map::<Seq<char>, JsonModel>::empty().insert(
                    "type"@,
                    JsonModel::Text(
                        if thinking {
                            "enabled"@
                        } else {
                            "disabled"@
                        },
                    ),
                ),
            ),
        ),
    )
}

impl DeepSeekProvider {
    /// Create a new DeepSeek provider, with thinking off and the default token
    /// budget.
    pub fn new(
        endpoint: &str,
        model: &str,
        api_key_env: &str,
        timeout_secs: u64,
        max_text_words: usize,
    ) -> (r: Self)
        ensures
            r.endpoint@ == endpoint@,
            r.model@ == model@,
            r.api_key_env@ == api_key_env@,
            r.timeout_secs == timeout_secs,
            r.max_text_words == max_text_words,
            !r.thinking_enabled,
            r.max_tokens == 24000,
    {
        DeepSeekProvider {
            endpoint: text::copy_str(endpoint),
            model: text::copy_str(model),
            api_key_env: text::copy_str(api_key_env),
            timeout_secs: timeout_secs,
            max_text_words: max_text_words,
            thinking_enabled: false,
            max_tokens: 24000,
        }
    }

    /// Set whether the model may think, and its token budget.
    pub fn with_output(self, thinking_enabled: bool, max_tokens: usize) -> (r: Self)
        ensures
            r == (DeepSeekProvider {
                thinking_enabled: thinking_enabled,
                max_tokens: max_tokens,
                ..self
            }),
    {
        DeepSeekProvider {
            endpoint: self.endpoint,
            model: self.model,
            api_key_env: self.api_key_env,
            timeout_secs: self.timeout_secs,
            max_text_words: self.max_text_words,
            thinking_enabled: thinking_enabled,
            max_tokens: max_tokens,
        }
    }

    /// Check the API key that the environment holds: `value` is what the
    /// variable is set to, if it is set.
    pub fn api_key(&self, value: Option<&str>) -> (r: Result<String, TagError>)
        ensures
            match (value, r) {
                (Some(v), Ok(key)) => text::trim(v@).len() > 0 && key@ == v@,
                (Some(v), Err(TagError::Auth(m))) => text::trim(v@).len() == 0 && m@
                    == "environment variable '"@ + self.api_key_env@ + "' is set but empty"@,
                (None, Err(TagError::Auth(m))) => m@ == "environment variable '"@
                    + self.api_key_env@ + "' is not set. Set it to your DeepSeek API key."@,
                _ => false,
            },
    {
        let mut m: String = text::copy_str("environment variable '");
        m.append(self.api_key_env.as_str());
        match value {
            None => {
                m.append("' is not set. Set it to your DeepSeek API key.");
                Err(TagError::Auth(m))
            },
            Some(v) => {
                let trimmed: String = text::trim_text(v);
                if trimmed.as_str().is_empty() {
                    m.append("' is set but empty");
                    Err(TagError::Auth(m))
                } else {
                    Ok(text::copy_str(v))
                }
            },
        }
    }

    /// Truncate text to at most `max_text_words` words at a word boundary.
    pub fn truncate_text(&self, text: &str) -> (r: String)
        ensures
            is_truncation(text@, self.max_text_words as int, r@),
    {
        let chars: Vec<char> = text::chars_of(text);
        let mut begun: usize = 0;
        let mut cut: usize = 0;
        while cut < chars.len()
            invariant
                cut <= chars@.len(),
                chars@ == text@,
                begun == words_begun(text@, cut as int),
                begun <= cut,
                begun <= self.max_text_words,
            ensures
                cut <= chars@.len(),
                is_cut(text@, self.max_text_words as int, cut as int),
            decreases chars@.len() - cut,
        {
            let starts: bool = !text::char_is_whitespace(chars[cut]) && (cut == 0
                || text::char_is_whitespace(chars[cut - 1]));
            if starts && begun >= self.max_text_words {
                break;
            }
            if starts {
                begun = begun + 1;
            }
            cut = cut + 1;
        }
        let mut to: usize = cut;
        assert(chars@.take(cut as int) =~= chars@.subrange(0, to as int));
        while 0 < to && text::char_is_whitespace(chars[to - 1])
            invariant
                to <= cut <= chars@.len(),
                text::trim_end(chars@.subrange(0, to as int)) == text::trim_end(
                    chars@.take(cut as int),
                ),
            decreases to,
        {
            assert(chars@.subrange(0, to as int).drop_last() =~= chars@.subrange(0, to - 1));
            to = to - 1;
        }
        text::string_of(&chars, 0, to)
    }

    /// Build the prompt with filename, text, and existing tags substituted.
    pub fn build_prompt(&self, filename: &str, text: &str, existing_tags: &[String]) -> (r: String)
        ensures
            exists|truncated: Seq<char>| #[trigger]
                is_truncation(text@, self.max_text_words as int, truncated) && r@ == prompt_of(
                    filename@,
                    truncated,
                    existing_text(text::texts(existing_tags@)),
                ),
    {
        let truncated: String = self.truncate_text(text);
        let existing: String = render_existing(existing_tags);
        fill_prompt(filename, truncated.as_str(), existing.as_str())
    }

    /// The body of the request that asks for the tags of a document.
    pub fn request_body(&self, filename: &str, text: &str, existing_tags: &[String]) -> (r: String)
        ensures
            exists|truncated: Seq<char>| #[trigger]
                is_truncation(text@, self.max_text_words as int, truncated) && r@ == json::json_render(
                    request_model(
                        self.model@,
                        prompt_of(
                            filename@,
                            truncated,
                            existing_text(text::texts(existing_tags@)),
                        ),
                        self.max_tokens as nat,
                        self.thinking_enabled,
                    ),
                ),
    {
        let prompt: String = self.build_prompt(filename, text, existing_tags);
        let mut message: serde_json::Value = json::empty_object();
        json::set_field(&mut message, "role", json::text_value("user"));
        json::set_field(&mut message, "content", json::text_value(prompt.as_str()));
        let ghost message_json = json::json_model(message);
        let mut messages: Vec<serde_json::Value> = Vec::new();
        messages.push(message);
        assert(json::json_models(messages@) =~= seq![message_json]);
        let mut thinking: serde_json::Value = json::empty_object();
        json::set_field(
            &mut thinking,
            "type",
            json::text_value(
                if self.thinking_enabled {
                    "enabled"
                } else {
                    "disabled"
                },
            ),
        );
        let warmth: serde_json::Value = match json::parse_json("0.1") {
            Ok(v) => v,
            Err(_) => json::null_value(),
        };
        let mut body: serde_json::Value = json::empty_object();
        json::set_field(&mut body, "model", json::text_value(self.model.as_str()));
        json::set_field(&mut body, "messages", json::array_value(messages));
        json::set_field(&mut body, "temperature", warmth);
        json::set_field(&mut body, "max_tokens", json::count_value(self.max_tokens));
        json::set_field(&mut body, "stream", json::bool_value(false));
        json::set_field(&mut body, "thinking", thinking);
        json::render_json(&body)
    }
}

/// The tags that exist, as they stand in the prompt.
fn render_existing(existing_tags: &[String]) -> (r: String)
    ensures
        r@ == existing_text(text::texts(existing_tags@)),
{
    if existing_tags.len() == 0 {
        text::copy_str("[]")
    } else {
        json::render_json(&json::texts_value(existing_tags))
    }
}

/// The template with a file name, a text and the tags that exist put in.
pub fn fill_prompt(filename: &str, truncated: &str, existing: &str) -> (r: String)
    ensures
        r@ == prompt_of(filename@, truncated@, existing@),
{
    let named: String = text::replace_text(PROMPT_TEMPLATE, "{{FILENAME}}", filename);
    let filled: String = text::replace_text(named.as_str(), "{{TEXT}}", truncated);
    text::replace_text(filled.as_str(), "{{EXISTING_TAGS}}", existing)
}

// ── Failed calls ──

/// The meaning of a reply with a failure status: a bad key and a bad request are
/// final, a rate limit and a server error are not.
pub open spec fn status_kind(code: u16) -> provider::ErrorKind {
    if code == 401 || code == 403 {
        provider::ErrorKind::Auth
    } else if code != 429 && 400 <= code < 500 {
        provider::ErrorKind::BadRequest
    } else {
        provider::ErrorKind::Unavailable
    }
}

/// The words for a reply with a failure status.
pub open spec fn status_detail(code: u16, detail: Seq<char>) -> Seq<char> {
    if code == 401 || code == 403 {
        "DeepSeek API auth failed: "@ + detail
    } else if code == 429 {
        "DeepSeek API rate limited: "@ + detail
    } else if 400 <= code < 500 {
        "DeepSeek API bad request ("@ + json::decimal(code as nat) + "): "@ + detail
    } else {
        "DeepSeek API server error: "@ + detail
    }
}

/// The error that a reply with a failure status stands for. `detail` describes
/// the failure.
pub fn error_for_status(code: u16, detail: &str) -> (r: TagError)
    ensures
        provider::error_kind(r) == status_kind(code),
        provider::error_detail(r) == status_detail(code, detail@),
{
    if code == 401 || code == 403 {
        TagError::Auth(text::concat("DeepSeek API auth failed: ", detail))
    } else if code == 429 {
        TagError::Unavailable(text::concat("DeepSeek API rate limited: ", detail))
    } else if 400 <= code && code < 500 {
        let mut m: String = text::copy_str("DeepSeek API bad request (");
        let digits: String = json::decimal_text(code as u64);
        m.append(digits.as_str());
        m.append("): ");
        m.append(detail);
        TagError::BadRequest(m)
    } else {
        TagError::Unavailable(text::concat("DeepSeek API server error: ", detail))
    }
}

/// The error that a call which got no reply stands for.
pub fn error_for_transport(detail: &str) -> (r: TagError)
    ensures
        r matches TagError::Unavailable(m) && m@ == "DeepSeek API unreachable: "@ + detail@,
{
    TagError::Unavailable(text::concat("DeepSeek API unreachable: ", detail))
}

/// The error that a reply whose body could not be read stands for.
pub fn error_for_body(detail: &str) -> (r: TagError)
    ensures
        r matches TagError::Unavailable(m) && m@ == "failed to read API response body: "@ + detail@,
{
    TagError::Unavailable(text::concat("failed to read API response body: ", detail))
}

// ── The object in a reply ──

/// Where a scan through JSON text stands: how many braces are open, whether it is
/// inside a string, and whether the next character there is escaped.
pub struct ScanState {
    pub depth: int,
    pub in_string: bool,
    pub escaped: bool,
}

/// The scan after one more character. Braces inside strings count for nothing.
pub open spec fn scan_step(st: ScanState, c: char) -> ScanState {
    if st.in_string {
        if st.escaped {
            ScanState { escaped: false, ..st }
        } else if c == '\\' {
            ScanState { escaped: true, ..st }
        } else if c == '"' {
            ScanState { in_string: false, ..st }
        } else {
            st
        }
    } else if c == '"' {
        ScanState { in_string: true, ..st }
    } else if c == '{' {
        ScanState { depth: st.depth + 1, ..st }
    } else if c == '}' {
        ScanState {
            depth: if st.depth > 0 {
                st.depth - 1
            } else {
                0
            },
            ..st
        }
    } else {
        st
    }
}

/// The scan from `start` once it has read up to `i`.
pub open spec fn scan_to(s: Seq<char>, start: int, i: int) -> ScanState
    decreases i - start,
{
    if i <= start {
        ScanState { depth: 0, in_string: false, escaped: false }
    } else {
        scan_step(scan_to(s, start, i - 1), s[i - 1])
    }
}

/// The brace at `i` closes the last open one.
pub open spec fn closes_at(s: Seq<char>, start: int, i: int) -> bool {
    &&& start <= i < s.len()
    &&& !scan_to(s, start, i).in_string
    &&& s[i] == '}'
    &&& scan_to(s, start, i + 1).depth == 0
}

/// The first brace in `s` opens at `start`, and `end` is the first place where
/// it is closed.
pub open spec fn is_object_at(s: Seq<char>, start: int, end: int) -> bool {
    &&& 0 <= start < s.len()
    &&& s[start] == '{'
    &&& forall|k: int| 0 <= k < start ==> #[trigger] s[k] != '{'
    &&& closes_at(s, start, end)
    &&& forall|k: int| start <= k < end ==> !(#[trigger] closes_at(s, start, k))
}

/// A reply without the white space and the code fence around it.
pub open spec fn unfenced(s: Seq<char>) -> Seq<char> {
    let trimmed = text::trim(s);
    let opened = if text::starts_with(trimmed, "```json"@) {
        trimmed.skip("```json"@.len() as int)
    } else if text::starts_with(trimmed, "```"@) {
        trimmed.skip("```"@.len() as int)
    } else {
        trimmed
    };
    if text::ends_with(opened, "```"@) {
        opened.take(opened.len() - "```"@.len())
    } else {
        opened
    }
}

/// `r` is the first top-level JSON object in a reply.
pub open spec fn is_first_object(s: Seq<char>, r: Seq<char>) -> bool {
    exists|start: int, end: int| #[trigger]
        is_object_at(unfenced(s), start, end) && r == unfenced(s).subrange(start, end + 1)
}

/// Takes the code fence from around trimmed text.
fn strip_fence(trimmed: String) -> (r: Vec<char>)
    ensures
        forall|s: Seq<char>| text::trim(s) == trimmed@ ==> r@ == #[trigger] unfenced(s),
{
    let chars: Vec<char> = text::chars_of(trimmed.as_str());
    let long: Vec<char> = text::chars_of("```json");
    let short: Vec<char> = text::chars_of("```");
    assert(chars@.skip(0) =~= chars@);
    let from: usize = if text::chars_match_at(&chars, &long, 0) {
        long.len()
    } else if text::chars_match_at(&chars, &short, 0) {
        short.len()
    } else {
        0
    };
    let ghost opened = chars@.skip(from as int);
    let mut to: usize = chars.len();
    if chars.len() - from >= short.len() {
        let at: usize = chars.len() - short.len();
        let ghost tail = opened.skip(opened.len() - short@.len());
        assert(tail =~= chars@.skip(at as int));
        assert(tail.take(short@.len() as int) =~= tail);
        if text::chars_match_at(&chars, &short, at) {
            to = at;
        }
    }
    let mut r: Vec<char> = Vec::new();
    let mut i: usize = from;
    while i < to
        invariant
            from <= i <= to <= chars@.len(),
            r@ == chars@.subrange(from as int, i as int),
        decreases to - i,
    {
        r.push(chars[i]);
        assert(chars@.subrange(from as int, i + 1) =~= chars@.subrange(from as int, i as int).push(chars@[i as int]));
        i = i + 1;
    }
    proof {
        assert forall|s: Seq<char>| text::trim(s) == trimmed@ implies r@ == #[trigger] unfenced(s) by {
            assert(chars@.subrange(from as int, to as int) =~= opened.take(to - from));
            assert(opened.take(opened.len() as int) =~= opened);
        }
    }
    r
}

/// Extract the first top-level JSON object from a model reply.
/// Strips markdown fences and leading/trailing prose, then finds the
/// brace-balanced object. Brace counting is string-aware (braces inside
/// quoted strings or escaped quotes do not affect nesting).
pub fn extract_json_object(s: &str) -> (r: Option<String>)
    ensures
        match r {
            Some(found) => is_first_object(s@, found@),
            None => forall|start: int, end: int| !(#[trigger] is_object_at(unfenced(s@), start, end)),
        },
{
    let chars: Vec<char> = strip_fence(text::trim_text(s));
    let ghost all = unfenced(s@);
    let mut start: usize = 0;
    while start < chars.len() && chars[start] != '{'
        invariant
            start <= chars@.len(),
            forall|k: int| 0 <= k < start ==> #[trigger] chars@[k] != '{',
        decreases chars@.len() - start,
    {
        start = start + 1;
    }
    if start == chars.len() {
        return None;
    }
    let mut depth: usize = 0;
    let mut in_string: bool = false;
    let mut escaped: bool = false;
    let mut i: usize = start;
    while i < chars.len()
        invariant
            start <= i <= chars@.len(),
            start < chars@.len(),
            all == chars@,
            all == unfenced(s@),
            chars@[start as int] == '{',
            forall|k: int| 0 <= k < start ==> #[trigger] chars@[k] != '{',
            depth <= i - start,
            scan_to(all, start as int, i as int) == (ScanState {
                depth: depth as int,
                in_string: in_string,
                escaped: escaped,
            }),
            forall|k: int| start <= k < i ==> !(#[trigger] closes_at(all, start as int, k)),
        decreases chars@.len() - i,
    {
        let c: char = chars[i];
        if in_string {
            if escaped {
                escaped = false;
            } else if c == '\\' {
                escaped = true;
            } else if c == '"' {
                in_string = false;
            }
        } else if c == '"' {
            in_string = true;
        } else if c == '{' {
            depth = depth + 1;
        } else if c == '}' {
            if depth > 0 {
                depth = depth - 1;
            }
            if depth == 0 {
                assert(closes_at(all, start as int, i as int));
                assert(is_object_at(all, start as int, i as int));
                return Some(text::string_of(&chars, start, i + 1));
            }
        }
        i = i + 1;
    }
    proof {
        assert forall|a: int, b: int| !(#[trigger] is_object_at(all, a, b)) by {
            if is_object_at(all, a, b) {
                if a < start {
                    assert(all[a] != '{');
                } else if a > start {
                    assert(all[start as int] != '{');
                } else {
                    assert(closes_at(all, start as int, b));
                }
            }
        }
    }
    None
}

/// The object that is extracted begins with the brace that it ends with, and
/// stands in the reply.
pub proof fn extracted_object_is_delimited(s: Seq<char>, r: Seq<char>)
    requires
        is_first_object(s, r),
    ensures
        r.len() >= 2,
        r[0] == '{',
        r.last() == '}',
{
    let (start, end) = choose|start: int, end: int| #[trigger]
        is_object_at(unfenced(s), start, end) && r == unfenced(s).subrange(start, end + 1);
    assert(closes_at(unfenced(s), start, end));
    assert(unfenced(s)[end] == '}');
    assert(unfenced(s)[start] == '{');
}

// ── Reading a reply ──

/// The content of the first choice of a reply.
pub open spec fn content_of(root: JsonModel) -> Option<Seq<char>> {
    match json::field_of(root, "choices"@) {
        Some(JsonModel::Array(choices)) => if choices.len() > 0 {
            match json::field_of(choices[0], "message"@) {
                Some(message) => match json::field_of(message, "content"@) {
                    Some(content) => json::text_of(content),
                    None => None,
                },
                None => None,
            }
        } else {
            None
        },
        _ => None,
    }
}

/// The texts of an array of texts; nothing for any other value.
pub open spec fn texts_of(v: JsonModel) -> Option<Seq<Seq<char>>> {
    match v {
        JsonModel::Array(items) => if json::is_text_array(v) {
            Some(items.map_values(|t: JsonModel| t->Text_0))
        } else {
            None
        },
        _ => None,
    }
}

/// The texts of an optional field: none where it is absent.
pub open spec fn optional_texts(v: Option<JsonModel>) -> Option<Seq<Seq<char>>> {
    match v {
        None => Some(Seq::empty()),
        Some(f) => texts_of(f),
    }
}

/// The entities that five optional fields hold, where each of them is an array of
/// texts.
pub open spec fn entities_from(
    persons: Option<JsonModel>,
    organizations: Option<JsonModel>,
    years: Option<JsonModel>,
    doc_id: Option<JsonModel>,
    amounts: Option<JsonModel>,
) -> Option<provider::EntitiesModel> {
    if optional_texts(persons) is Some && optional_texts(organizations) is Some && optional_texts(
        years,
    ) is Some && optional_texts(doc_id) is Some && optional_texts(amounts) is Some {
        Some(
            provider::EntitiesModel {
                persons: optional_texts(persons)->0,
                organizations: optional_texts(organizations)->0,
                years: optional_texts(years)->0,
                doc_id: optional_texts(doc_id)->0,
                amounts: optional_texts(amounts)->0,
            },
        )
    } else {
        None
    }
}

/// The item at `i`, where there is one.
pub open spec fn item_at(items: Seq<JsonModel>, i: int) -> Option<JsonModel> {
    if i < items.len() {
        Some(items[i])
    } else {
        None
    }
}

/// The entities that a value holds: by their names in an object, or by their
/// places in an array.
pub open spec fn entities_of(v: JsonModel) -> Option<provider::EntitiesModel> {
    match v {
        JsonModel::Object(_) => entities_from(
            json::field_of(v, "persons"@),
            json::field_of(v, "organizations"@),
            json::field_of(v, "years"@),
            json::field_of(v, "doc_id"@),
            json::field_of(v, "amounts"@),
        ),
        JsonModel::Array(items) => if items.len() <= 5 {
            entities_from(
                item_at(items, 0),
                item_at(items, 1),
                item_at(items, 2),
                item_at(items, 3),
                item_at(items, 4),
            )
        } else {
            None
        },
        _ => None,
    }
}

/// The response that an object holds: its "tags" must be an array of texts, and
/// its "entities" may be absent. Where a field comes twice, the last counts.
pub open spec fn response_of(v: JsonModel) -> Option<provider::ResponseModel> {
    match (json::field_of(v, "tags"@), json::field_of(v, "entities"@)) {
        (Some(tags), Some(entities)) => if texts_of(tags) is Some && entities_of(entities) is Some {
            Some(
                provider::ResponseModel {
                    tags: texts_of(tags)->0,
                    entities: entities_of(entities)->0,
                },
            )
        } else {
            None
        },
        (Some(tags), None) => if texts_of(tags) is Some {
            Some(
                provider::ResponseModel {
                    tags: texts_of(tags)->0,
                    entities: provider::EntitiesModel {
                        persons: Seq::empty(),
                        organizations: Seq::empty(),
                        years: Seq::empty(),
                        doc_id: Seq::empty(),
                        amounts: Seq::empty(),
                    },
                },
            )
        } else {
            None
        },
        _ => None,
    }
}

/// The texts of an array of texts.
fn decode_texts(v: &serde_json::Value) -> (r: Option<Vec<String>>)
    ensures
        match r {
            Some(list) => texts_of(json::json_model(*v)) == Some(text::texts(list@)),
            None => texts_of(json::json_model(*v)) is None,
        },
{
    let items: &Vec<serde_json::Value> = match json::json_items(v) {
        Some(items) => items,
        None => {
            return None;
        },
    };
    let ghost all = json::json_models(items@);
    let mut list: Vec<String> = Vec::new();
    let mut i: usize = 0;
    while i < items.len()
        invariant
            i <= items@.len(),
            all == json::json_models(items@),
            json::json_model(*v) == JsonModel::Array(all),
            list@.len() == i,
            forall|k: int|
                0 <= k < i ==> (#[trigger] all[k]) is Text && list@[k]@ == all[k]->Text_0,
        decreases items@.len() - i,
    {
        assert(all[i as int] == json::json_model(items@[i as int]));
        match json::json_text(&items[i]) {
            Some(s) => {
                list.push(text::copy_str(s));
            },
            None => {
                assert(!(all[i as int] is Text));
                return None;
            },
        }
        i = i + 1;
    }
    assert(text::texts(list@) =~= all.map_values(|t: JsonModel| t->Text_0));
    Some(list)
}

/// The texts of an optional field.
fn decode_optional(v: Option<&serde_json::Value>) -> (r: Option<Vec<String>>)
    ensures
        match r {
            Some(list) => optional_texts(opt_model(v)) == Some(text::texts(list@)),
            None => optional_texts(opt_model(v)) is None,
        },
{
    match v {
        Some(f) => decode_texts(f),
        None => {
            let list: Vec<String> = Vec::new();
            assert(text::texts(list@) =~= Seq::<Seq<char>>::empty());
            Some(list)
        },
    }
}

/// What an optional value holds.
pub open spec fn opt_model(v: Option<&serde_json::Value>) -> Option<JsonModel> {
    match v {
        Some(f) => Some(json::json_model(*f)),
        None => None,
    }
}

/// The entities that five optional fields hold.
fn decode_fields(
    persons: Option<&serde_json::Value>,
    organizations: Option<&serde_json::Value>,
    years: Option<&serde_json::Value>,
    doc_id: Option<&serde_json::Value>,
    amounts: Option<&serde_json::Value>,
) -> (r: Option<Entities>)
    ensures
        ({
            let wanted = entities_from(
                opt_model(persons),
                opt_model(organizations),
                opt_model(years),
                opt_model(doc_id),
                opt_model(amounts),
            );
            match r {
                Some(e) => wanted == Some(e@),
                None => wanted is None,
            }
        }),
{
    match (
        decode_optional(persons),
        decode_optional(organizations),
        decode_optional(years),
        decode_optional(doc_id),
        decode_optional(amounts),
    ) {
        (Some(p), Some(o), Some(y), Some(d), Some(a)) => Some(
            Entities { persons: p, organizations: o, years: y, doc_id: d, amounts: a },
        ),
        _ => None,
    }
}

/// The item at `i`, where there is one.
fn nth_item(items: &Vec<serde_json::Value>, i: usize) -> (r: Option<&serde_json::Value>)
    ensures
        opt_model(r) == item_at(json::json_models(items@), i as int),
{
    if i < items.len() {
        Some(&items[i])
    } else {
        None
    }
}

/// The entities that a value holds.
fn decode_entities(v: &serde_json::Value) -> (r: Option<Entities>)
    ensures
        match r {
            Some(e) => entities_of(json::json_model(*v)) == Some(e@),
            None => entities_of(json::json_model(*v)) is None,
        },
{
    if let Some(items) = json::json_items(v) {
        if items.len() > 5 {
            return None;
        }
        return decode_fields(
            nth_item(items, 0),
            nth_item(items, 1),
            nth_item(items, 2),
            nth_item(items, 3),
            nth_item(items, 4),
        );
    }
    if !json::is_object(v) {
        return None;
    }
    decode_fields(
        json::json_field(v, "persons"),
        json::json_field(v, "organizations"),
        json::json_field(v, "years"),
        json::json_field(v, "doc_id"),
        json::json_field(v, "amounts"),
    )
}

/// The response that a value holds.
fn decode_response(v: &serde_json::Value) -> (r: Option<TagResponse>)
    ensures
        match r {
            Some(response) => response_of(json::json_model(*v)) == Some(response@),
            None => response_of(json::json_model(*v)) is None,
        },
{
    let tags: Vec<String> = match json::json_field(v, "tags") {
        Some(field) => match decode_texts(field) {
            Some(tags) => tags,
            None => {
                return None;
            },
        },
        None => {
            return None;
        },
    };
    let entities: Entities = match json::json_field(v, "entities") {
        Some(field) => match decode_entities(field) {
            Some(entities) => entities,
            None => {
                return None;
            },
        },
        None => Entities::default(),
    };
    Some(TagResponse { tags: tags, entities: entities })
}

/// The first 200 characters of a text.
pub open spec fn preview_of(s: Seq<char>) -> Seq<char> {
    s.take(
        if s.len() < 200 {
            s.len() as int
        } else {
            200
        },
    )
}

/// What `parse_response` gives for a body that is JSON: the response; or an error
/// that is final (`Parse`) or worth another try (`Unavailable`).
pub open spec fn is_reading(root: JsonModel, r: Result<TagResponse, TagError>) -> bool {
    match content_of(root) {
        None => r matches Err(TagError::Parse(m)) && m@
            == "API response missing 'choices[0].message.content'"@,
        Some(content) => if text::trim(content).len() == 0 {
            r matches Err(TagError::Unavailable(m)) && m@
                == "model returned empty content — retrying"@
        } else {
            is_content_reading(content, r)
        },
    }
}

/// What `parse_response` gives for a content that is not blank.
pub open spec fn is_content_reading(content: Seq<char>, r: Result<TagResponse, TagError>) -> bool {
    match r {
        Ok(response) => exists|object: Seq<char>| #[trigger]
            is_first_object(content, object) && json::json_parse(object) is Some && response_of(
                json::json_parse(object)->0,
            ) == Some(response@),
        Err(TagError::Unavailable(m)) => (forall|start: int, end: int|
            !(#[trigger] is_object_at(unfenced(content), start, end))) && m@
            == "no JSON object in model output — retrying. Raw content: "@ + preview_of(content),
        Err(TagError::Parse(m)) => exists|object: Seq<char>, detail: Seq<char>|
            {
                &&& #[trigger] is_first_object(content, object)
                &&& (json::json_parse(object) is None || response_of(
                    json::json_parse(object)->0,
                ) is None)
                &&& m@ == #[trigger] parse_message(detail, content)
            },
        Err(_) => false,
    }
}

/// The message for a reply whose object is not a response.
pub open spec fn parse_message(detail: Seq<char>, content: Seq<char>) -> Seq<char> {
    "failed to parse tag JSON from model output: "@ + detail + ". Raw content: "@ + preview_of(
        content,
    )
}

impl DeepSeekProvider {
    /// Parse the DeepSeek API response JSON into a TagResponse.
    /// The model's `content` is extracted robustly: models frequently wrap
    /// the JSON in markdown fences or prefix/suffix it with prose despite
    /// the "output ONLY this JSON" instruction.
    pub fn parse_response(body: &str) -> (r: Result<TagResponse, TagError>)
        ensures
            match json::json_parse(body@) {
                Some(root) => is_reading(root, r),
                None => r matches Err(TagError::Parse(m)) && text::starts_with(
                    m@,
                    "invalid JSON from API: "@,
                ),
            },
    {
        let root: serde_json::Value = match json::parse_json(body) {
            Ok(v) => v,
            Err(e) => {
                let detail: String = json::json_error_text(&e);
                let m: String = text::concat("invalid JSON from API: ", detail.as_str());
                proof {
                    let prefix = "invalid JSON from API: "@;
                    assert(m@.take(prefix.len() as int) =~= prefix);
                }
                return Err(TagError::Parse(m));
            },
        };
        match read_content(&root) {
            None => Err(
                TagError::Parse(
                    text::copy_str("API response missing 'choices[0].message.content'"),
                ),
            ),
            Some(content) => {
                let trimmed: String = text::trim_text(content);
                if trimmed.as_str().is_empty() {
                    return Err(
                        TagError::Unavailable(
                            text::copy_str("model returned empty content — retrying"),
                        ),
                    );
                }
                Self::parse_content(content)
            },
        }
    }

    /// Read the response in a content that is not blank.
    pub fn parse_content(content: &str) -> (r: Result<TagResponse, TagError>)
        ensures
            is_content_reading(content@, r),
    {
        let object: String = match extract_json_object(content) {
            Some(object) => object,
            None => {
                let preview: String = preview_text(content);
                return Err(
                    TagError::Unavailable(
                        text::concat(
                            "no JSON object in model output — retrying. Raw content: ",
                            preview.as_str(),
                        ),
                    ),
                );
            },
        };
        let detail: String = match json::parse_json(object.as_str()) {
            Ok(v) => match decode_response(&v) {
                Some(response) => {
                    assert(is_first_object(content@, object@));
                    return Ok(response);
                },
                None => text::copy_str("not an object with tags and entities"),
            },
            Err(e) => json::json_error_text(&e),
        };
        let mut m: String = text::copy_str("failed to parse tag JSON from model output: ");
        m.append(detail.as_str());
        m.append(". Raw content: ");
        let preview: String = preview_text(content);
        m.append(preview.as_str());
        proof {
            assert(is_first_object(content@, object@));
            assert(m@ == parse_message(detail@, content@));
        }
        Err(TagError::Parse(m))
    }
}

/// The content of the first choice of a reply.
fn read_content<'a>(root: &'a serde_json::Value) -> (r: Option<&'a str>)
    ensures
        match r {
            Some(s) => content_of(json::json_model(*root)) == Some(s@),
            None => content_of(json::json_model(*root)) is None,
        },
{
    let choices: &Vec<serde_json::Value> = match json::json_field(root, "choices") {
        Some(field) => match json::json_items(field) {
            Some(items) => items,
            None => {
                return None;
            },
        },
        None => {
            return None;
        },
    };
    if choices.len() == 0 {
        return None;
    }
    assert(json::json_models(choices@)[0] == json::json_model(choices@[0]));
    match json::json_field(&choices[0], "message") {
        Some(message) => match json::json_field(message, "content") {
            Some(content) => json::json_text(content),
            None => None,
        },
        None => None,
    }
}

/// The first 200 characters of a text.
fn preview_text(s: &str) -> (r: String)
    ensures
        r@ == preview_of(s@),
{
    let chars: Vec<char> = text::chars_of(s);
    let to: usize = if chars.len() < 200 {
        chars.len()
    } else {
        200
    };
    assert(chars@.subrange(0, to as int) =~= preview_of(s@));
    text::string_of(&chars, 0, to)
}

// ── What is asked, and what is read ──

/// The prompt is the template with the file name put in for its first mark, what is sent
/// of the text for the second and the tags that exist for the third.
pub proof fn prompts_are_filled_in(filename: Seq<char>, sent: Seq<char>, existing: Seq<char>)
    ensures
        prompt_of(filename, sent, existing) == text::replace_all(
            text::replace_all(
                text::replace_all(PROMPT_TEMPLATE@, "{{FILENAME}}"@, filename),
                "{{TEXT}}"@,
                sent,
            ),
            "{{EXISTING_TAGS}}"@,
            existing,
        ),
        existing_text(Seq::empty()) == "[]"@,
{
}

/// The tags that exist stand in the prompt as the JSON array of all of them.
pub proof fn existing_tags_are_all_named(tags: Seq<Seq<char>>)
    requires
        tags.len() > 0,
    ensures
        existing_text(tags) == json::json_render(
            JsonModel::Array(tags.map_values(|t: Seq<char>| JsonModel::Text(t))),
        ),
{
}

/// The body of a request names the model, carries the prompt as the one message of the
/// user, and says how many tokens the answer may have, that it comes at once, and whether
/// the model may think.
pub proof fn requests_carry_the_prompt(
    model: Seq<char>,
    prompt: Seq<char>,
    max_tokens: nat,
    thinking: bool,
)
    ensures
        ({
            let body = request_model(model, prompt, max_tokens, thinking);
            let fields = body->Object_0;
            let message = fields["messages"@]->Array_0[0]->Object_0;
            let mode = fields["thinking"@]->Object_0;
            &&& body is Object
            &&& fields.contains_key("model"@) && fields["model"@] == JsonModel::Text(model)
            &&& fields.contains_key("messages"@) && fields["messages"@] is Array
            &&& fields["messages"@]->Array_0.len() == 1
            &&& fields["messages"@]->Array_0[0] is Object
            &&& message.contains_key("role"@) && message["role"@] == JsonModel::Text("user"@)
            &&& message.contains_key("content"@) && message["content"@] == JsonModel::Text(prompt)
            &&& fields.contains_key("max_tokens"@) && fields["max_tokens"@] == JsonModel::Number(
                json::decimal(max_tokens),
            )
            &&& fields.contains_key("stream"@) && fields["stream"@] == JsonModel::Bool(false)
            &&& fields.contains_key("thinking"@) && fields["thinking"@] is Object
            &&& mode.contains_key("type"@) && mode["type"@] == JsonModel::Text(
                if thinking {
                    "enabled"@
                } else {
                    "disabled"@
                },
            )
            &&& json::json_parse("0.1"@) is Some ==> fields.contains_key("temperature"@)
                && fields["temperature"@] == json::json_parse("0.1"@)->0
        }),
{
    reveal_strlit("model");
    reveal_strlit("messages");
    reveal_strlit("temperature");
    reveal_strlit("max_tokens");
    reveal_strlit("stream");
    reveal_strlit("thinking");
    reveal_strlit("role");
    reveal_strlit("content");
    assert("model"@.len() == 5 && "messages"@.len() == 8 && "temperature"@.len() == 11);
    assert("max_tokens"@.len() == 10 && "stream"@.len() == 6 && "thinking"@.len() == 8);
    assert("messages"@[0] == 'm' && "thinking"@[0] == 't');
    assert("role"@.len() != "content"@.len());
}

/// A reply with a failure status: 401 and 403 are a refused key, 429 and all that is not
/// from 400 to 499 are worth another try, and the rest are bad requests; the words say so
/// and end in the detail.
pub proof fn statuses_say_what_failed(code: u16, detail: Seq<char>)
    ensures
        code == 401 || code == 403 ==> status_kind(code) == provider::ErrorKind::Auth
            && status_detail(code, detail) == "DeepSeek API auth failed: "@ + detail,
        code == 429 ==> status_kind(code) == provider::ErrorKind::Unavailable && status_detail(
            code,
            detail,
        ) == "DeepSeek API rate limited: "@ + detail,
        400 <= code < 500 && code != 401 && code != 403 && code != 429 ==> status_kind(code)
            == provider::ErrorKind::BadRequest && status_detail(code, detail)
            == "DeepSeek API bad request ("@ + json::decimal(code as nat) + "): "@ + detail,
        code < 400 || code >= 500 ==> status_kind(code) == provider::ErrorKind::Unavailable
            && status_detail(code, detail) == "DeepSeek API server error: "@ + detail,
{
}

/// A reply is read without white space around it, and without a code fence around that.
pub proof fn fences_are_taken_off(s: Seq<char>)
    ensures
        !text::starts_with(text::trim(s), "```"@) && !text::ends_with(text::trim(s), "```"@)
            ==> unfenced(s) == text::trim(s),
        text::starts_with(text::trim(s), "```json"@) && !text::ends_with(
            text::trim(s).skip(7),
            "```"@,
        ) ==> unfenced(s) == text::trim(s).skip(7),
        text::starts_with(text::trim(s), "```json"@) && text::ends_with(
            text::trim(s).skip(7),
            "```"@,
        ) ==> unfenced(s) == text::trim(s).skip(7).drop_last().drop_last().drop_last(),
        text::starts_with(text::trim(s), "```"@) && !text::starts_with(text::trim(s), "```json"@)
            && text::ends_with(text::trim(s).skip(3), "```"@) ==> unfenced(s) == text::trim(
            s,
        ).skip(3).drop_last().drop_last().drop_last(),
        text::starts_with(text::trim(s), "```"@) && !text::starts_with(text::trim(s), "```json"@)
            && !text::ends_with(text::trim(s).skip(3), "```"@) ==> unfenced(s) == text::trim(
            s,
        ).skip(3),
{
    reveal_strlit("```json");
    reveal_strlit("```");
    let t = text::trim(s);
    assert("```json"@.len() == 7 && "```"@.len() == 3);
    if text::starts_with(t, "```json"@) {
        assert("```json"@.take(3) =~= "```"@);
        assert(t.take(3) =~= t.take(7).take(3));
        let o = t.skip(7);
        if text::ends_with(o, "```"@) {
            assert(o.take(o.len() - 3) =~= o.drop_last().drop_last().drop_last());
        }
    } else if text::starts_with(t, "```"@) {
        let o = t.skip(3);
        if text::ends_with(o, "```"@) {
            assert(o.take(o.len() - 3) =~= o.drop_last().drop_last().drop_last());
        }
    }
}

/// Braces are counted outside strings: a quote that is not escaped opens or closes a
/// string, and inside one a backslash escapes the character behind it.
pub proof fn braces_count_outside_strings(s: Seq<char>, start: int, i: int)
    requires
        start <= i,
    ensures
        ({
            let st = scan_to(s, start, i);
            let next = scan_to(s, start, i + 1);
            let c = s[i];
            &&& scan_to(s, start, start) == (ScanState {
                depth: 0,
                in_string: false,
                escaped: false,
            })
            &&& !st.in_string && c == '{' ==> next == (ScanState { depth: st.depth + 1, ..st })
            &&& !st.in_string && c == '}' && st.depth > 0 ==> next == (ScanState {
                depth: st.depth - 1,
                ..st
            })
            &&& !st.in_string && c == '}' && st.depth <= 0 ==> next == (ScanState { depth: 0, ..st })
            &&& !st.in_string && c == '"' ==> next == (ScanState { in_string: true, ..st })
            &&& !st.in_string && c != '{' && c != '}' && c != '"' ==> next == st
            &&& st.in_string && st.escaped ==> next == (ScanState { escaped: false, ..st })
            &&& st.in_string && !st.escaped && c == '\\' ==> next == (ScanState {
                escaped: true,
                ..st
            })
            &&& st.in_string && !st.escaped && c == '"' ==> next == (ScanState {
                in_string: false,
                ..st
            })
            &&& st.in_string && !st.escaped && c != '\\' && c != '"' ==> next == st
        }),
{
}

/// The object of a reply begins with its first brace and ends with the brace that closes
/// it, the first that brings the count back to none; there is only one such object.
pub proof fn first_object_is_balanced(s: Seq<char>, r: Seq<char>) -> (ends: (int, int))
    requires
        is_first_object(s, r),
    ensures
        ({
            let body = unfenced(s);
            let (start, end) = ends;
            &&& 0 <= start < end < body.len()
            &&& r == body.subrange(start, end + 1)
            &&& body[start] == '{' && body[end] == '}'
            &&& forall|k: int| 0 <= k < start ==> (#[trigger] body[k]) != '{'
            &&& scan_to(body, start, end + 1).depth == 0
            &&& !scan_to(body, start, end).in_string
            &&& forall|k: int|
                start < k < end && body[k] == '}' && !scan_to(body, start, k).in_string
                    ==> (#[trigger] scan_to(body, start, k + 1)).depth > 0
        }),
        forall|other: Seq<char>| is_first_object(s, other) ==> other == r,
{
    let body = unfenced(s);
    let (start, end) = choose|start: int, end: int| #[trigger]
        is_object_at(body, start, end) && r == body.subrange(start, end + 1);
    assert(end != start);
    assert forall|k: int|
        start < k < end && body[k] == '}' && !scan_to(body, start, k).in_string implies (
    #[trigger] scan_to(body, start, k + 1)).depth > 0 by {
        assert(!closes_at(body, start, k));
        lemma_depth(body, start, k + 1);
    }
    assert forall|other: Seq<char>| is_first_object(s, other) implies other == r by {
        let (a, b) = choose|a: int, b: int| #[trigger]
            is_object_at(body, a, b) && other == body.subrange(a, b + 1);
        if a < start {
            assert(body[a] != '{');
        } else if start < a {
            assert(body[start] != '{');
        }
        if b < end {
            assert(!closes_at(body, start, b));
        } else if end < b {
            assert(!closes_at(body, a, end));
        }
    }
    (start, end)
}

/// The count of braces is never negative.
proof fn lemma_depth(s: Seq<char>, start: int, i: int)
    ensures
        scan_to(s, start, i).depth >= 0,
    decreases i - start,
{
    if i > start {
        lemma_depth(s, start, i - 1);
    }
}

/// The content of a reply is that of the message of its first choice.
pub proof fn first_choice_is_read(
    root: Map<Seq<char>, JsonModel>,
    choices: Seq<JsonModel>,
    choice: Map<Seq<char>, JsonModel>,
    message: Map<Seq<char>, JsonModel>,
    content: Seq<char>,
)
    requires
        root.contains_key("choices"@),
        root["choices"@] == JsonModel::Array(choices),
    ensures
        choices.len() == 0 ==> content_of(JsonModel::Object(root)) is None,
        choices.len() > 0 && choices[0] == JsonModel::Object(choice) && choice.contains_key(
            "message"@,
        ) && choice["message"@] == JsonModel::Object(message) && message.contains_key("content"@)
            && message["content"@] == JsonModel::Text(content) ==> content_of(
            JsonModel::Object(root),
        ) == Some(content),
{
}

/// The texts of a list are all of them, in order; a list with anything else in it is
/// none.
pub proof fn lists_are_read_whole(items: Seq<JsonModel>)
    ensures
        (forall|i: int| 0 <= i < items.len() ==> (#[trigger] items[i]) is Text) ==> texts_of(
            JsonModel::Array(items),
        ) is Some && texts_of(JsonModel::Array(items))->0.len() == items.len() && forall|i: int|
            0 <= i < items.len() ==> JsonModel::Text(
                #[trigger] texts_of(JsonModel::Array(items))->0[i],
            ) == items[i],
        (exists|i: int| 0 <= i < items.len() && !((#[trigger] items[i]) is Text)) ==> texts_of(
            JsonModel::Array(items),
        ) is None,
        optional_texts(None) == Some(Seq::<Seq<char>>::empty()),
        optional_texts(Some(JsonModel::Array(items))) == texts_of(JsonModel::Array(items)),
{
    if forall|i: int| 0 <= i < items.len() ==> (#[trigger] items[i]) is Text {
        assert(json::is_text_array(JsonModel::Array(items)));
        assert forall|i: int| 0 <= i < items.len() implies JsonModel::Text(
            #[trigger] texts_of(JsonModel::Array(items))->0[i],
        ) == items[i] by {
            assert(items[i] is Text);
        }
    }
}

/// The response of an object: its tags are all the texts at "tags", and each list of its
/// entities all the texts at its own name, none where there is no such list. Without an
/// array of texts at "tags" there is no response.
pub proof fn responses_are_read_whole(
    fields: Map<Seq<char>, JsonModel>,
    tags: Seq<JsonModel>,
    inner: Map<Seq<char>, JsonModel>,
)
    ensures
        !fields.contains_key("tags"@) ==> response_of(JsonModel::Object(fields)) is None,
        fields.contains_key("tags"@) && texts_of(fields["tags"@]) is None ==> response_of(
            JsonModel::Object(fields),
        ) is None,
        fields.contains_key("tags"@) && fields["tags"@] == JsonModel::Array(tags) && (forall|i: int|
            0 <= i < tags.len() ==> (#[trigger] tags[i]) is Text) && !fields.contains_key(
            "entities"@,
        ) ==> {
            let r = response_of(JsonModel::Object(fields));
            &&& r is Some
            &&& r->0.tags.len() == tags.len()
            &&& forall|i: int|
                0 <= i < tags.len() ==> JsonModel::Text(#[trigger] r->0.tags[i]) == tags[i]
            &&& r->0.entities.persons.len() == 0
        },
        fields.contains_key("tags"@) && fields["tags"@] == JsonModel::Array(tags) && (forall|i: int|
            0 <= i < tags.len() ==> (#[trigger] tags[i]) is Text) && fields.contains_key(
            "entities"@,
        ) && fields["entities"@] == JsonModel::Object(inner) && (forall|k: Seq<char>| #[trigger]
            inner.contains_key(k) ==> json::is_text_array(inner[k])) ==> {
            let r = response_of(JsonModel::Object(fields));
            &&& r is Some
            &&& r->0.tags.len() == tags.len()
            &&& forall|i: int|
                0 <= i < tags.len() ==> JsonModel::Text(#[trigger] r->0.tags[i]) == tags[i]
            &&& inner.contains_key("persons"@) ==> Some(r->0.entities.persons) == texts_of(
                inner["persons"@],
            )
            &&& inner.contains_key("organizations"@) ==> Some(r->0.entities.organizations)
                == texts_of(inner["organizations"@])
            &&& inner.contains_key("years"@) ==> Some(r->0.entities.years) == texts_of(
                inner["years"@],
            )
            &&& inner.contains_key("doc_id"@) ==> Some(r->0.entities.doc_id) == texts_of(
                inner["doc_id"@],
            )
            &&& inner.contains_key("amounts"@) ==> Some(r->0.entities.amounts) == texts_of(
                inner["amounts"@],
            )
            &&& !inner.contains_key("persons"@) ==> r->0.entities.persons.len() == 0
            &&& !inner.contains_key("organizations"@) ==> r->0.entities.organizations.len() == 0
            &&& !inner.contains_key("years"@) ==> r->0.entities.years.len() == 0
            &&& !inner.contains_key("doc_id"@) ==> r->0.entities.doc_id.len() == 0
            &&& !inner.contains_key("amounts"@) ==> r->0.entities.amounts.len() == 0
        },
{
    lists_are_read_whole(tags);
    if forall|i: int| 0 <= i < tags.len() ==> (#[trigger] tags[i]) is Text {
        assert(json::is_text_array(JsonModel::Array(tags)));
    }
}

/// Entities that come as a list are read by their places.
pub proof fn entities_are_read_by_place(items: Seq<JsonModel>)
    requires
        forall|i: int| 0 <= i < items.len() ==> json::is_text_array(#[trigger] items[i]),
    ensures
        items.len() > 5 ==> entities_of(JsonModel::Array(items)) is None,
        items.len() <= 5 ==> {
            let e = entities_of(JsonModel::Array(items));
            &&& e is Some
            &&& items.len() > 0 ==> Some(e->0.persons) == texts_of(items[0])
            &&& items.len() > 1 ==> Some(e->0.organizations) == texts_of(items[1])
            &&& items.len() > 2 ==> Some(e->0.years) == texts_of(items[2])
            &&& items.len() > 3 ==> Some(e->0.doc_id) == texts_of(items[3])
            &&& items.len() > 4 ==> Some(e->0.amounts) == texts_of(items[4])
            &&& items.len() <= 0 ==> e->0.persons.len() == 0
            &&& items.len() <= 1 ==> e->0.organizations.len() == 0
            &&& items.len() <= 2 ==> e->0.years.len() == 0
            &&& items.len() <= 3 ==> e->0.doc_id.len() == 0
            &&& items.len() <= 4 ==> e->0.amounts.len() == 0
        },
{
    if items.len() > 0 {
        assert(json::is_text_array(items[0]));
    }
    if items.len() > 1 {
        assert(json::is_text_array(items[1]));
    }
    if items.len() > 2 {
        assert(json::is_text_array(items[2]));
    }
    if items.len() > 3 {
        assert(json::is_text_array(items[3]));
    }
    if items.len() > 4 {
        assert(json::is_text_array(items[4]));
    }
}

/// What a reply is read as: the response of the first object in its content, where that
/// is one, whatever stands around the object. A content without an object is worth another
/// try, and so is a blank one; an object that is no response is an error for good.
pub proof fn replies_are_read_from_their_object(
    root: JsonModel,
    content: Seq<char>,
    object: Seq<char>,
    r: Result<TagResponse, TagError>,
)
    requires
        content_of(root) == Some(content),
        is_reading(root, r),
    ensures
        text::trim(content).len() == 0 ==> r matches Err(TagError::Unavailable(_)),
        text::trim(content).len() > 0 && is_first_object(content, object) && json::json_parse(
            object,
        ) is Some && response_of(json::json_parse(object)->0) is Some ==> r is Ok && Some(
            r->Ok_0@,
        ) == response_of(json::json_parse(object)->0),
        text::trim(content).len() > 0 && is_first_object(content, object) && (json::json_parse(
            object,
        ) is None || response_of(json::json_parse(object)->0) is None) ==> r matches Err(
            TagError::Parse(_),
        ),
        text::trim(content).len() > 0 && (forall|start: int, end: int|
            !(#[trigger] is_object_at(unfenced(content), start, end))) ==> r matches Err(
            TagError::Unavailable(_),
        ),
{
    if text::trim(content).len() > 0 {
        if is_first_object(content, object) {
            first_object_is_balanced(content, object);
            let (a, b) = choose|a: int, b: int| #[trigger]
                is_object_at(unfenced(content), a, b) && object == unfenced(content).subrange(
                    a,
                    b + 1,
                );
            assert(is_object_at(unfenced(content), a, b));
        }
    }
}

/// No more than 200 characters of a content are shown in an error.
pub proof fn errors_show_the_beginning_of_a_content(s: Seq<char>)
    ensures
        s.len() <= 200 ==> preview_of(s) == s,
        s.len() > 200 ==> preview_of(s) == s.take(200),
{
    assert(s.take(s.len() as int) =~= s);
}

/// What is said of a reply that cannot be read: which part of it is missing, that it is
/// blank or holds no object, or why the object is no response, with the beginning of the
/// content.
pub proof fn unreadable_replies_are_explained(
    root: JsonModel,
    content: Seq<char>,
    m: String,
    r: Result<TagResponse, TagError>,
)
    requires
        is_reading(root, r),
    ensures
        content_of(root) is None ==> (r matches Err(TagError::Parse(d)) && d@
            == "API response missing 'choices[0].message.content'"@),
        content_of(root) == Some(content) && text::trim(content).len() == 0 ==> (r matches Err(
            TagError::Unavailable(d),
        ) && d@ == "model returned empty content — retrying"@),
        content_of(root) == Some(content) && text::trim(content).len() > 0 && r
            == Err::<TagResponse, TagError>(TagError::Unavailable(m)) ==> m@
            == "no JSON object in model output — retrying. Raw content: "@ + preview_of(content),
        content_of(root) == Some(content) && text::trim(content).len() > 0 && r
            == Err::<TagResponse, TagError>(TagError::Parse(m)) ==> exists|detail: Seq<char>|
            m@ == #[trigger] ("failed to parse tag JSON from model output: "@ + detail)
                + ". Raw content: "@ + preview_of(content),
{
    if content_of(root) == Some(content) && text::trim(content).len() > 0 && r
        == Err::<TagResponse, TagError>(TagError::Parse(m)) {
        let (object, detail) = choose|object: Seq<char>, detail: Seq<char>|
            {
                &&& #[trigger] is_first_object(content, object)
                &&& (json::json_parse(object) is None || response_of(
                    json::json_parse(object)->0,
                ) is None)
                &&& m@ == #[trigger] parse_message(detail, content)
            };
        assert(m@ == ("failed to parse tag JSON from model output: "@ + detail)
            + ". Raw content: "@ + preview_of(content));
    }
}

/// A key that is not blank is used as it stands; otherwise the error names the variable
/// that should hold it.
pub proof fn keys_are_used_as_they_stand(
    p: DeepSeekProvider,
    value: Option<&str>,
    r: Result<String, TagError>,
)
    requires
        call_ensures(DeepSeekProvider::api_key, (&p, value), r),
    ensures
        r is Ok <==> value is Some && text::trim(value->0@).len() > 0,
        r is Ok ==> r->Ok_0@ == value->0@,
        r is Err && value is None ==> (r->Err_0 matches TagError::Auth(m) && m@
            == "environment variable '"@ + p.api_key_env@
            + "' is not set. Set it to your DeepSeek API key."@),
        r is Err && value is Some ==> (r->Err_0 matches TagError::Auth(m) && m@
            == "environment variable '"@ + p.api_key_env@ + "' is set but empty"@),
{
}

} // verus!
