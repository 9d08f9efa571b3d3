//! File-name tokens and person names: the forms under which they are compared
//! and searched.

use vstd::prelude::*;

use crate::text;
use crate::text::Separator;

verus! {

// ── Diacritics ──

/// The combining marks that are left out of a normalized name.
pub open spec fn combining_mark(c: char) -> bool {
    ||| '\u{0300}' <= c <= '\u{036F}'
    ||| '\u{0483}' <= c <= '\u{0489}'
    ||| '\u{0591}' <= c <= '\u{05C7}'
    ||| '\u{0610}' <= c <= '\u{065F}'
    ||| c == '\u{0670}'
    ||| '\u{06D6}' <= c <= '\u{06ED}'
    ||| c == '\u{0711}'
    ||| '\u{0730}' <= c <= '\u{074A}'
    ||| '\u{07A6}' <= c <= '\u{07B0}'
    ||| '\u{0900}' <= c <= '\u{0902}'
    ||| '\u{093A}' <= c <= '\u{094D}'
    ||| '\u{0951}' <= c <= '\u{0957}'
    ||| '\u{0962}' <= c <= '\u{0963}'
    ||| '\u{0981}' <= c <= '\u{09CD}'
    ||| '\u{09E2}' <= c <= '\u{09E3}'
    ||| '\u{0A01}' <= c <= '\u{0A4D}'
    ||| '\u{0A70}' <= c <= '\u{0A71}'
    ||| '\u{0A81}' <= c <= '\u{0ACD}'
    ||| '\u{0B3E}' <= c <= '\u{0B3F}'
    ||| '\u{0E31}' <= c <= '\u{0E3A}'
    ||| '\u{0E47}' <= c <= '\u{0E4E}'
    ||| '\u{0EB1}' <= c <= '\u{0EBC}'
    ||| '\u{0EC8}' <= c <= '\u{0ECD}'
    ||| '\u{0F18}' <= c <= '\u{0FBC}'
    ||| c == '\u{0FC6}'
    ||| '\u{1DC0}' <= c <= '\u{1DFF}'
    ||| '\u{20D0}' <= c <= '\u{20FF}'
    ||| '\u{FE00}' <= c <= '\u{FE0F}'
    ||| '\u{FE20}' <= c <= '\u{FE2F}'
}

/// Whether `c` is a combining mark that is left out of a normalized name.
pub fn is_combining_mark(c: char) -> (r: bool)
    ensures
        r == combining_mark(c),
{
    ('\u{0300}' <= c && c <= '\u{036F}') || ('\u{0483}' <= c && c <= '\u{0489}')
        || ('\u{0591}' <= c && c <= '\u{05C7}') || ('\u{0610}' <= c && c <= '\u{065F}')
        || c == '\u{0670}' || ('\u{06D6}' <= c && c <= '\u{06ED}') || c == '\u{0711}'
        || ('\u{0730}' <= c && c <= '\u{074A}') || ('\u{07A6}' <= c && c <= '\u{07B0}')
        || ('\u{0900}' <= c && c <= '\u{0902}') || ('\u{093A}' <= c && c <= '\u{094D}')
        || ('\u{0951}' <= c && c <= '\u{0957}') || ('\u{0962}' <= c && c <= '\u{0963}')
        || ('\u{0981}' <= c && c <= '\u{09CD}') || ('\u{09E2}' <= c && c <= '\u{09E3}')
        || ('\u{0A01}' <= c && c <= '\u{0A4D}') || ('\u{0A70}' <= c && c <= '\u{0A71}')
        || ('\u{0A81}' <= c && c <= '\u{0ACD}') || ('\u{0B3E}' <= c && c <= '\u{0B3F}')
        || ('\u{0E31}' <= c && c <= '\u{0E3A}') || ('\u{0E47}' <= c && c <= '\u{0E4E}')
        || ('\u{0EB1}' <= c && c <= '\u{0EBC}') || ('\u{0EC8}' <= c && c <= '\u{0ECD}')
        || ('\u{0F18}' <= c && c <= '\u{0FBC}') || c == '\u{0FC6}'
        || ('\u{1DC0}' <= c && c <= '\u{1DFF}') || ('\u{20D0}' <= c && c <= '\u{20FF}')
        || ('\u{FE00}' <= c && c <= '\u{FE0F}') || ('\u{FE20}' <= c && c <= '\u{FE2F}')
}

/// The letter under the diacritic of a letter of Latin Extended-A, as a capital and as a
/// small letter, where there is one.
pub open spec fn extended_letter(c: char) -> Option<(char, char)> {
    if '\u{0100}' <= c <= '\u{0105}' {
        Some(('A', 'a'))
    } else if '\u{0106}' <= c <= '\u{010D}' {
        Some(('C', 'c'))
    } else if '\u{010E}' <= c <= '\u{0111}' {
        Some(('D', 'd'))
    } else if '\u{0112}' <= c <= '\u{011B}' {
        Some(('E', 'e'))
    } else if '\u{011C}' <= c <= '\u{0123}' {
        Some(('G', 'g'))
    } else if '\u{0124}' <= c <= '\u{0127}' {
        Some(('H', 'h'))
    } else if '\u{0128}' <= c <= '\u{0131}' {
        Some(('I', 'i'))
    } else if '\u{0134}' <= c <= '\u{0135}' {
        Some(('J', 'j'))
    } else if '\u{0136}' <= c <= '\u{0137}' {
        Some(('K', 'k'))
    } else if '\u{0139}' <= c <= '\u{0142}' {
        Some(('L', 'l'))
    } else if '\u{0143}' <= c <= '\u{0148}' {
        Some(('N', 'n'))
    } else if '\u{014C}' <= c <= '\u{0151}' {
        Some(('O', 'o'))
    } else if '\u{0154}' <= c <= '\u{0159}' {
        Some(('R', 'r'))
    } else if '\u{015A}' <= c <= '\u{0161}' {
        Some(('S', 's'))
    } else if '\u{0162}' <= c <= '\u{0167}' {
        Some(('T', 't'))
    } else if '\u{0168}' <= c <= '\u{0173}' {
        Some(('U', 'u'))
    } else if '\u{0174}' <= c <= '\u{0175}' {
        Some(('W', 'w'))
    } else if '\u{0176}' <= c <= '\u{0178}' {
        Some(('Y', 'y'))
    } else if '\u{0179}' <= c <= '\u{017E}' {
        Some(('Z', 'z'))
    } else {
        None
    }
}

/// A letter of Latin Extended-A is a capital: every other one is, from the first or from
/// the second on.
pub open spec fn is_extended_capital(c: char) -> bool {
    let from_second = '\u{0139}' <= c <= '\u{0148}' || '\u{0179}' <= c <= '\u{017E}';
    (c as u32 % 2 == 1) == from_second
}

/// The letter without its diacritic, for the accented letters of the Latin-1
/// Supplement and of Latin Extended-A. Any other character is unchanged, and so are
/// ligatures and letters that stand for a sound of their own.
pub open spec fn base_letter(c: char) -> char {
    if 'À' <= c <= 'Å' {
        'A'
    } else if c == 'Ç' {
        'C'
    } else if 'È' <= c <= 'Ë' {
        'E'
    } else if 'Ì' <= c <= 'Ï' {
        'I'
    } else if c == 'Ñ' {
        'N'
    } else if 'Ò' <= c <= 'Ö' {
        'O'
    } else if 'Ù' <= c <= 'Ü' {
        'U'
    } else if c == 'Ý' {
        'Y'
    } else if 'à' <= c <= 'å' {
        'a'
    } else if c == 'ç' {
        'c'
    } else if 'è' <= c <= 'ë' {
        'e'
    } else if 'ì' <= c <= 'ï' {
        'i'
    } else if c == 'ñ' {
        'n'
    } else if 'ò' <= c <= 'ö' {
        'o'
    } else if 'ù' <= c <= 'ü' {
        'u'
    } else if c == 'ý' || c == 'ÿ' {
        'y'
    } else {
        match extended_letter(c) {
            Some((capital, small)) => if is_extended_capital(c) {
                capital
            } else {
                small
            },
            None => c,
        }
    }
}

fn find_extended_letter(c: char) -> (r: Option<(char, char)>)
    ensures
        r == extended_letter(c),
{
    if '\u{0100}' <= c && c <= '\u{0105}' {
        Some(('A', 'a'))
    } else if '\u{0106}' <= c && c <= '\u{010D}' {
        Some(('C', 'c'))
    } else if '\u{010E}' <= c && c <= '\u{0111}' {
        Some(('D', 'd'))
    } else if '\u{0112}' <= c && c <= '\u{011B}' {
        Some(('E', 'e'))
    } else if '\u{011C}' <= c && c <= '\u{0123}' {
        Some(('G', 'g'))
    } else if '\u{0124}' <= c && c <= '\u{0127}' {
        Some(('H', 'h'))
    } else if '\u{0128}' <= c && c <= '\u{0131}' {
        Some(('I', 'i'))
    } else if '\u{0134}' <= c && c <= '\u{0135}' {
        Some(('J', 'j'))
    } else if '\u{0136}' <= c && c <= '\u{0137}' {
        Some(('K', 'k'))
    } else if '\u{0139}' <= c && c <= '\u{0142}' {
        Some(('L', 'l'))
    } else if '\u{0143}' <= c && c <= '\u{0148}' {
        Some(('N', 'n'))
    } else if '\u{014C}' <= c && c <= '\u{0151}' {
        Some(('O', 'o'))
    } else if '\u{0154}' <= c && c <= '\u{0159}' {
        Some(('R', 'r'))
    } else if '\u{015A}' <= c && c <= '\u{0161}' {
        Some(('S', 's'))
    } else if '\u{0162}' <= c && c <= '\u{0167}' {
        Some(('T', 't'))
    } else if '\u{0168}' <= c && c <= '\u{0173}' {
        Some(('U', 'u'))
    } else if '\u{0174}' <= c && c <= '\u{0175}' {
        Some(('W', 'w'))
    } else if '\u{0176}' <= c && c <= '\u{0178}' {
        Some(('Y', 'y'))
    } else if '\u{0179}' <= c && c <= '\u{017E}' {
        Some(('Z', 'z'))
    } else {
        None
    }
}

fn to_base_letter(c: char) -> (r: char)
    ensures
        r == base_letter(c),
{
    if 'À' <= c && c <= 'Å' {
        'A'
    } else if c == 'Ç' {
        'C'
    } else if 'È' <= c && c <= 'Ë' {
        'E'
    } else if 'Ì' <= c && c <= 'Ï' {
        'I'
    } else if c == 'Ñ' {
        'N'
    } else if 'Ò' <= c && c <= 'Ö' {
        'O'
    } else if 'Ù' <= c && c <= 'Ü' {
        'U'
    } else if c == 'Ý' {
        'Y'
    } else if 'à' <= c && c <= 'å' {
        'a'
    } else if c == 'ç' {
        'c'
    } else if 'è' <= c && c <= 'ë' {
        'e'
    } else if 'ì' <= c && c <= 'ï' {
        'i'
    } else if c == 'ñ' {
        'n'
    } else if 'ò' <= c && c <= 'ö' {
        'o'
    } else if 'ù' <= c && c <= 'ü' {
        'u'
    } else if c == 'ý' || c == 'ÿ' {
        'y'
    } else if let Some((capital, small)) = find_extended_letter(c) {
        let from_second: bool = ('\u{0139}' <= c && c <= '\u{0148}') || ('\u{0179}' <= c && c
            <= '\u{017E}');
        if (c as u32 % 2 == 1) == from_second {
            capital
        } else {
            small
        }
    } else {
        c
    }
}

/// A text without combining marks, and its letters without diacritics.
pub open spec fn plain_letters(s: Seq<char>) -> Seq<char> {
    s.filter(|c: char| !combining_mark(c)).map_values(|c: char| base_letter(c))
}

/// A text without combining marks, and its letters without diacritics.
fn strip_diacritics(s: &str) -> (r: String)
    ensures
        r@ == plain_letters(s@),
{
    let chars: Vec<char> = text::chars_of(s);
    let ghost p = |c: char| !combining_mark(c);
    let ghost f = |c: char| base_letter(c);
    let mut r: String = String::new();
    let mut i: usize = 0;
    proof {
        reveal(Seq::filter);
        assert(chars@.take(0) =~= Seq::<char>::empty());
        assert(r@ =~= chars@.take(0).filter(p).map_values(f));
    }
    while i < chars.len()
        invariant
            i <= chars@.len(),
            p == (|c: char| !combining_mark(c)),
            f == (|c: char| base_letter(c)),
            r@ == chars@.take(i as int).filter(p).map_values(f),
        decreases chars@.len() - i,
    {
        let c: char = chars[i];
        proof {
            reveal(Seq::filter);
            assert(chars@.take(i + 1).drop_last() =~= chars@.take(i as int));
        }
        if !is_combining_mark(c) {
            let ghost before = chars@.take(i as int).filter(p);
            r.push(to_base_letter(c));
            assert(before.push(c).map_values(f) =~= before.map_values(f).push(f(c)));
        }
        i = i + 1;
    }
    assert(chars@.take(chars@.len() as int) =~= s@);
    r
}

// ── File-name tokens ──

/// The value of a sequence of decimal digits.
pub open spec fn digits_value(s: Seq<char>) -> nat
    decreases s.len(),
{
    if s.len() == 0 {
        0
    } else {
        digits_value(s.drop_last()) * 10 + (s.last() as nat - '0' as nat) as nat
    }
}

/// Every character is a decimal digit.
pub open spec fn all_digits(s: Seq<char>) -> bool {
    forall|i: int| 0 <= i < s.len() ==> '0' <= #[trigger] s[i] <= '9'
}

/// The text is a number that fits in 64 bits: digits, with a plus sign or none
/// before them.
pub open spec fn is_number(s: Seq<char>) -> bool {
    let digits = if s.len() > 0 && s[0] == '+' {
        s.skip(1)
    } else {
        s
    };
    digits.len() > 0 && all_digits(digits) && digits_value(digits) <= u64::MAX
}

/// More digits make no smaller number.
proof fn lemma_prefix_value(s: Seq<char>, n: int)
    requires
        0 <= n <= s.len(),
        all_digits(s),
    ensures
        digits_value(s.take(n)) <= digits_value(s),
    decreases s.len(),
{
    if n == s.len() {
        assert(s.take(n) =~= s);
    } else {
        assert(all_digits(s.drop_last())) by {
            assert forall|i: int| 0 <= i < s.drop_last().len() implies '0' <= #[trigger] s.drop_last()[i]
                <= '9' by {
                assert(s.drop_last()[i] == s[i]);
            }
        }
        lemma_prefix_value(s.drop_last(), n);
        assert(s.drop_last().take(n) =~= s.take(n));
        assert('0' <= s[s.len() - 1] <= '9');
    }
}

/// Whether a text is a number that fits in 64 bits.
pub fn parses_as_number(s: &str) -> (r: bool)
    ensures
        r == is_number(s@),
{
    let chars: Vec<char> = text::chars_of(s);
    let start: usize = if chars.len() > 0 && chars[0] == '+' {
        1
    } else {
        0
    };
    let ghost digits = chars@.skip(start as int);
    proof {
        assert(chars@.skip(0) =~= chars@);
        assert(is_number(s@) == (digits.len() > 0 && all_digits(digits) && digits_value(digits)
            <= u64::MAX));
    }
    if start == chars.len() {
        return false;
    }
    let mut value: u64 = 0;
    let mut i: usize = start;
    assert(digits.take(0) =~= Seq::<char>::empty());
    while i < chars.len()
        invariant
            start <= i <= chars@.len(),
            start <= 1,
            digits == chars@.skip(start as int),
            is_number(s@) == (digits.len() > 0 && all_digits(digits) && digits_value(digits)
                <= u64::MAX),
            forall|k: int| 0 <= k < i - start ==> '0' <= #[trigger] digits[k] <= '9',
            value == digits_value(digits.take(i - start)),
        decreases chars@.len() - i,
    {
        let c: char = chars[i];
        let ghost at = i - start;
        assert(digits[at] == c);
        if c < '0' || c > '9' {
            return false;
        }
        let d: u64 = (c as u32 - '0' as u32) as u64;
        proof {
            assert(digits.take(at + 1).drop_last() =~= digits.take(at));
            assert(digits_value(digits.take(at + 1)) == value * 10 + d);
            if all_digits(digits) {
                lemma_prefix_value(digits, at + 1);
            }
        }
        if value > (u64::MAX - d) / 10 {
            return false;
        }
        value = value * 10 + d;
        i = i + 1;
    }
    assert(digits.take(digits.len() as int) =~= digits);
    true
}

/// Words that say nothing of what a file holds.
pub open spec fn is_stopword(t: Seq<char>) -> bool {
    ||| t == "copy"@
    ||| t == "final"@
    ||| t == "v1"@
    ||| t == "v2"@
    ||| t == "v3"@
    ||| t == "draft"@
    ||| t == "scan"@
    ||| t == "scanned"@
    ||| t == "ocr"@
    ||| t == "new"@
    ||| t == "old"@
    ||| t == "revised"@
}

fn stopword(t: &str) -> (r: bool)
    ensures
        r == is_stopword(t@),
{
    text::same_text(t, "copy") || text::same_text(t, "final") || text::same_text(t, "v1")
        || text::same_text(t, "v2") || text::same_text(t, "v3") || text::same_text(t, "draft")
        || text::same_text(t, "scan") || text::same_text(t, "scanned") || text::same_text(t, "ocr")
        || text::same_text(t, "new") || text::same_text(t, "old") || text::same_text(t, "revised")
}

/// A token of a file name: not empty, no stopword and no number.
pub open spec fn is_token(t: Seq<char>) -> bool {
    t.len() > 0 && !is_stopword(t) && !is_number(t)
}

/// A file name without its last dot and what follows it.
pub open spec fn stem(s: Seq<char>) -> Seq<char> {
    let dot = text::last_place(s, '.');
    if dot >= 0 {
        s.take(dot)
    } else {
        s
    }
}

/// Each text lower-cased.
pub open spec fn lowercased(v: Seq<Seq<char>>) -> Seq<Seq<char>> {
    v.map_values(|s: Seq<char>| text::lowercase(s))
}

/// The tokens among some texts.
pub open spec fn tokens_among(pieces: Seq<Seq<char>>) -> Seq<Seq<char>> {
    pieces.filter(|t: Seq<char>| is_token(t))
}

/// The tokens of a file name.
pub open spec fn filename_tokens(filename: Seq<char>) -> Seq<Seq<char>> {
    tokens_among(lowercased(text::split(stem(filename), Separator::NamePart)))
}

/// A file name without its last dot and what follows it.
pub fn file_stem(filename: &str) -> (r: String)
    ensures
        r@ == stem(filename@),
{
    let chars: Vec<char> = text::chars_of(filename);
    match text::find_last(&chars, '.') {
        Some(dot) => {
            assert(chars@.subrange(0, dot as int) =~= filename@.take(dot as int));
            text::string_of(&chars, 0, dot)
        },
        None => text::copy_str(filename),
    }
}

/// The tokens of a file name: its parts between separators, lower-cased, without
/// the extension, stopwords and numbers.
pub fn extract_filename_tokens(filename: &str) -> (r: Vec<String>)
    ensures
        text::texts(r@) == filename_tokens(filename@),
{
    let stem_text: String = file_stem(filename);
    let pieces: Vec<String> = text::split_text(stem_text.as_str(), Separator::NamePart);
    keep_tokens(lowercase_all(&pieces))
}

/// Each string lower-cased.
fn lowercase_all(v: &Vec<String>) -> (r: Vec<String>)
    ensures
        text::texts(r@) == lowercased(text::texts(v@)),
{
    let mut r: Vec<String> = Vec::new();
    let mut i: usize = 0;
    while i < v.len()
        invariant
            i <= v@.len(),
            r@.len() == i,
            forall|k: int| 0 <= k < i ==> (#[trigger] r@[k])@ == text::lowercase(v@[k]@),
        decreases v@.len() - i,
    {
        r.push(text::to_lowercase(v[i].as_str()));
        i = i + 1;
    }
    assert(text::texts(r@) =~= lowercased(text::texts(v@)));
    r
}

/// The tokens among lower-cased pieces of a file name.
pub fn keep_tokens(pieces: Vec<String>) -> (r: Vec<String>)
    ensures
        text::texts(r@) == tokens_among(text::texts(pieces@)),
{
    let ghost all = text::texts(pieces@);
    let ghost p = |t: Seq<char>| is_token(t);
    let mut r: Vec<String> = Vec::new();
    let mut i: usize = 0;
    proof {
        reveal(Seq::filter);
        assert(all.take(0) =~= Seq::<Seq<char>>::empty());
        assert(text::texts(r@) =~= all.take(0).filter(p));
    }
    while i < pieces.len()
        invariant
            i <= pieces@.len(),
            all == text::texts(pieces@),
            p == (|t: Seq<char>| is_token(t)),
            text::texts(r@) == all.take(i as int).filter(p),
        decreases pieces@.len() - i,
    {
        let ghost r0 = r@;
        proof {
            reveal(Seq::filter);
            assert(all.take(i + 1).drop_last() =~= all.take(i as int));
            assert(all.take(i + 1).last() == pieces@[i as int]@);
        }
        let t: &str = pieces[i].as_str();
        if !t.is_empty() && !stopword(t) && !parses_as_number(t) {
            r.push(text::copy_str(t));
            assert(text::texts(r@) =~= text::texts(r0).push(pieces@[i as int]@));
        }
        i = i + 1;
    }
    assert(all.take(all.len() as int) =~= all);
    r
}

/// What is before the last dot is the stem.
proof fn lemma_stem(s: Seq<char>, extension: Seq<char>)
    requires
        !extension.contains('.'),
    ensures
        stem(s.push('.') + extension) == s,
{
    text::last_place_is_before_the_rest(s, '.', extension);
    assert((s.push('.') + extension).take(s.len() as int) =~= s);
}

/// Neither letter case nor the extension matters to the tokens of a file name: two
/// ASCII names that are the same but for the case of their letters and what follows
/// the last dot have the same tokens.
pub proof fn tokens_ignore_case_and_extension(
    s: Seq<char>,
    t: Seq<char>,
    e1: Seq<char>,
    e2: Seq<char>,
)
    requires
        text::all_ascii(s),
        text::all_ascii(t),
        text::ascii_lowercase(s) == text::ascii_lowercase(t),
        !e1.contains('.'),
        !e2.contains('.'),
    ensures
        filename_tokens(s.push('.') + e1) == filename_tokens(t.push('.') + e2),
{
    lemma_stem(s, e1);
    lemma_stem(t, e2);
    text::splitting_keeps_to_letter_case(s, Separator::NamePart);
    text::splitting_keeps_to_letter_case(t, Separator::NamePart);
}

/// A file name in capitals, with any extension, has the tokens of the name itself.
pub proof fn tokens_of_a_name_in_capitals(s: Seq<char>, e1: Seq<char>, e2: Seq<char>)
    requires
        text::all_ascii(s),
        !e1.contains('.'),
        !e2.contains('.'),
    ensures
        filename_tokens(s + "."@ + e1) == filename_tokens(text::ascii_uppercase(s) + "."@ + e2),
{
    reveal_strlit(".");
    let t = text::ascii_uppercase(s);
    text::upper_case_is_lower_cased_alike(s);
    tokens_ignore_case_and_extension(s, t, e1, e2);
    assert(s + "."@ =~= s.push('.'));
    assert(t + "."@ =~= t.push('.'));
}

// ── Person names ──

/// The pieces of a name: white space parts them, and an upper-case letter opens a
/// new one.
pub open spec fn camel_pieces(s: Seq<char>) -> Seq<Seq<char>>
    decreases s.len(),
{
    if s.len() == 0 {
        seq![Seq::<char>::empty()]
    } else {
        let before = camel_pieces(s.drop_last());
        let c = s.last();
        if text::is_whitespace(c) {
            before.push(Seq::<char>::empty())
        } else if text::is_uppercase(c) && before.last().len() > 0 {
            before.push(seq![c])
        } else {
            before.drop_last().push(before.last().push(c))
        }
    }
}

/// One of the characters is an upper-case letter.
pub open spec fn has_uppercase(s: Seq<char>) -> bool {
    exists|i: int| 0 <= i < s.len() && text::is_uppercase(#[trigger] s[i])
}

/// The words of a name in camel case, lower-cased; none where the name has no
/// upper-case letter or is a single word.
pub open spec fn camel_words(s: Seq<char>) -> Option<Seq<Seq<char>>> {
    let parts = lowercased(text::non_empty(camel_pieces(s)));
    if has_uppercase(s) && parts.len() >= 2 {
        Some(parts)
    } else {
        None
    }
}

/// Split CamelCase or PascalCase into words, treating spaces as delimiters.
pub fn split_camel_case(s: &str) -> (r: Option<Vec<String>>)
    ensures
        match r {
            Some(parts) => camel_words(s@) == Some(text::texts(parts@)),
            None => camel_words(s@) is None,
        },
{
    let chars: Vec<char> = text::chars_of(s);
    let mut upper: bool = false;
    let mut done: Vec<String> = Vec::new();
    let mut open: String = String::new();
    let mut started: bool = false;
    let mut i: usize = 0;
    assert(chars@.take(0) =~= Seq::<char>::empty());
    assert(text::texts(done@).push(open@) =~= seq![Seq::<char>::empty()]);
    while i < chars.len()
        invariant
            i <= chars@.len(),
            chars@ == s@,
            started == (open@.len() > 0),
            text::texts(done@).push(open@) == camel_pieces(chars@.take(i as int)),
            upper == has_uppercase(chars@.take(i as int)),
        decreases chars@.len() - i,
    {
        let c: char = chars[i];
        let ghost before = text::texts(done@).push(open@);
        proof {
            assert(chars@.take(i + 1).drop_last() =~= chars@.take(i as int));
            assert(before.drop_last() =~= text::texts(done@));
            lemma_has_uppercase(chars@.take(i + 1));
        }
        let is_upper: bool = text::char_is_uppercase(c);
        if is_upper {
            upper = true;
        }
        if text::char_is_whitespace(c) {
            let ghost done0 = done@;
            let mut piece: String = String::new();
            std::mem::swap(&mut piece, &mut open);
            done.push(piece);
            started = false;
            proof {
                assert(text::texts(done@) =~= text::texts(done0).push(piece@));
                assert(text::texts(done@).push(open@) =~= before.push(Seq::<char>::empty()));
            }
        } else if is_upper && started {
            let ghost done0 = done@;
            let mut piece: String = String::new();
            piece.push(c);
            std::mem::swap(&mut piece, &mut open);
            done.push(piece);
            started = true;
            proof {
                assert(open@ =~= seq![c]);
                assert(text::texts(done@) =~= text::texts(done0).push(piece@));
                assert(text::texts(done@).push(open@) =~= before.push(seq![c]));
            }
        } else {
            open.push(c);
            started = true;
            assert(text::texts(done@).push(open@) =~= before.drop_last().push(before.last().push(c)));
        }
        i = i + 1;
    }
    let ghost done0 = done@;
    done.push(open);
    proof {
        assert(chars@.take(chars@.len() as int) =~= s@);
        assert(text::texts(done@) =~= text::texts(done0).push(open@));
    }
    let parts: Vec<String> = lowercase_all(&text::keep_non_empty(done));
    assert(text::texts(parts@) == lowercased(text::non_empty(camel_pieces(s@))));
    if upper && parts.len() >= 2 {
        Some(parts)
    } else {
        None
    }
}

proof fn lemma_has_uppercase(s: Seq<char>)
    requires
        s.len() > 0,
    ensures
        has_uppercase(s) == (has_uppercase(s.drop_last()) || text::is_uppercase(s.last())),
{
    if has_uppercase(s.drop_last()) {
        let i = choose|i: int| 0 <= i < s.drop_last().len() && text::is_uppercase(#[trigger] s.drop_last()[i]);
        assert(s[i] == s.drop_last()[i]);
    }
    if text::is_uppercase(s.last()) {
        assert(s[s.len() - 1] == s.last());
    }
    if has_uppercase(s) {
        let i = choose|i: int| 0 <= i < s.len() && text::is_uppercase(#[trigger] s[i]);
        if i < s.len() - 1 {
            assert(s.drop_last()[i] == s[i]);
        }
    }
}

/// The list with `s` at its end, unless it is there already.
pub open spec fn add_new(v: Seq<Seq<char>>, s: Seq<char>) -> Seq<Seq<char>> {
    if v.contains(s) {
        v
    } else {
        v.push(s)
    }
}

/// The list with each of the items at its end that is not there already.
pub open spec fn add_all(v: Seq<Seq<char>>, items: Seq<Seq<char>>) -> Seq<Seq<char>>
    decreases items.len(),
{
    if items.len() == 0 {
        v
    } else {
        add_new(add_all(v, items.drop_last()), items.last())
    }
}

/// The given names written as one, before the family name that came first.
pub open spec fn given_name_first(parts: Seq<Seq<char>>) -> Seq<char> {
    text::join(parts.skip(1), ""@) + " "@ + parts[0]
}

/// The forms of a name in words: its words in order, the given names before the
/// family name, and all of it written as one.
pub open spec fn word_forms(words: Seq<Seq<char>>) -> Seq<Seq<char>> {
    seq![text::join(words, " "@), given_name_first(words), text::join(words, ""@)]
}

/// The forms of a name in camel case: its parts in order, and all of it written as
/// one.
pub open spec fn camel_forms(parts: Seq<Seq<char>>) -> Seq<Seq<char>> {
    seq![text::join(parts, " "@), text::join(parts, ""@)]
}

/// A word is written in capitals: every letter is an upper-case one.
pub open spec fn in_capitals(word: Seq<char>) -> bool {
    forall|i: int|
        0 <= i < word.len() ==> text::is_uppercase(#[trigger] word[i]) || is_ascii_mark(word[i])
}

/// An ASCII character that is no letter.
pub open spec fn is_ascii_mark(c: char) -> bool {
    '\u{80}' > c && !('a' <= c <= 'z') && !('A' <= c <= 'Z')
}

/// The camel-case parts of a word, where it has any: one that is written in capitals
/// has none.
pub open spec fn word_parts(word: Seq<char>) -> Option<Seq<Seq<char>>> {
    if in_capitals(word) {
        None
    } else {
        camel_words(word)
    }
}

/// Each word in its camel-case parts, or lower-cased where it has none.
pub open spec fn expanded(words: Seq<Seq<char>>) -> Seq<Seq<char>>
    decreases words.len(),
{
    if words.len() == 0 {
        Seq::empty()
    } else {
        expanded(words.drop_last()) + match word_parts(words.last()) {
            Some(parts) => parts,
            None => seq![text::lowercase(words.last())],
        }
    }
}

/// One of the words has camel-case parts.
pub open spec fn has_camel_word(words: Seq<Seq<char>>) -> bool {
    exists|i: int| 0 <= i < words.len() && word_parts(#[trigger] words[i]) is Some
}

/// The plain lower-case form of a name.
pub open spec fn plain_name(name: Seq<char>) -> Seq<char> {
    text::trim(plain_letters(text::lowercase(name)))
}

/// The forms under which a name is found, its plain lower-case form first: none
/// for a name that has no letters left.
pub open spec fn name_variants(name: Seq<char>) -> Seq<Seq<char>> {
    let plain = plain_name(name);
    let cased = text::trim(plain_letters(name));
    if plain.len() == 0 {
        Seq::empty()
    } else {
        let words = text::words(plain);
        let cased_words = text::words(cased);
        if has_camel_word(cased_words) {
            add_all(seq![plain], camel_forms(expanded(cased_words)))
        } else if words.len() >= 2 {
            add_all(seq![plain], word_forms(words))
        } else {
            seq![plain]
        }
    }
}

/// Adds a string to a list, unless it is there already.
pub fn push_new(v: &mut Vec<String>, s: String)
    ensures
        text::texts(final(v)@) == add_new(text::texts(old(v)@), s@),
{
    if !text::contains_text(v.as_slice(), s.as_str()) {
        let ghost before = v@;
        v.push(s);
        assert(text::texts(v@) =~= text::texts(before).push(s@));
    }
}

/// The given names written as one, before the family name that came first.
fn given_first(parts: &Vec<String>) -> (r: String)
    requires
        parts@.len() >= 2,
    ensures
        r@ == given_name_first(text::texts(parts@)),
{
    let mut given: Vec<String> = Vec::new();
    let mut i: usize = 1;
    while i < parts.len()
        invariant
            1 <= i <= parts@.len(),
            given@.len() == i - 1,
            forall|k: int| 0 <= k < given@.len() ==> (#[trigger] given@[k])@ == parts@[k + 1]@,
        decreases parts@.len() - i,
    {
        given.push(text::copy_str(parts[i].as_str()));
        i = i + 1;
    }
    assert(text::texts(given@) =~= text::texts(parts@).skip(1));
    let mut r: String = text::join_texts(&given, "");
    r.append(" ");
    r.append(parts[0].as_str());
    r
}

/// Adds the forms of a name in words.
fn push_word_forms(v: &mut Vec<String>, words: &Vec<String>)
    requires
        words@.len() >= 2,
    ensures
        text::texts(final(v)@) == add_all(
            text::texts(old(v)@),
            word_forms(text::texts(words@)),
        ),
{
    let ghost start = text::texts(v@);
    let ghost forms = word_forms(text::texts(words@));
    proof {
        reveal_with_fuel(add_all, 4);
        assert(forms.drop_last() =~= seq![forms[0], forms[1]]);
        assert(forms.drop_last().drop_last() =~= seq![forms[0]]);
        assert(forms.drop_last().drop_last().drop_last() =~= Seq::<Seq<char>>::empty());
        assert(add_all(start, forms) == add_new(
            add_new(add_new(start, forms[0]), forms[1]),
            forms[2],
        ));
    }
    push_new(v, text::join_texts(words, " "));
    push_new(v, given_first(words));
    push_new(v, text::join_texts(words, ""));
}

/// Adds the forms of a name in camel case.
fn push_camel_forms(v: &mut Vec<String>, parts: &Vec<String>)
    ensures
        text::texts(final(v)@) == add_all(
            text::texts(old(v)@),
            camel_forms(text::texts(parts@)),
        ),
{
    let ghost start = text::texts(v@);
    let ghost forms = camel_forms(text::texts(parts@));
    proof {
        reveal_with_fuel(add_all, 3);
        assert(forms.drop_last() =~= seq![forms[0]]);
        assert(forms.drop_last().drop_last() =~= Seq::<Seq<char>>::empty());
        assert(add_all(start, forms) == add_new(add_new(start, forms[0]), forms[1]));
    }
    push_new(v, text::join_texts(parts, " "));
    push_new(v, text::join_texts(parts, ""));
}

/// Whether a word is written in capitals.
fn is_in_capitals(word: &str) -> (r: bool)
    ensures
        r == in_capitals(word@),
{
    let chars: Vec<char> = text::chars_of(word);
    let mut i: usize = 0;
    while i < chars.len()
        invariant
            i <= chars@.len(),
            chars@ == word@,
            forall|k: int|
                0 <= k < i ==> text::is_uppercase(#[trigger] word@[k]) || is_ascii_mark(word@[k]),
        decreases chars@.len() - i,
    {
        let c: char = chars[i];
        let mark: bool = '\u{80}' > c && !('a' <= c && c <= 'z') && !('A' <= c && c <= 'Z');
        if !text::char_is_uppercase(c) && !mark {
            assert(!text::is_uppercase(word@[i as int]) && !is_ascii_mark(word@[i as int]));
            return false;
        }
        i = i + 1;
    }
    true
}

/// The camel-case parts of a word, where it has any.
fn split_word(word: &str) -> (r: Option<Vec<String>>)
    ensures
        match r {
            Some(parts) => word_parts(word@) == Some(text::texts(parts@)),
            None => word_parts(word@) is None,
        },
{
    if is_in_capitals(word) {
        None
    } else {
        split_camel_case(word)
    }
}

/// Each word in its camel-case parts, or lower-cased where it has none; and
/// whether one of them has such parts.
fn expand_words(words: &Vec<String>) -> (r: (bool, Vec<String>))
    ensures
        r.0 == has_camel_word(text::texts(words@)),
        text::texts(r.1@) == expanded(text::texts(words@)),
{
    let ghost all = text::texts(words@);
    let mut any: bool = false;
    let mut parts: Vec<String> = Vec::new();
    let mut i: usize = 0;
    assert(all.take(0) =~= Seq::<Seq<char>>::empty());
    assert(text::texts(parts@) =~= expanded(all.take(0)));
    while i < words.len()
        invariant
            i <= words@.len(),
            all == text::texts(words@),
            text::texts(parts@) == expanded(all.take(i as int)),
            any == has_camel_word(all.take(i as int)),
        decreases words@.len() - i,
    {
        let ghost parts0 = parts@;
        proof {
            assert(all.take(i + 1).drop_last() =~= all.take(i as int));
            assert(all.take(i + 1).last() == words@[i as int]@);
            lemma_has_camel_word(all.take(i + 1));
        }
        match split_word(words[i].as_str()) {
            Some(mut sub) => {
                any = true;
                let ghost sub0 = sub@;
                parts.append(&mut sub);
                assert(text::texts(parts@) =~= text::texts(parts0) + text::texts(sub0));
            },
            None => {
                parts.push(text::to_lowercase(words[i].as_str()));
                assert(text::texts(parts@) =~= text::texts(parts0) + seq![
                    text::lowercase(words@[i as int]@),
                ]);
            },
        }
        i = i + 1;
    }
    assert(all.take(all.len() as int) =~= all);
    (any, parts)
}

proof fn lemma_has_camel_word(words: Seq<Seq<char>>)
    requires
        words.len() > 0,
    ensures
        has_camel_word(words) == (has_camel_word(words.drop_last()) || word_parts(
            words.last(),
        ) is Some),
{
    if has_camel_word(words.drop_last()) {
        let i = choose|i: int|
            0 <= i < words.drop_last().len() && word_parts(#[trigger] words.drop_last()[i]) is Some;
        assert(words[i] == words.drop_last()[i]);
    }
    if word_parts(words.last()) is Some {
        assert(words[words.len() - 1] == words.last());
    }
    if has_camel_word(words) {
        let i = choose|i: int| 0 <= i < words.len() && word_parts(#[trigger] words[i]) is Some;
        if i < words.len() - 1 {
            assert(words.drop_last()[i] == words[i]);
        }
    }
}

/// Normalize a person name for searchability, covering all edge cases.
///
/// The basic lower-case form always comes first; no form comes twice.
/// - No spaces: "YangGuoRui" gives "yangguorui" and "yang guo rui".
/// - Partial spaces: "YangGuo Rui" gives, behind its basic form, "yang guo rui" and
///   "yangguorui".
/// - Full spaces: "Yang Guo Rui" gives "yang guo rui", "guorui yang" and
///   "yangguorui".
/// - Single word: "Mia" gives "mia".
/// - Mixed case: "YANG GUORUI" gives "yang guorui", "guorui yang" and "yangguorui".
/// - Diacritics: "José" gives "jose".
pub fn normalize_person_name(name: &str) -> (variants: Vec<String>)
    ensures
        text::texts(variants@) == name_variants(name@),
{
    let lower: String = text::to_lowercase(name);
    let plain: String = text::trim_text(strip_diacritics(lower.as_str()).as_str());
    let mut variants: Vec<String> = Vec::new();
    if plain.as_str().is_empty() {
        assert(text::texts(variants@) =~= Seq::<Seq<char>>::empty());
        return variants;
    }
    variants.push(text::copy_str(plain.as_str()));
    assert(text::texts(variants@) =~= seq![plain@]);
    let words: Vec<String> = text::split_words(plain.as_str());
    let cased: String = text::trim_text(strip_diacritics(name).as_str());
    let cased_words: Vec<String> = text::split_words(cased.as_str());
    let (any, parts): (bool, Vec<String>) = expand_words(&cased_words);
    assert(words@.len() == text::texts(words@).len());
    if any {
        push_camel_forms(&mut variants, &parts);
    } else if words.len() >= 2 {
        push_word_forms(&mut variants, &words);
    }
    variants
}

/// Adding items that are not there keeps what is there in its place.
proof fn lemma_add_all(v: Seq<Seq<char>>, items: Seq<Seq<char>>)
    ensures
        v.len() <= add_all(v, items).len(),
        forall|i: int| 0 <= i < v.len() ==> add_all(v, items)[i] == #[trigger] v[i],
        v.no_duplicates() ==> add_all(v, items).no_duplicates(),
        forall|i: int| 0 <= i < items.len() ==> add_all(v, items).contains(#[trigger] items[i]),
    decreases items.len(),
{
    if items.len() > 0 {
        let rest = items.drop_last();
        lemma_add_all(v, rest);
        lemma_add_new(add_all(v, rest), items.last());
        assert forall|i: int| 0 <= i < items.len() implies add_all(v, items).contains(#[trigger] items[i]) by {
            if i < items.len() - 1 {
                assert(rest[i] == items[i]);
                let mid = add_all(v, rest);
                assert(mid.contains(items[i]));
                let k = choose|k: int| 0 <= k < mid.len() && mid[k] == items[i];
                assert(add_all(v, items)[k] == items[i]);
            }
        }
    }
}

proof fn lemma_add_new(v: Seq<Seq<char>>, s: Seq<char>)
    ensures
        v.len() <= add_new(v, s).len(),
        forall|i: int| 0 <= i < v.len() ==> add_new(v, s)[i] == #[trigger] v[i],
        v.no_duplicates() ==> add_new(v, s).no_duplicates(),
        add_new(v, s).contains(s),
{
    if !v.contains(s) {
        assert(v.push(s)[v.len() as int] == s);
    }
}

/// The variants of a name hold no form twice, and where there are any, the plain
/// lower-case form is the first.
pub proof fn variants_are_distinct(name: Seq<char>)
    ensures
        name_variants(name).no_duplicates(),
        name_variants(name).len() > 0 <==> plain_name(name).len() > 0,
        name_variants(name).len() > 0 ==> name_variants(name)[0] == plain_name(name),
{
    let plain = plain_name(name);
    let cased = text::trim(plain_letters(name));
    if plain.len() > 0 {
        let start = seq![plain];
        assert(start.no_duplicates());
        lemma_add_all(start, camel_forms(expanded(text::words(cased))));
        lemma_add_all(start, word_forms(text::words(plain)));
        assert(add_all(start, camel_forms(expanded(text::words(cased))))[0] == start[0]);
        assert(add_all(start, word_forms(text::words(plain)))[0] == start[0]);
    }
}

// ── What names and file names are found by ──

/// A file name is looked at without its last dot and what follows it; a name without a
/// dot is looked at whole.
pub proof fn extension_is_left_out(s: Seq<char>, extension: Seq<char>)
    ensures
        !extension.contains('.') ==> stem(s.push('.') + extension) == s,
        !s.contains('.') ==> stem(s) == s,
{
    if !extension.contains('.') {
        lemma_stem(s, extension);
    }
    if !s.contains('.') {
        text::last_place_is_the_last(s, '.');
        if text::last_place(s, '.') >= 0 {
            assert(s.contains(s[text::last_place(s, '.')]));
        }
    }
}

/// The words that say nothing of what a file holds.
pub proof fn stopwords_are_a_fixed_list(t: Seq<char>)
    ensures
        is_stopword(t) <==> seq![
            "copy"@,
            "final"@,
            "v1"@,
            "v2"@,
            "v3"@,
            "draft"@,
            "scan"@,
            "scanned"@,
            "ocr"@,
            "new"@,
            "old"@,
            "revised"@,
        ].contains(t),
{
    let all = seq![
        "copy"@,
        "final"@,
        "v1"@,
        "v2"@,
        "v3"@,
        "draft"@,
        "scan"@,
        "scanned"@,
        "ocr"@,
        "new"@,
        "old"@,
        "revised"@,
    ];
    assert(all[0] == "copy"@ && all[1] == "final"@ && all[2] == "v1"@ && all[3] == "v2"@);
    assert(all[4] == "v3"@ && all[5] == "draft"@ && all[6] == "scan"@ && all[7] == "scanned"@);
    assert(all[8] == "ocr"@ && all[9] == "new"@ && all[10] == "old"@ && all[11] == "revised"@);
    assert(all.len() == 12);
}

/// A text is a number where it is made of digits, with or without a plus sign before
/// them, and fits in 64 bits.
pub proof fn numbers_are_made_of_digits(s: Seq<char>)
    ensures
        s.len() > 0 && s[0] != '+' ==> (is_number(s) <==> (forall|i: int|
            0 <= i < s.len() ==> '0' <= #[trigger] s[i] <= '9') && digits_value(s) <= u64::MAX),
        s.len() > 0 && s[0] == '+' ==> (is_number(s) <==> s.len() > 1 && (forall|i: int|
            0 <= i < s.skip(1).len() ==> '0' <= #[trigger] s.skip(1)[i] <= '9') && digits_value(
            s.skip(1),
        ) <= u64::MAX),
        s.len() == 0 ==> !is_number(s),
        digits_value(Seq::empty()) == 0,
        s.len() > 0 && '0' <= s.last() <= '9' ==> digits_value(s) == 10 * digits_value(s.drop_last())
            + (s.last() as int - 48),
{
}

/// The tokens of a file name are the parts of its stem between separators, in order and
/// in lower case, but for empty parts, stopwords and numbers.
pub proof fn tokens_are_the_parts_of_a_file_name(filename: Seq<char>, pieces: Seq<Seq<char>>, t:
    Seq<char>, i: int)
    ensures
        ({
            let parts = text::split(stem(filename), Separator::NamePart);
            let part = text::lowercase(parts[i]);
            let tokens = filename_tokens(filename);
            &&& 0 <= i < parts.len() && part.len() > 0 && !is_stopword(part) && !is_number(part)
                ==> tokens.contains(part)
            &&& tokens.len() <= parts.len()
            &&& tokens.contains(t) ==> t.len() > 0 && !is_stopword(t) && !is_number(t) && exists|
                k: int,
            |
                0 <= k < parts.len() && t == text::lowercase(#[trigger] parts[k])
        }),
        tokens_among(Seq::empty()) == Seq::<Seq<char>>::empty(),
        t.len() > 0 && !is_stopword(t) && !is_number(t) ==> tokens_among(pieces.push(t))
            == tokens_among(pieces).push(t),
        t.len() == 0 || is_stopword(t) || is_number(t) ==> tokens_among(pieces.push(t))
            == tokens_among(pieces),
        filename_tokens(filename) == tokens_among(
            text::split(stem(filename), Separator::NamePart).map_values(
                |s: Seq<char>| text::lowercase(s),
            ),
        ),
{
    let parts = text::split(stem(filename), Separator::NamePart);
    let low = lowercased(parts);
    let p = |t: Seq<char>| is_token(t);
    let tokens = filename_tokens(filename);
    low.lemma_filter_len(p);
    if 0 <= i < parts.len() && is_token(text::lowercase(parts[i])) {
        assert(low[i] == text::lowercase(parts[i]));
        low.lemma_filter_contains(p, i);
    }
    if tokens.contains(t) {
        low.lemma_filter_contains_rev(p, t);
        let k = choose|k: int| 0 <= k < low.len() && low[k] == t;
        assert(t == text::lowercase(parts[k]));
        let n = choose|n: int| 0 <= n < tokens.len() && tokens[n] == t;
        low.lemma_filter_pred(p, n);
    }
    reveal(Seq::filter);
    assert(pieces.push(t).drop_last() =~= pieces);
    assert(tokens_among(Seq::empty()) =~= Seq::<Seq<char>>::empty());
}

/// Letters lose their diacritics: those of the Latin-1 Supplement and of Latin Extended-A
/// give the letter under them, and no ASCII character changes.
pub proof fn letters_lose_their_diacritics(c: char)
    ensures
        ({
            let n = c as int;
            let b = base_letter(c);
            &&& n < 192 ==> b == c
            &&& 192 <= n <= 197 ==> b == 'A'
            &&& n == 199 ==> b == 'C'
            &&& 200 <= n <= 203 ==> b == 'E'
            &&& 204 <= n <= 207 ==> b == 'I'
            &&& n == 209 ==> b == 'N'
            &&& 210 <= n <= 214 ==> b == 'O'
            &&& 217 <= n <= 220 ==> b == 'U'
            &&& n == 221 ==> b == 'Y'
            &&& 224 <= n <= 229 ==> b == 'a'
            &&& n == 231 ==> b == 'c'
            &&& 232 <= n <= 235 ==> b == 'e'
            &&& 236 <= n <= 239 ==> b == 'i'
            &&& n == 241 ==> b == 'n'
            &&& 242 <= n <= 246 ==> b == 'o'
            &&& 249 <= n <= 252 ==> b == 'u'
            &&& n == 253 || n == 255 ==> b == 'y'
            &&& n == 198 || n == 208 || n == 215 || n == 216 || n == 222 || n == 223 ==> b == c
            &&& n == 230 || n == 240 || n == 247 || n == 248 || n == 254 ==> b == c
            &&& 256 <= n <= 261 ==> b == (if n % 2 == 0 { 'A' } else { 'a' })
            &&& 262 <= n <= 269 ==> b == (if n % 2 == 0 { 'C' } else { 'c' })
            &&& 270 <= n <= 273 ==> b == (if n % 2 == 0 { 'D' } else { 'd' })
            &&& 274 <= n <= 283 ==> b == (if n % 2 == 0 { 'E' } else { 'e' })
            &&& 284 <= n <= 291 ==> b == (if n % 2 == 0 { 'G' } else { 'g' })
            &&& 292 <= n <= 295 ==> b == (if n % 2 == 0 { 'H' } else { 'h' })
            &&& 296 <= n <= 305 ==> b == (if n % 2 == 0 { 'I' } else { 'i' })
            &&& 308 <= n <= 309 ==> b == (if n % 2 == 0 { 'J' } else { 'j' })
            &&& 310 <= n <= 311 ==> b == (if n % 2 == 0 { 'K' } else { 'k' })
            &&& 313 <= n <= 322 ==> b == (if n % 2 == 1 { 'L' } else { 'l' })
            &&& 323 <= n <= 328 ==> b == (if n % 2 == 1 { 'N' } else { 'n' })
            &&& 332 <= n <= 337 ==> b == (if n % 2 == 0 { 'O' } else { 'o' })
            &&& 340 <= n <= 345 ==> b == (if n % 2 == 0 { 'R' } else { 'r' })
            &&& 346 <= n <= 353 ==> b == (if n % 2 == 0 { 'S' } else { 's' })
            &&& 354 <= n <= 359 ==> b == (if n % 2 == 0 { 'T' } else { 't' })
            &&& 360 <= n <= 371 ==> b == (if n % 2 == 0 { 'U' } else { 'u' })
            &&& 372 <= n <= 373 ==> b == (if n % 2 == 0 { 'W' } else { 'w' })
            &&& 374 <= n <= 376 ==> b == (if n % 2 == 0 { 'Y' } else { 'y' })
            &&& 377 <= n <= 382 ==> b == (if n % 2 == 1 { 'Z' } else { 'z' })
            &&& n > 382 ==> b == c
        }),
        768 <= c as int <= 879 ==> combining_mark(c),
        (c as int) < 768 ==> !combining_mark(c),
{
}

/// A text is made plain one character after another: a combining mark is left out, and
/// any other character is its letter without a diacritic.
pub proof fn marks_are_left_out(s: Seq<char>, c: char)
    ensures
        plain_letters(Seq::empty()) == Seq::<char>::empty(),
        combining_mark(c) ==> plain_letters(s.push(c)) == plain_letters(s),
        !combining_mark(c) ==> plain_letters(s.push(c)) == plain_letters(s).push(base_letter(c)),
{
    reveal(Seq::filter);
    let p = |c: char| !combining_mark(c);
    assert(s.push(c).drop_last() =~= s);
    assert(Seq::<char>::empty().filter(p) =~= Seq::empty());
    assert(plain_letters(Seq::empty()) =~= Seq::<char>::empty());
    if combining_mark(c) {
        assert(s.push(c).filter(p) =~= s.filter(p));
    } else {
        assert(s.push(c).filter(p) =~= s.filter(p).push(c));
        assert(plain_letters(s.push(c)) =~= plain_letters(s).push(base_letter(c)));
    }
}

/// A name is cut before every upper-case letter that does not begin a piece, and at white
/// space; it is in camel case where it has an upper-case letter and at least two pieces,
/// and its words are the pieces in lower case.
pub proof fn names_are_cut_before_capitals(s: Seq<char>, c: char)
    ensures
        camel_pieces(Seq::empty()) == seq![Seq::<char>::empty()],
        text::is_whitespace(c) ==> camel_pieces(s.push(c)) == camel_pieces(s).push(Seq::empty()),
        !text::is_whitespace(c) && text::is_uppercase(c) && camel_pieces(s).last().len() > 0
            ==> camel_pieces(s.push(c)) == camel_pieces(s).push(seq![c]),
        !text::is_whitespace(c) && !(text::is_uppercase(c) && camel_pieces(s).last().len() > 0)
            ==> camel_pieces(s.push(c)) == camel_pieces(s).drop_last().push(
            camel_pieces(s).last().push(c),
        ),
        ({
            let parts = camel_pieces(s).filter(|p: Seq<char>| p.len() > 0);
            &&& camel_words(s) is Some <==> parts.len() >= 2 && exists|i: int|
                0 <= i < s.len() && text::is_uppercase(#[trigger] s[i])
            &&& camel_words(s) is Some ==> camel_words(s)->0.len() == parts.len()
            &&& camel_words(s) is Some ==> forall|i: int|
                0 <= i < parts.len() ==> #[trigger] camel_words(s)->0[i] == text::lowercase(
                    parts[i],
                )
        }),
        'A' <= c <= 'Z' ==> text::is_uppercase(c),
        'a' <= c <= 'z' ==> !text::is_uppercase(c),
{
    assert(s.push(c).drop_last() =~= s);
}

/// What is among the items that were added.
proof fn lemma_added_from(v: Seq<Seq<char>>, items: Seq<Seq<char>>, x: Seq<char>)
    ensures
        add_all(v, items).contains(x) <==> v.contains(x) || items.contains(x),
    decreases items.len(),
{
    if items.len() == 0 {
        assert(!items.contains(x));
    } else {
        let rest = items.drop_last();
        lemma_added_from(v, rest, x);
        let before = add_all(v, rest);
        let after = add_new(before, items.last());
        if after.contains(x) && !before.contains(x) {
            assert(after == before.push(items.last()));
            let k = choose|k: int| 0 <= k < after.len() && after[k] == x;
            if k < before.len() {
                assert(before[k] == x);
            }
            assert(items[items.len() - 1] == x);
        }
        if before.contains(x) {
            let k = choose|k: int| 0 <= k < before.len() && before[k] == x;
            assert(after[k] == x);
        }
        if items.contains(x) {
            let k = choose|k: int| 0 <= k < items.len() && items[k] == x;
            if k < rest.len() {
                assert(rest[k] == x);
            } else {
                lemma_add_new(before, items.last());
            }
        }
        if rest.contains(x) {
            let k = choose|k: int| 0 <= k < rest.len() && rest[k] == x;
            assert(items[k] == x);
        }
    }
}

/// The forms under which a person is found. The first is the name in lower case, without
/// diacritics and without white space at its ends. A name of several words is found in
/// their order, with the given names as one before the family name, and written as one;
/// a name in camel case by its parts, and by them written as one. There are no others.
pub proof fn persons_are_found_by_each_form(name: Seq<char>, form: Seq<char>)
    ensures
        ({
            let plain = text::trim(plain_letters(text::lowercase(name)));
            let words = text::words(plain);
            let cased = text::words(text::trim(plain_letters(name)));
            let forms = name_variants(name);
            let parts = expanded(cased);
            &&& plain.len() == 0 <==> forms.len() == 0
            &&& plain.len() > 0 ==> forms[0] == plain
            &&& forms.no_duplicates()
            &&& plain.len() > 0 && !has_camel_word(cased) && words.len() < 2 ==> forms.len() == 1
            &&& plain.len() > 0 && !has_camel_word(cased) && words.len() >= 2 ==> (forms.contains(
                form,
            ) <==> form == plain || form == text::join(words, " "@) || form == text::join(
                words.skip(1),
                ""@,
            ) + " "@ + words[0] || form == text::join(words, ""@))
            &&& plain.len() > 0 && has_camel_word(cased) ==> (forms.contains(form) <==> form
                == plain || form == text::join(parts, " "@) || form == text::join(parts, ""@))
        }),
{
    let plain = plain_name(name);
    let words = text::words(plain);
    let cased = text::words(text::trim(plain_letters(name)));
    variants_are_distinct(name);
    let start = seq![plain];
    assert(start.contains(form) <==> form == plain) by {
        assert(start[0] == plain);
    }
    if has_camel_word(cased) {
        let items = camel_forms(expanded(cased));
        lemma_added_from(start, items, form);
        assert(items[0] == text::join(expanded(cased), " "@));
        assert(items[1] == text::join(expanded(cased), ""@));
    } else if words.len() >= 2 {
        let items = word_forms(words);
        lemma_added_from(start, items, form);
        assert(items[0] == text::join(words, " "@));
        assert(items[1] == text::join(words.skip(1), ""@) + " "@ + words[0]);
        assert(items[2] == text::join(words, ""@));
    }
}

/// The words of a name one after another: one that is in camel case, and not written in
/// capitals, gives its parts, and any other itself in lower case.
pub proof fn words_of_a_name_give_their_parts(words: Seq<Seq<char>>, word: Seq<char>)
    ensures
        expanded(Seq::empty()) == Seq::<Seq<char>>::empty(),
        camel_words(word) is Some && !in_capitals(word) ==> expanded(words.push(word)) == expanded(
            words,
        ) + camel_words(word)->0 && has_camel_word(words.push(word)),
        camel_words(word) is None || in_capitals(word) ==> expanded(words.push(word)) == expanded(
            words,
        ).push(text::lowercase(word)) && has_camel_word(words.push(word)) == has_camel_word(words),
        in_capitals(word) <==> forall|i: int|
            0 <= i < word.len() ==> text::is_uppercase(#[trigger] word[i]) || ('\u{80}' > word[i]
                && !('a' <= word[i] <= 'z') && !('A' <= word[i] <= 'Z')),
        !has_camel_word(Seq::empty()),
{
    assert(words.push(word).drop_last() =~= words);
    assert(words.push(word).last() == word);
    lemma_has_camel_word(words.push(word));
    let one = seq![text::lowercase(word)];
    assert(expanded(words) + one =~= expanded(words).push(text::lowercase(word)));
}

/// Adding items keeps what is there in its place and adds each item that is not there,
/// so that none comes twice where none did.
pub proof fn added_items_are_there(v: Seq<Seq<char>>, items: Seq<Seq<char>>, x: Seq<char>)
    ensures
        add_all(v, items).contains(x) <==> v.contains(x) || items.contains(x),
        v.no_duplicates() ==> add_all(v, items).no_duplicates(),
        v.len() <= add_all(v, items).len() <= v.len() + items.len(),
        forall|i: int| 0 <= i < v.len() ==> add_all(v, items)[i] == #[trigger] v[i],
    decreases items.len(),
{
    lemma_added_from(v, items, x);
    lemma_add_all(v, items);
    if items.len() > 0 {
        added_items_are_there(v, items.drop_last(), x);
    }
}

/// The forms of a name stand in a fixed order: first the plain name, then its words in
/// order, the given names before the family name and all as one, or its parts in order
/// and all as one; a form that is there already is not added.
pub proof fn forms_stand_in_order(name: Seq<char>, v: Seq<Seq<char>>, items: Seq<Seq<char>>, x: Seq<
    char,
>)
    ensures
        ({
            let plain = text::trim(plain_letters(text::lowercase(name)));
            let words = text::words(plain);
            let cased = text::words(text::trim(plain_letters(name)));
            let parts = expanded(cased);
            &&& plain.len() > 0 && has_camel_word(cased) ==> name_variants(name) == add_all(
                seq![plain],
                seq![text::join(parts, " "@), text::join(parts, ""@)],
            )
            &&& plain.len() > 0 && !has_camel_word(cased) && words.len() >= 2 ==> name_variants(
                name,
            ) == add_all(
                seq![plain],
                seq![
                    text::join(words, " "@),
                    text::join(words.skip(1), ""@) + " "@ + words[0],
                    text::join(words, ""@),
                ],
            )
        }),
        add_all(v, Seq::empty()) == v,
        add_all(v, items).contains(x) ==> add_all(v, items.push(x)) == add_all(v, items),
        !add_all(v, items).contains(x) ==> add_all(v, items.push(x)) == add_all(v, items).push(x),
{
    assert(items.push(x).drop_last() =~= items);
}

/// The marks that are left out of a name: the combining marks of these blocks.
pub proof fn combining_marks_are_a_fixed_set(c: char)
    ensures
        combining_mark(c) <==> {
            let n = c as int;
            ||| 0x300 <= n <= 0x36F
            ||| 0x483 <= n <= 0x489
            ||| 0x591 <= n <= 0x5C7
            ||| 0x610 <= n <= 0x65F
            ||| n == 0x670
            ||| 0x6D6 <= n <= 0x6ED
            ||| n == 0x711
            ||| 0x730 <= n <= 0x74A
            ||| 0x7A6 <= n <= 0x7B0
            ||| 0x900 <= n <= 0x902
            ||| 0x93A <= n <= 0x94D
            ||| 0x951 <= n <= 0x957
            ||| 0x962 <= n <= 0x963
            ||| 0x981 <= n <= 0x9CD
            ||| 0x9E2 <= n <= 0x9E3
            ||| 0xA01 <= n <= 0xA4D
            ||| 0xA70 <= n <= 0xA71
            ||| 0xA81 <= n <= 0xACD
            ||| 0xB3E <= n <= 0xB3F
            ||| 0xE31 <= n <= 0xE3A
            ||| 0xE47 <= n <= 0xE4E
            ||| 0xEB1 <= n <= 0xEBC
            ||| 0xEC8 <= n <= 0xECD
            ||| 0xF18 <= n <= 0xFBC
            ||| n == 0xFC6
            ||| 0x1DC0 <= n <= 0x1DFF
            ||| 0x20D0 <= n <= 0x20FF
            ||| 0xFE00 <= n <= 0xFE0F
            ||| 0xFE20 <= n <= 0xFE2F
        },
{
}

} // verus!
