//! Character sequences: the string operations that the rest of the library is
//! written with, each with a model on `Seq<char>`.

use vstd::prelude::*;

verus! {

// ── Models ──

/// The characters with the Unicode `White_Space` property.
pub open spec fn is_whitespace(c: char) -> bool {
    ||| '\u{9}' <= c <= '\u{d}'
    ||| c == ' '
    ||| c == '\u{85}'
    ||| c == '\u{a0}'
    ||| c == '\u{1680}'
    ||| '\u{2000}' <= c <= '\u{200a}'
    ||| c == '\u{2028}'
    ||| c == '\u{2029}'
    ||| c == '\u{202f}'
    ||| c == '\u{205f}'
    ||| c == '\u{3000}'
}

/// The lower-case form of an ASCII letter; any other character is unchanged.
pub open spec fn ascii_lower(c: char) -> char {
    if 'A' <= c <= 'Z' {
        ((c as u32) + 32) as char
    } else {
        c
    }
}

/// Every character lower-cased as ASCII.
pub open spec fn ascii_lowercase(s: Seq<char>) -> Seq<char> {
    s.map_values(|c: char| ascii_lower(c))
}

/// The upper-case form of an ASCII letter; any other character is unchanged.
pub open spec fn ascii_upper(c: char) -> char {
    if 'a' <= c <= 'z' {
        ((c as u32) - 32) as char
    } else {
        c
    }
}

/// Every character upper-cased as ASCII.
pub open spec fn ascii_uppercase(s: Seq<char>) -> Seq<char> {
    s.map_values(|c: char| ascii_upper(c))
}

/// Every character is ASCII.
pub open spec fn all_ascii(s: Seq<char>) -> bool {
    forall|i: int| 0 <= i < s.len() ==> (#[trigger] s[i]) < '\u{80}'
}

/// What `str::to_lowercase` makes of a text that is not all ASCII.
pub uninterp spec fn unicode_lowercase(s: Seq<char>) -> Seq<char>;

/// Whether `char::is_uppercase` holds of a character beyond ASCII.
pub uninterp spec fn unicode_uppercase(c: char) -> bool;

/// A text lower-cased.
pub open spec fn lowercase(s: Seq<char>) -> Seq<char> {
    if all_ascii(s) {
        ascii_lowercase(s)
    } else {
        unicode_lowercase(s)
    }
}

/// A character is an upper-case letter.
pub open spec fn is_uppercase(c: char) -> bool {
    if '\u{80}' > c {
        'A' <= c <= 'Z'
    } else {
        unicode_uppercase(c)
    }
}

/// The texts of a sequence of strings.
pub open spec fn texts(v: Seq<String>) -> Seq<Seq<char>> {
    v.map_values(|s: String| s@)
}

/// What parts a text into pieces.
#[derive(Clone, Copy, Debug, PartialEq, Eq, Structural)]
pub enum Separator {
    /// White space, which parts words.
    WhiteSpace,
    /// White space, `-`, `_` and `.`, which part the tokens of a file name.
    NamePart,
}

/// Whether `c` parts pieces.
pub open spec fn separates(sep: Separator, c: char) -> bool {
    match sep {
        Separator::WhiteSpace => is_whitespace(c),
        Separator::NamePart => c == '-' || c == '_' || c == '.' || is_whitespace(c),
    }
}

/// The pieces of `s` between separators: a separator opens a new piece, any
/// other character extends the piece that is open.
pub open spec fn split(s: Seq<char>, sep: Separator) -> Seq<Seq<char>>
    decreases s.len(),
{
    if s.len() == 0 {
        seq![Seq::<char>::empty()]
    } else {
        let before = split(s.drop_last(), sep);
        if separates(sep, s.last()) {
            before.push(Seq::<char>::empty())
        } else {
            before.drop_last().push(before.last().push(s.last()))
        }
    }
}

/// The pieces that hold at least one character.
pub open spec fn non_empty(pieces: Seq<Seq<char>>) -> Seq<Seq<char>> {
    pieces.filter(|p: Seq<char>| p.len() > 0)
}

/// The words of `s`: its longest runs without white space.
pub open spec fn words(s: Seq<char>) -> Seq<Seq<char>> {
    non_empty(split(s, Separator::WhiteSpace))
}

/// `s` without its leading white space.
pub open spec fn trim_start(s: Seq<char>) -> Seq<char>
    decreases s.len(),
{
    if s.len() > 0 && is_whitespace(s[0]) {
        trim_start(s.skip(1))
    } else {
        s
    }
}

/// `s` without its trailing white space.
pub open spec fn trim_end(s: Seq<char>) -> Seq<char>
    decreases s.len(),
{
    if s.len() > 0 && is_whitespace(s.last()) {
        trim_end(s.drop_last())
    } else {
        s
    }
}

/// `s` without white space at either end.
pub open spec fn trim(s: Seq<char>) -> Seq<char> {
    trim_end(trim_start(s))
}

/// The pieces one after another, with `sep` between each two.
pub open spec fn join(pieces: Seq<Seq<char>>, sep: Seq<char>) -> Seq<char>
    decreases pieces.len(),
{
    if pieces.len() == 0 {
        Seq::empty()
    } else if pieces.len() == 1 {
        pieces[0]
    } else {
        join(pieces.drop_last(), sep) + sep + pieces.last()
    }
}

/// `a` comes before `b` in the order of code points, a prefix before what it
/// is a prefix of.
pub open spec fn text_less(a: Seq<char>, b: Seq<char>) -> bool
    decreases a.len(),
{
    if b.len() == 0 {
        false
    } else if a.len() == 0 {
        true
    } else if a[0] != b[0] {
        a[0] < b[0]
    } else {
        text_less(a.skip(1), b.skip(1))
    }
}

/// `s` begins with `prefix`.
pub open spec fn starts_with(s: Seq<char>, prefix: Seq<char>) -> bool {
    prefix.len() <= s.len() && s.take(prefix.len() as int) == prefix
}

/// `s` ends with `suffix`.
pub open spec fn ends_with(s: Seq<char>, suffix: Seq<char>) -> bool {
    suffix.len() <= s.len() && s.skip(s.len() - suffix.len()) == suffix
}

/// `s` with each place where `from` stands, looked for from the left, replaced
/// by `to`.
pub open spec fn replace_all(s: Seq<char>, from: Seq<char>, to: Seq<char>) -> Seq<char>
    decreases s.len(),
{
    if from.len() == 0 || s.len() < from.len() {
        s
    } else if starts_with(s, from) {
        to + replace_all(s.skip(from.len() as int), from, to)
    } else {
        seq![s[0]] + replace_all(s.skip(1), from, to)
    }
}

/// Where `c` stands last in `s`; -1 where it does not.
pub open spec fn last_place(s: Seq<char>, c: char) -> int
    decreases s.len(),
{
    if s.len() == 0 {
        -1
    } else if s.last() == c {
        s.len() - 1
    } else {
        last_place(s.drop_last(), c)
    }
}

// ── Calls into std ──

/// `String::push` appends one character.
pub assume_specification[ String::push ](s: &mut String, c: char)
    ensures
        final(s)@ == old(s)@.push(c),
;

/// `str::to_lowercase`. Of a text that is all ASCII the result is the text with `A`
/// to `Z` replaced by `a` to `z`; of any other it is named by `unicode_lowercase`.
#[verifier::external_body]
pub(crate) fn to_lowercase(s: &str) -> (r: String)
    ensures
        r@ == (if all_ascii(s@) {
            ascii_lowercase(s@)
        } else {
            unicode_lowercase(s@)
        }),
{
    s.to_lowercase()
}

/// `char::is_uppercase`. Of an ASCII character the result is whether it is one of `A`
/// to `Z`; of any other it is named by `unicode_uppercase`.
#[verifier::external_body]
pub(crate) fn char_is_uppercase(c: char) -> (r: bool)
    ensures
        r == (if '\u{80}' > c {
            'A' <= c <= 'Z'
        } else {
            unicode_uppercase(c)
        }),
{
    c.is_uppercase()
}

// ── Functions ──

/// Whether `c` is white space.
pub fn char_is_whitespace(c: char) -> (r: bool)
    ensures
        r == is_whitespace(c),
{
    ('\u{9}' <= c && c <= '\u{d}') || c == ' ' || c == '\u{85}' || c == '\u{a0}' || c == '\u{1680}'
        || ('\u{2000}' <= c && c <= '\u{200a}') || c == '\u{2028}' || c == '\u{2029}'
        || c == '\u{202f}' || c == '\u{205f}' || c == '\u{3000}'
}

/// The characters of a text.
pub fn chars_of(s: &str) -> (v: Vec<char>)
    ensures
        v@ == s@,
{
    let mut v: Vec<char> = Vec::new();
    for c in it: s.chars()
        invariant
            v@ == it.seq().take(it.index() as int),
            it.seq() == s@,
    {
        proof {
            assert(it.seq().take(it.index() as int + 1) =~= it.seq().take(it.index() as int).push(c));
        }
        v.push(c);
    }
    assert(s@.take(s@.len() as int) =~= s@);
    v
}

/// The text of `chars[from..to]`.
pub fn string_of(chars: &Vec<char>, from: usize, to: usize) -> (r: String)
    requires
        from <= to <= chars@.len(),
    ensures
        r@ == chars@.subrange(from as int, to as int),
{
    let mut r: String = String::new();
    let mut i: usize = from;
    while i < to
        invariant
            from <= i <= to <= chars@.len(),
            r@ == chars@.subrange(from as int, i as int),
        decreases to - i,
    {
        r.push(chars[i]);
        proof {
            assert(chars@.subrange(from as int, i + 1) =~= chars@.subrange(from as int, i as int).push(chars@[i as int]));
        }
        i = i + 1;
    }
    r
}

/// One text after another.
pub fn concat(a: &str, b: &str) -> (r: String)
    ensures
        r@ == a@ + b@,
{
    let mut r: String = copy_str(a);
    r.append(b);
    r
}

/// Where `c` stands last among some characters.
pub fn find_last(chars: &Vec<char>, c: char) -> (r: Option<usize>)
    ensures
        match r {
            Some(i) => i < chars@.len() && i == last_place(chars@, c) && chars@[i as int] == c,
            None => last_place(chars@, c) == -1,
        },
{
    let mut i: usize = chars.len();
    assert(chars@.take(i as int) =~= chars@);
    while i > 0
        invariant
            i <= chars@.len(),
            last_place(chars@.take(i as int), c) == last_place(chars@, c),
        decreases i,
    {
        assert(chars@.take(i as int).last() == chars@[i - 1]);
        if chars[i - 1] == c {
            return Some(i - 1);
        }
        assert(chars@.take(i as int).drop_last() =~= chars@.take(i - 1));
        i = i - 1;
    }
    None
}

/// A copy of a list of strings.
pub fn clone_strings(v: &Vec<String>) -> (r: Vec<String>)
    ensures
        texts(r@) == texts(v@),
{
    let mut r: Vec<String> = Vec::new();
    let mut i: usize = 0;
    while i < v.len()
        invariant
            i <= v@.len(),
            r@.len() == i,
            forall|k: int| 0 <= k < i ==> (#[trigger] r@[k])@ == v@[k]@,
        decreases v@.len() - i,
    {
        r.push(v[i].clone());
        i = i + 1;
    }
    assert(texts(r@) =~= texts(v@));
    r
}

/// A copy of a text.
pub fn copy_str(s: &str) -> (r: String)
    ensures
        r@ == s@,
{
    s.to_owned()
}

/// Two texts with the same first character are the same where the rest is.
proof fn lemma_same_first(s: Seq<char>, t: Seq<char>)
    requires
        s.len() > 0,
        t.len() > 0,
        s[0] == t[0],
    ensures
        (s == t) == (s.drop_first() == t.drop_first()),
{
    assert(s =~= seq![s[0]] + s.drop_first());
    assert(t =~= seq![t[0]] + t.drop_first());
}

/// Whether two texts are the same.
pub fn same_text(a: &str, b: &str) -> (r: bool)
    ensures
        r == (a@ == b@),
{
    let mut x: std::str::Chars<'_> = a.chars();
    let mut y: std::str::Chars<'_> = b.chars();
    loop
        invariant
            (vstd::std_specs::iter::IteratorSpec::remaining(&x)
                == vstd::std_specs::iter::IteratorSpec::remaining(&y)) == (a@ == b@),
            vstd::std_specs::iter::IteratorSpec::decrease(&x) is Some,
        decreases vstd::std_specs::iter::IteratorSpec::decrease(&x)->0,
    {
        let ghost s = vstd::std_specs::iter::IteratorSpec::remaining(&x);
        let ghost t = vstd::std_specs::iter::IteratorSpec::remaining(&y);
        match (x.next(), y.next()) {
            (None, None) => {
                assert(s =~= t);
                return true;
            },
            (Some(c), Some(d)) => {
                if c != d {
                    return false;
                }
                proof {
                    lemma_same_first(s, t);
                }
            },
            _ => {
                return false;
            },
        }
    }
}

/// Whether one of the strings is `s`.
pub fn contains_text(v: &[String], s: &str) -> (r: bool)
    ensures
        r == texts(v@).contains(s@),
{
    let mut i: usize = 0;
    while i < v.len()
        invariant
            i <= v@.len(),
            forall|k: int| 0 <= k < i ==> (#[trigger] v@[k])@ != s@,
        decreases v@.len() - i,
    {
        if same_text(v[i].as_str(), s) {
            assert(texts(v@)[i as int] == s@);
            return true;
        }
        i = i + 1;
    }
    proof {
        assert forall|k: int| 0 <= k < texts(v@).len() implies texts(v@)[k] != s@ by {
            assert(v@[k]@ != s@);
        }
    }
    false
}

/// Whether `c` parts pieces.
pub fn char_separates(sep: Separator, c: char) -> (r: bool)
    ensures
        r == separates(sep, c),
{
    match sep {
        Separator::WhiteSpace => char_is_whitespace(c),
        Separator::NamePart => c == '-' || c == '_' || c == '.' || char_is_whitespace(c),
    }
}

/// The pieces of a text between separators.
pub fn split_text(s: &str, sep: Separator) -> (r: Vec<String>)
    ensures
        texts(r@) == split(s@, sep),
{
    let chars: Vec<char> = chars_of(s);
    let mut done: Vec<String> = Vec::new();
    let mut open: String = String::new();
    let mut i: usize = 0;
    assert(chars@.take(0) =~= Seq::<char>::empty());
    assert(texts(done@).push(open@) =~= seq![Seq::<char>::empty()]);
    while i < chars.len()
        invariant
            i <= chars@.len(),
            chars@ == s@,
            texts(done@).push(open@) == split(chars@.take(i as int), sep),
        decreases chars@.len() - i,
    {
        let c: char = chars[i];
        let ghost before = texts(done@).push(open@);
        proof {
            assert(chars@.take(i + 1).drop_last() =~= chars@.take(i as int));
            assert(before.drop_last() =~= texts(done@));
        }
        if char_separates(sep, c) {
            let ghost done0 = done@;
            let mut piece: String = String::new();
            std::mem::swap(&mut piece, &mut open);
            done.push(piece);
            proof {
                assert(texts(done@) =~= texts(done0).push(piece@));
                assert(texts(done@).push(open@) =~= before.push(Seq::<char>::empty()));
            }
        } else {
            open.push(c);
            assert(texts(done@).push(open@) =~= before.drop_last().push(before.last().push(c)));
        }
        i = i + 1;
    }
    let ghost done0 = done@;
    done.push(open);
    proof {
        assert(chars@.take(chars@.len() as int) =~= s@);
        assert(texts(done@) =~= texts(done0).push(open@));
    }
    done
}

/// The strings that hold at least one character.
pub fn keep_non_empty(pieces: Vec<String>) -> (r: Vec<String>)
    ensures
        texts(r@) == non_empty(texts(pieces@)),
{
    let mut r: Vec<String> = Vec::new();
    let mut i: usize = 0;
    proof {
        reveal(Seq::filter);
        assert(texts(pieces@).take(0) =~= Seq::<Seq<char>>::empty());
        assert(texts(r@) =~= non_empty(texts(pieces@).take(0)));
    }
    while i < pieces.len()
        invariant
            i <= pieces@.len(),
            texts(r@) == non_empty(texts(pieces@).take(i as int)),
        decreases pieces@.len() - i,
    {
        let ghost r0 = r@;
        proof {
            reveal(Seq::filter);
            assert(texts(pieces@).take(i + 1).drop_last() =~= texts(pieces@).take(i as int));
            assert(texts(pieces@).take(i + 1).last() == pieces@[i as int]@);
        }
        if !pieces[i].as_str().is_empty() {
            let piece: String = pieces[i].clone();
            r.push(piece);
            assert(texts(r@) =~= texts(r0).push(pieces@[i as int]@));
        }
        i = i + 1;
    }
    assert(texts(pieces@).take(pieces@.len() as int) =~= texts(pieces@));
    r
}

/// The words of a text.
pub fn split_words(s: &str) -> (r: Vec<String>)
    ensures
        texts(r@) == words(s@),
{
    keep_non_empty(split_text(s, Separator::WhiteSpace))
}

/// A text without white space at either end.
pub fn trim_text(s: &str) -> (r: String)
    ensures
        r@ == trim(s@),
{
    let chars: Vec<char> = chars_of(s);
    let mut from: usize = 0;
    assert(chars@.skip(0) =~= s@);
    while from < chars.len() && char_is_whitespace(chars[from])
        invariant
            from <= chars@.len(),
            trim_start(chars@.skip(from as int)) == trim_start(s@),
        decreases chars@.len() - from,
    {
        assert(chars@.skip(from as int).skip(1) =~= chars@.skip(from + 1));
        from = from + 1;
    }
    let mut to: usize = chars.len();
    proof {
        assert(trim_start(s@) == chars@.skip(from as int));
        assert(chars@.skip(from as int) =~= chars@.subrange(from as int, to as int));
    }
    while from < to && char_is_whitespace(chars[to - 1])
        invariant
            from <= to <= chars@.len(),
            trim_end(chars@.subrange(from as int, to as int)) == trim(s@),
        decreases to - from,
    {
        assert(chars@.subrange(from as int, to as int).drop_last() =~= chars@.subrange(from as int, to - 1));
        to = to - 1;
    }
    string_of(&chars, from, to)
}

/// The strings one after another, with `sep` between each two.
pub fn join_texts(pieces: &Vec<String>, sep: &str) -> (r: String)
    ensures
        r@ == join(texts(pieces@), sep@),
{
    let mut r: String = String::new();
    let mut i: usize = 0;
    while i < pieces.len()
        invariant
            i <= pieces@.len(),
            r@ == join(texts(pieces@).take(i as int), sep@),
        decreases pieces@.len() - i,
    {
        proof {
            let upto = texts(pieces@).take(i + 1);
            assert(upto.drop_last() =~= texts(pieces@).take(i as int));
            assert(upto.last() == pieces@[i as int]@);
        }
        if i > 0 {
            r.append(sep);
            r.append(pieces[i].as_str());
        } else {
            r.append(pieces[i].as_str());
            assert(r@ =~= pieces@[0]@);
        }
        i = i + 1;
    }
    assert(texts(pieces@).take(pieces@.len() as int) =~= texts(pieces@));
    r
}

/// Whether the first text comes before the second in code point order.
pub fn less_text(a: &str, b: &str) -> (r: bool)
    ensures
        r == text_less(a@, b@),
{
    let mut x: std::str::Chars<'_> = a.chars();
    let mut y: std::str::Chars<'_> = b.chars();
    loop
        invariant
            text_less(
                vstd::std_specs::iter::IteratorSpec::remaining(&x),
                vstd::std_specs::iter::IteratorSpec::remaining(&y),
            ) == text_less(a@, b@),
            vstd::std_specs::iter::IteratorSpec::decrease(&x) is Some,
        decreases vstd::std_specs::iter::IteratorSpec::decrease(&x)->0,
    {
        match (x.next(), y.next()) {
            (_, None) => {
                return false;
            },
            (None, Some(_)) => {
                return true;
            },
            (Some(c), Some(d)) => {
                if c != d {
                    return c < d;
                }
            },
        }
    }
}

/// No text comes before itself, of two different texts one comes before the
/// other and not the other way round, and the order is transitive.
pub proof fn text_order_is_total(a: Seq<char>, b: Seq<char>, c: Seq<char>)
    ensures
        !text_less(a, a),
        a != b ==> text_less(a, b) != text_less(b, a),
        text_less(a, b) && text_less(b, c) ==> text_less(a, c),
    decreases a.len() + b.len() + c.len(),
{
    if a.len() > 0 && b.len() > 0 && c.len() > 0 {
        text_order_is_total(a.skip(1), b.skip(1), c.skip(1));
        if a[0] == b[0] && a.skip(1) == b.skip(1) {
            assert(a =~= seq![a[0]] + a.skip(1));
            assert(b =~= seq![b[0]] + b.skip(1));
        }
    } else if a.len() > 0 && b.len() > 0 {
        text_order_is_total(a.skip(1), b.skip(1), c);
        if a[0] == b[0] && a.skip(1) == b.skip(1) {
            assert(a =~= seq![a[0]] + a.skip(1));
            assert(b =~= seq![b[0]] + b.skip(1));
        }
    } else if a.len() > 0 {
        text_order_is_total(a.skip(1), b, c);
    } else if a.len() == 0 && b.len() == 0 {
        assert(a =~= b);
    }
}

/// Whether `part` stands among some characters at `at`.
pub fn chars_match_at(chars: &Vec<char>, part: &Vec<char>, at: usize) -> (r: bool)
    requires
        at <= chars@.len(),
    ensures
        r == starts_with(chars@.skip(at as int), part@),
{
    if chars.len() - at < part.len() {
        return false;
    }
    let ghost here = chars@.skip(at as int).take(part@.len() as int);
    let mut i: usize = 0;
    while i < part.len()
        invariant
            i <= part@.len(),
            at + part@.len() <= chars@.len() <= usize::MAX,
            here == chars@.skip(at as int).take(part@.len() as int),
            forall|k: int| 0 <= k < i ==> here[k] == part@[k],
        decreases part@.len() - i,
    {
        assert(here[i as int] == chars@[at + i]);
        if chars[at + i] != part[i] {
            return false;
        }
        i = i + 1;
    }
    assert(here =~= part@);
    true
}

/// A text with each place where `from` stands replaced by `to`.
pub fn replace_text(s: &str, from: &str, to: &str) -> (r: String)
    ensures
        r@ == replace_all(s@, from@, to@),
{
    let chars: Vec<char> = chars_of(s);
    let part: Vec<char> = chars_of(from);
    if part.len() == 0 {
        return copy_str(s);
    }
    let mut r: String = String::new();
    let mut i: usize = 0;
    proof {
        assert(chars@.skip(0) =~= s@);
        assert(r@ + replace_all(chars@.skip(0), from@, to@) =~= replace_all(s@, from@, to@));
    }
    while i < chars.len()
        invariant
            i <= chars@.len(),
            part@ == from@,
            part@.len() > 0,
            r@ + replace_all(chars@.skip(i as int), from@, to@) == replace_all(s@, from@, to@),
        decreases chars@.len() - i,
    {
        let ghost rest = chars@.skip(i as int);
        let ghost r0 = r@;
        if chars_match_at(&chars, &part, i) {
            r.append(to);
            proof {
                let next = chars@.skip(i + part@.len());
                assert(rest.skip(part@.len() as int) =~= next);
                assert(r0 + (to@ + replace_all(next, from@, to@)) =~= (r0 + to@) + replace_all(
                    next,
                    from@,
                    to@,
                ));
            }
            i = i + part.len();
        } else {
            r.push(chars[i]);
            proof {
                let next = chars@.skip(i + 1);
                assert(rest.skip(1) =~= next);
                if rest.len() < from@.len() {
                    assert(replace_all(rest, from@, to@) == rest);
                    assert(replace_all(next, from@, to@) == next);
                    assert(r0 + rest =~= r0.push(chars@[i as int]) + next);
                } else {
                    assert(r0 + (seq![rest[0]] + replace_all(next, from@, to@)) =~= r0.push(
                        rest[0],
                    ) + replace_all(next, from@, to@));
                }
            }
            i = i + 1;
        }
    }
    proof {
        assert(chars@.skip(i as int) =~= Seq::<char>::empty());
        assert(r@ + replace_all(chars@.skip(i as int), from@, to@) =~= r@);
    }
    r
}

// ── Words ──

/// The piece that is open is empty at the start and after a separator, and only
/// there.
proof fn lemma_open_piece(s: Seq<char>, sep: Separator)
    ensures
        split(s, sep).len() >= 1,
        split(s, sep).last().len() == 0 <==> s.len() == 0 || separates(sep, s.last()),
    decreases s.len(),
{
    if s.len() > 0 {
        lemma_open_piece(s.drop_last(), sep);
    }
}

/// White space after a text adds no word; any other character begins a word at
/// the start or after white space, and makes the last word longer elsewhere.
pub proof fn words_grow(s: Seq<char>, c: char)
    ensures
        is_whitespace(c) ==> words(s.push(c)) == words(s),
        !is_whitespace(c) && (s.len() == 0 || is_whitespace(s.last())) ==> words(s.push(c))
            == words(s).push(seq![c]),
        !is_whitespace(c) && s.len() > 0 && !is_whitespace(s.last()) ==> words(s).len() > 0
            && words(s.push(c)) == words(s).drop_last().push(words(s).last().push(c)),
{
    reveal(Seq::filter);
    let sep = Separator::WhiteSpace;
    let before = split(s, sep);
    let after = split(s.push(c), sep);
    let p = |q: Seq<char>| q.len() > 0;
    lemma_open_piece(s, sep);
    assert(s.push(c).drop_last() =~= s);
    assert(before.drop_last().push(before.last()) =~= before);
    if is_whitespace(c) {
        assert(after == before.push(Seq::<char>::empty()));
        assert(after.drop_last() =~= before);
    } else {
        let longer = before.last().push(c);
        assert(after == before.drop_last().push(longer));
        assert(after.drop_last() =~= before.drop_last());
        assert(words(s.push(c)) == non_empty(before.drop_last()).push(longer));
        if s.len() == 0 || is_whitespace(s.last()) {
            assert(before.last() =~= Seq::<char>::empty());
            assert(longer =~= seq![c]);
            assert(words(s) == non_empty(before.drop_last()));
        } else {
            assert(words(s) == non_empty(before.drop_last()).push(before.last()));
            assert(words(s).drop_last() =~= non_empty(before.drop_last()));
        }
    }
}

/// A text without characters has no words.
pub proof fn no_words_in_nothing(s: Seq<char>)
    requires
        s.len() == 0,
    ensures
        words(s).len() == 0,
{
    reveal(Seq::filter);
    let start = seq![Seq::<char>::empty()];
    assert(split(s, Separator::WhiteSpace) == start);
    assert(start.drop_last() =~= Seq::<Seq<char>>::empty());
    assert(non_empty(start.drop_last()) =~= Seq::<Seq<char>>::empty());
    assert(non_empty(start) == non_empty(start.drop_last()));
}

/// No word is empty or holds white space.
pub proof fn words_hold_no_whitespace(s: Seq<char>)
    ensures
        forall|i: int, k: int|
            0 <= i < words(s).len() && 0 <= k < words(s)[i].len() ==> !is_whitespace(
                #[trigger] words(s)[i][k],
            ),
        forall|i: int| 0 <= i < words(s).len() ==> (#[trigger] words(s)[i]).len() > 0,
    decreases s.len(),
{
    if s.len() == 0 {
        no_words_in_nothing(s);
    } else {
        let rest = s.drop_last();
        words_hold_no_whitespace(rest);
        words_grow(rest, s.last());
        assert(rest.push(s.last()) =~= s);
    }
}

/// A text without words is white space only.
proof fn lemma_no_words(s: Seq<char>)
    requires
        words(s).len() == 0,
    ensures
        forall|i: int| 0 <= i < s.len() ==> is_whitespace(#[trigger] s[i]),
    decreases s.len(),
{
    if s.len() > 0 {
        let rest = s.drop_last();
        words_grow(rest, s.last());
        assert(rest.push(s.last()) =~= s);
        assert(is_whitespace(s.last()));
        lemma_no_words(rest);
        assert forall|i: int| 0 <= i < s.len() implies is_whitespace(#[trigger] s[i]) by {
            if i < s.len() - 1 {
                assert(rest[i] == s[i]);
            }
        }
    }
}

/// Nothing is left of white space only.
proof fn lemma_trim_whitespace(s: Seq<char>)
    requires
        forall|i: int| 0 <= i < s.len() ==> is_whitespace(#[trigger] s[i]),
    ensures
        trim_start(s).len() == 0,
    decreases s.len(),
{
    if s.len() > 0 {
        assert forall|i: int| 0 <= i < s.skip(1).len() implies is_whitespace(
            #[trigger] s.skip(1)[i],
        ) by {
            assert(s.skip(1)[i] == s[i + 1]);
        }
        lemma_trim_whitespace(s.skip(1));
    }
}

/// A text that is not blank has words.
pub proof fn text_that_is_not_blank_has_words(s: Seq<char>)
    requires
        trim(s).len() > 0,
    ensures
        words(s).len() > 0,
{
    if words(s).len() == 0 {
        lemma_no_words(s);
        lemma_trim_whitespace(s);
    }
}

/// White space at the end of a text changes no word.
pub proof fn trimming_keeps_words(s: Seq<char>)
    ensures
        words(trim_end(s)) == words(s),
    decreases s.len(),
{
    if s.len() > 0 && is_whitespace(s.last()) {
        trimming_keeps_words(s.drop_last());
        words_grow(s.drop_last(), s.last());
        assert(s.drop_last().push(s.last()) =~= s);
    }
}

// ── Letter case ──

/// Every piece of an ASCII text is ASCII.
proof fn lemma_pieces_are_ascii(s: Seq<char>, sep: Separator)
    requires
        all_ascii(s),
    ensures
        forall|i: int| 0 <= i < split(s, sep).len() ==> all_ascii(#[trigger] split(s, sep)[i]),
    decreases s.len(),
{
    if s.len() > 0 {
        let rest = s.drop_last();
        assert(all_ascii(rest)) by {
            assert forall|i: int| 0 <= i < rest.len() implies (#[trigger] rest[i]) < '\u{80}' by {
                assert(rest[i] == s[i]);
            }
        }
        lemma_pieces_are_ascii(rest, sep);
        lemma_open_piece(rest, sep);
        let before = split(rest, sep);
        assert(s[s.len() - 1] < '\u{80}');
        assert(all_ascii(before[before.len() - 1]));
        assert(all_ascii(before.last().push(s.last())));
    }
}

/// The pieces of a lower-cased ASCII text are its pieces lower-cased.
pub proof fn splitting_keeps_to_letter_case(s: Seq<char>, sep: Separator)
    requires
        all_ascii(s),
    ensures
        split(s, sep).map_values(|p: Seq<char>| lowercase(p)) == split(ascii_lowercase(s), sep),
    decreases s.len(),
{
    let low = |p: Seq<char>| lowercase(p);
    let nothing = Seq::<char>::empty();
    assert(lowercase(nothing) =~= nothing);
    if s.len() == 0 {
        assert(split(s, sep).map_values(low) =~= split(ascii_lowercase(s), sep));
    } else {
        let rest = s.drop_last();
        let c = s.last();
        assert(all_ascii(rest)) by {
            assert forall|i: int| 0 <= i < rest.len() implies (#[trigger] rest[i]) < '\u{80}' by {
                assert(rest[i] == s[i]);
            }
        }
        splitting_keeps_to_letter_case(rest, sep);
        lemma_pieces_are_ascii(rest, sep);
        lemma_open_piece(rest, sep);
        let before = split(rest, sep);
        assert(ascii_lowercase(s).drop_last() =~= ascii_lowercase(rest));
        assert(ascii_lowercase(s).last() == ascii_lower(c));
        assert(separates(sep, ascii_lower(c)) == separates(sep, c));
        if separates(sep, c) {
            assert(before.push(nothing).map_values(low) =~= before.map_values(low).push(nothing));
        } else {
            let open = before[before.len() - 1];
            assert(s[s.len() - 1] < '\u{80}');
            assert(all_ascii(open.push(c)));
            assert(ascii_lowercase(open.push(c)) =~= ascii_lowercase(open).push(ascii_lower(c)));
            assert(before.drop_last().push(open.push(c)).map_values(low) =~= before.map_values(
                low,
            ).drop_last().push(lowercase(open).push(ascii_lower(c))));
        }
    }
}

/// An ASCII text and its upper-case form are the same but for letter case.
pub proof fn upper_case_is_lower_cased_alike(s: Seq<char>)
    requires
        all_ascii(s),
    ensures
        all_ascii(ascii_uppercase(s)),
        ascii_lowercase(ascii_uppercase(s)) == ascii_lowercase(s),
{
    assert forall|i: int| 0 <= i < s.len() implies (#[trigger] ascii_uppercase(s)[i]) < '\u{80}'
        && ascii_lower(ascii_uppercase(s)[i]) == ascii_lower(s[i]) by {
        assert(s[i] < '\u{80}');
    }
    assert(ascii_lowercase(ascii_uppercase(s)) =~= ascii_lowercase(s));
}

/// Where a character stands last in a text that ends in it and what has none of it.
pub proof fn last_place_is_before_the_rest(s: Seq<char>, c: char, rest: Seq<char>)
    requires
        !rest.contains(c),
    ensures
        last_place(s.push(c) + rest, c) == s.len(),
    decreases rest.len(),
{
    let all = s.push(c) + rest;
    if rest.len() == 0 {
        assert(all =~= s.push(c));
    } else {
        assert(all.last() == rest[rest.len() - 1]);
        assert(rest.contains(all.last()));
        assert(all.drop_last() =~= s.push(c) + rest.drop_last());
        assert(!rest.drop_last().contains(c)) by {
            if rest.drop_last().contains(c) {
                let i = choose|i: int| 0 <= i < rest.drop_last().len() && rest.drop_last()[i] == c;
                assert(rest[i] == c);
            }
        }
        last_place_is_before_the_rest(s, c, rest.drop_last());
    }
}

// ── What the operations give ──

/// The characters that part words: the control characters from tab to carriage return,
/// the space, and the spaces and line breaks beyond ASCII.
pub proof fn white_space_is_a_fixed_set(c: char)
    ensures
        is_whitespace(c) <==> {
            let code = c as u32;
            ||| 9 <= code <= 13
            ||| code == 32
            ||| code == 133
            ||| code == 160
            ||| code == 5760
            ||| 8192 <= code <= 8202
            ||| code == 8232
            ||| code == 8233
            ||| code == 8239
            ||| code == 8287
            ||| code == 12288
        },
        separates(Separator::WhiteSpace, c) == is_whitespace(c),
        separates(Separator::NamePart, c) <==> is_whitespace(c) || c == '-' || c == '_' || c == '.',
{
}

/// A text in ASCII keeps its length when it is lower-cased, and each of its characters
/// but the capital letters; of any other text the lower-case form is that of Unicode.
pub proof fn lower_case_changes_capital_letters_only(s: Seq<char>)
    ensures
        (forall|i: int| 0 <= i < s.len() ==> (#[trigger] s[i] as int) < 128) ==> {
            &&& lowercase(s).len() == s.len()
            &&& forall|i: int|
                0 <= i < s.len() ==> (if 65 <= s[i] as int <= 90 {
                    (#[trigger] lowercase(s)[i]) as int == s[i] as int + 32
                } else {
                    lowercase(s)[i] == s[i]
                })
        },
        (exists|i: int| 0 <= i < s.len() && (#[trigger] s[i] as int) >= 128) ==> lowercase(s)
            == unicode_lowercase(s),
        ascii_lowercase(s).len() == s.len(),
        forall|i: int|
            0 <= i < s.len() ==> (if 65 <= s[i] as int <= 90 {
                (#[trigger] ascii_lowercase(s)[i]) as int == s[i] as int + 32
            } else {
                ascii_lowercase(s)[i] == s[i]
            }),
{
    if forall|i: int| 0 <= i < s.len() ==> (#[trigger] s[i] as int) < 128 {
        assert(all_ascii(s)) by {
            assert forall|i: int| 0 <= i < s.len() implies (#[trigger] s[i]) < '\u{80}' by {
                assert((s[i] as int) < 128);
            }
        }
    }
    if exists|i: int| 0 <= i < s.len() && (#[trigger] s[i] as int) >= 128 {
        let i = choose|i: int| 0 <= i < s.len() && (#[trigger] s[i] as int) >= 128;
        assert(!(s[i] < '\u{80}'));
    }
}

/// A text comes before another where the two are alike up to a place at which the first
/// ends or has the smaller character, and nowhere else.
pub proof fn texts_are_ordered_by_their_first_difference(a: Seq<char>, b: Seq<char>)
    ensures
        text_less(a, b) <==> exists|k: int|
            0 <= k < b.len() && k <= a.len() && #[trigger] a.take(k) == b.take(k) && (k == a.len()
                || (a[k] as int) < (b[k] as int)),
    decreases a.len(),
{
    if b.len() > 0 {
        assert(a.take(0) =~= b.take(0));
        if a.len() > 0 {
            let (x, y) = (a.skip(1), b.skip(1));
            texts_are_ordered_by_their_first_difference(x, y);
            if a[0] == b[0] {
                if text_less(a, b) {
                    let k = choose|k: int|
                        0 <= k < y.len() && k <= x.len() && #[trigger] x.take(k) == y.take(k) && (k
                            == x.len() || (x[k] as int) < (y[k] as int));
                    assert(a.take(k + 1) =~= seq![a[0]] + x.take(k));
                    assert(b.take(k + 1) =~= seq![b[0]] + y.take(k));
                    assert(x.len() == a.len() - 1);
                    assert(k < x.len() ==> x[k] == a[k + 1]);
                    assert(y[k] == b[k + 1]);
                }
                if exists|k: int|
                    0 <= k < b.len() && k <= a.len() && #[trigger] a.take(k) == b.take(k) && (k
                        == a.len() || (a[k] as int) < (b[k] as int)) {
                    let k = choose|k: int|
                        0 <= k < b.len() && k <= a.len() && #[trigger] a.take(k) == b.take(k) && (k
                            == a.len() || (a[k] as int) < (b[k] as int));
                    assert(k > 0);
                    assert(x.take(k - 1) =~= a.take(k).skip(1));
                    assert(y.take(k - 1) =~= b.take(k).skip(1));
                    assert(k < a.len() ==> x[k - 1] == a[k]);
                    assert(y[k - 1] == b[k]);
                }
            } else {
                assert forall|k: int|
                    0 < k < b.len() && k <= a.len() implies #[trigger] a.take(k) != b.take(k) by {
                    assert(a.take(k)[0] == a[0]);
                    assert(b.take(k)[0] == b[0]);
                }
            }
        }
    }
}

/// How much white space a text begins with.
proof fn lemma_trim_start(s: Seq<char>) -> (i: int)
    ensures
        0 <= i <= s.len(),
        trim_start(s) == s.skip(i),
        forall|k: int| 0 <= k < i ==> is_whitespace(#[trigger] s[k]),
        i < s.len() ==> !is_whitespace(s[i]),
    decreases s.len(),
{
    if s.len() > 0 && is_whitespace(s[0]) {
        let i = lemma_trim_start(s.skip(1));
        assert(s.skip(1).skip(i) =~= s.skip(i + 1));
        assert forall|k: int| 0 <= k < i + 1 implies is_whitespace(#[trigger] s[k]) by {
            if k > 0 {
                assert(s.skip(1)[k - 1] == s[k]);
            }
        }
        assert(i < s.skip(1).len() ==> s.skip(1)[i] == s[i + 1]);
        i + 1
    } else {
        assert(s.skip(0) =~= s);
        0
    }
}

/// How long a text is without the white space at its end.
proof fn lemma_trim_end(s: Seq<char>) -> (j: int)
    ensures
        0 <= j <= s.len(),
        trim_end(s) == s.take(j),
        forall|k: int| j <= k < s.len() ==> is_whitespace(#[trigger] s[k]),
        0 < j ==> !is_whitespace(s[j - 1]),
    decreases s.len(),
{
    if s.len() > 0 && is_whitespace(s.last()) {
        let j = lemma_trim_end(s.drop_last());
        assert(s.drop_last().take(j) =~= s.take(j));
        assert forall|k: int| j <= k < s.len() implies is_whitespace(#[trigger] s[k]) by {
            if k < s.len() - 1 {
                assert(s.drop_last()[k] == s[k]);
            }
        }
        j
    } else {
        assert(s.take(s.len() as int) =~= s);
        s.len() as int
    }
}

/// Trimming takes white space off both ends, all that is there, and nothing else.
pub proof fn trimming_takes_white_space_off_both_ends(s: Seq<char>) -> (ends: (int, int))
    ensures
        0 <= ends.0 <= ends.1 <= s.len(),
        trim(s) == s.subrange(ends.0, ends.1),
        forall|k: int| 0 <= k < ends.0 ==> is_whitespace(#[trigger] s[k]),
        forall|k: int| ends.1 <= k < s.len() ==> is_whitespace(#[trigger] s[k]),
        ends.0 < ends.1 ==> !is_whitespace(s[ends.0]) && !is_whitespace(s[ends.1 - 1]),
        trim(s).len() == 0 <==> forall|k: int| 0 <= k < s.len() ==> is_whitespace(#[trigger] s[k]),
{
    let i = lemma_trim_start(s);
    let rest = s.skip(i);
    let j = lemma_trim_end(rest);
    assert(rest.take(j) =~= s.subrange(i, i + j));
    assert forall|k: int| i + j <= k < s.len() implies is_whitespace(#[trigger] s[k]) by {
        assert(rest[k - i] == s[k]);
    }
    if 0 < j {
        assert(rest[0] == s[i]);
        assert(rest[j - 1] == s[i + j - 1]);
    } else {
        assert forall|k: int| 0 <= k < s.len() implies is_whitespace(#[trigger] s[k]) by {
            if k >= i {
                assert(rest[k - i] == s[k]);
            }
        }
    }
    (i, i + j)
}

/// One piece joins to itself, and each piece more stands behind the others and one
/// separator.
pub proof fn joining_appends_each_piece(pieces: Seq<Seq<char>>, piece: Seq<char>, sep: Seq<char>)
    ensures
        join(Seq::empty(), sep) == Seq::<char>::empty(),
        pieces.len() == 0 ==> join(pieces.push(piece), sep) == piece,
        pieces.len() > 0 ==> join(pieces.push(piece), sep) == join(pieces, sep) + sep + piece,
{
    assert(pieces.push(piece).drop_last() =~= pieces);
    assert(pieces.push(piece).last() == piece);
}

/// Where joined pieces stand: each as it was, at its own place, behind the ones before it.
pub proof fn every_piece_is_in_what_is_joined(pieces: Seq<Seq<char>>, sep: Seq<char>, i: int) -> (at:
    int)
    requires
        0 <= i < pieces.len(),
    ensures
        0 <= at <= at + pieces[i].len() <= join(pieces, sep).len(),
        join(pieces, sep).subrange(at, at + pieces[i].len()) == pieces[i],
        i == 0 ==> at == 0,
        i > 0 ==> at == join(pieces.take(i), sep).len() + sep.len(),
        i == pieces.len() - 1 ==> at + pieces[i].len() == join(pieces, sep).len(),
    decreases pieces.len(),
{
    let whole = join(pieces, sep);
    let rest = pieces.drop_last();
    if i == pieces.len() - 1 {
        assert(pieces.take(i) =~= rest);
        if pieces.len() == 1 {
            assert(whole.subrange(0, pieces[0].len() as int) =~= pieces[0]);
            0
        } else {
            let at = join(rest, sep).len() + sep.len();
            assert(whole.subrange(at as int, at as int + pieces[i].len()) =~= pieces[i]);
            at as int
        }
    } else {
        let at = every_piece_is_in_what_is_joined(rest, sep, i);
        assert(rest[i] == pieces[i]);
        assert(rest.take(i) =~= pieces.take(i));
        assert(whole.subrange(at, at + pieces[i].len()) =~= join(rest, sep).subrange(
            at,
            at + pieces[i].len(),
        ));
        at
    }
}

/// A text begins with another where it is that text and some more.
pub proof fn beginnings_and_ends(s: Seq<char>, part: Seq<char>, more: Seq<char>)
    ensures
        starts_with(part + more, part),
        ends_with(more + part, part),
        starts_with(s, part) ==> s == part + s.skip(part.len() as int),
        ends_with(s, part) ==> s == s.take(s.len() - part.len()) + part,
{
    assert((part + more).take(part.len() as int) =~= part);
    assert((more + part).skip(more.len() as int) =~= part);
    if starts_with(s, part) {
        assert(s =~= s.take(part.len() as int) + s.skip(part.len() as int));
    }
    if ends_with(s, part) {
        assert(s =~= s.take(s.len() - part.len()) + s.skip(s.len() - part.len()));
    }
}

/// A text in which another does not stand is left as it is.
pub proof fn nothing_is_replaced_where_nothing_stands(s: Seq<char>, from: Seq<char>, to: Seq<char>)
    requires
        from.len() > 0,
        forall|k: int|
            0 <= k <= s.len() - from.len() ==> #[trigger] s.subrange(k, k + from.len()) != from,
    ensures
        replace_all(s, from, to) == s,
    decreases s.len(),
{
    if s.len() >= from.len() {
        assert(s.take(from.len() as int) =~= s.subrange(0, 0int + from.len()));
        let rest = s.skip(1);
        assert forall|k: int| 0 <= k <= rest.len() - from.len() implies #[trigger] rest.subrange(
            k,
            k + from.len(),
        ) != from by {
            assert(rest.subrange(k, k + from.len()) =~= s.subrange(k + 1, k + 1 + from.len()));
        }
        nothing_is_replaced_where_nothing_stands(rest, from, to);
        assert(seq![s[0]] + rest =~= s);
    }
}

/// The first place where a text stands is replaced, what is before it stays, and what is
/// behind it is gone through in the same way.
pub proof fn every_place_is_replaced(
    before: Seq<char>,
    from: Seq<char>,
    to: Seq<char>,
    rest: Seq<char>,
)
    requires
        from.len() > 0,
        forall|k: int|
            0 <= k < before.len() ==> #[trigger] (before + from + rest).subrange(k, k + from.len())
                != from,
    ensures
        replace_all(before + from + rest, from, to) == before + to + replace_all(rest, from, to),
    decreases before.len(),
{
    let s = before + from + rest;
    if before.len() == 0 {
        assert(s.take(from.len() as int) =~= from);
        assert(s.skip(from.len() as int) =~= rest);
        assert(before + to =~= to);
    } else {
        let tail = before.skip(1);
        assert(s.take(from.len() as int) =~= s.subrange(0, 0int + from.len()));
        assert(s.skip(1) =~= tail + from + rest);
        assert forall|k: int| 0 <= k < tail.len() implies #[trigger] (tail + from + rest).subrange(
            k,
            k + from.len(),
        ) != from by {
            assert((tail + from + rest).subrange(k, k + from.len()) =~= s.subrange(
                k + 1,
                k + 1 + from.len(),
            ));
        }
        every_place_is_replaced(tail, from, to, rest);
        assert(seq![s[0]] + (tail + to + replace_all(rest, from, to)) =~= before + to
            + replace_all(rest, from, to));
    }
}

/// Where a character stands last: it stands there, and nowhere behind.
pub proof fn last_place_is_the_last(s: Seq<char>, c: char)
    ensures
        -1 <= last_place(s, c) < s.len(),
        last_place(s, c) >= 0 ==> s[last_place(s, c)] == c,
        forall|k: int| last_place(s, c) < k < s.len() ==> (#[trigger] s[k]) != c,
    decreases s.len(),
{
    if s.len() > 0 && s.last() != c {
        let rest = s.drop_last();
        last_place_is_the_last(rest, c);
        assert(last_place(s, c) >= 0 ==> rest[last_place(s, c)] == s[last_place(s, c)]);
        assert forall|k: int| last_place(s, c) < k < s.len() implies (#[trigger] s[k]) != c by {
            if k < s.len() - 1 {
                assert(rest[k] == s[k]);
            }
        }
    }
}

/// Pieces are cut at every separator: each opens a new piece, and any other character
/// makes the piece that is open longer.
pub proof fn pieces_are_cut_at_every_separator(s: Seq<char>, sep: Separator, c: char)
    ensures
        split(Seq::empty(), sep) == seq![Seq::<char>::empty()],
        split(s, sep).len() >= 1,
        separates(sep, c) ==> split(s.push(c), sep) == split(s, sep).push(Seq::empty()),
        !separates(sep, c) ==> split(s.push(c), sep) == split(s, sep).drop_last().push(
            split(s, sep).last().push(c),
        ),
{
    assert(s.push(c).drop_last() =~= s);
    lemma_open_piece(s, sep);
}

/// The texts of some strings are one for each, in order.
pub proof fn each_string_has_its_text(v: Seq<String>)
    ensures
        texts(v).len() == v.len(),
        forall|i: int| 0 <= i < v.len() ==> #[trigger] texts(v)[i] == v[i]@,
{
}

/// A character of ASCII is upper-case where it is one of the capital letters; of any other
/// Unicode says it.
pub proof fn capital_letters_are_upper_case(c: char)
    ensures
        (c as int) < 128 ==> (is_uppercase(c) <==> 65 <= c as int <= 90),
        (c as int) >= 128 ==> is_uppercase(c) == unicode_uppercase(c),
{
}

/// White space at one end of a text goes, all of it, and nothing else.
pub proof fn ends_are_trimmed(s: Seq<char>) -> (ends: (int, int))
    ensures
        0 <= ends.0 <= s.len() && 0 <= ends.1 <= s.len(),
        trim_start(s) == s.skip(ends.0) && trim_end(s) == s.take(ends.1),
        forall|k: int| 0 <= k < ends.0 ==> is_whitespace(#[trigger] s[k]),
        forall|k: int| ends.1 <= k < s.len() ==> is_whitespace(#[trigger] s[k]),
        ends.0 < s.len() ==> !is_whitespace(s[ends.0]),
        0 < ends.1 ==> !is_whitespace(s[ends.1 - 1]),
{
    let i = lemma_trim_start(s);
    let j = lemma_trim_end(s);
    (i, j)
}

} // verus!
