//! Text as sequences of characters: classes, spans, trimming, splitting,
//! searching and the conversions between `str`, `String` and `[char]`.
use vstd::prelude::*;
use vstd::slice::slice_subrange;
use vstd::utf8::*;

verus! {

/// `String::push` appends one character and leaves the rest as it was.
pub assume_specification[ String::push ](s: &mut String, c: char)
    ensures
        final(s)@ == old(s)@.push(c),
;

/// What is wrong with bytes that are not UTF-8, in words.
pub uninterp spec fn utf8_problem(bytes: Seq<u8>) -> Seq<char>;

/// `String::from_utf8` gives the text that some bytes encode, if they encode
/// one, and otherwise says what is wrong with them.
#[verifier::external_body]
pub(crate) fn utf8_text(bytes: Vec<u8>) -> (r: Result<String, String>)
    ensures
        match r {
            Ok(s) => valid_utf8(bytes@) && encode_utf8(s@) == bytes@,
            Err(problem) => !valid_utf8(bytes@) && problem@ == utf8_problem(bytes@),
        },
{
    String::from_utf8(bytes).map_err(|error| error.to_string())
}

/// A set of characters that the parsers ask about.
#[derive(Clone, Copy)]
pub enum Class {
    /// The characters with the Unicode property `White_Space`.
    Whitespace,
    /// Space, tab, line feed, form feed and carriage return.
    AsciiWhitespace,
    /// The control characters, general category `Cc`.
    Control,
    /// Bidirectional embedding, override and isolate controls.
    Directional,
    AsciiLetter,
    AsciiUpper,
    AsciiDigit,
    AsciiAlphanumeric,
    HexDigit,
    /// Characters of a command typed in first position.
    CommandPart,
    /// Characters of an executable's or a subcommand's name.
    NamePart,
    /// Characters of an option's spelling.
    OptionPart,
    /// Characters of a documented option value.
    ValuePart,
    /// Characters of a placeholder such as `FILE`.
    PlaceholderPart,
    /// Characters that mean something to the shell besides the backslash.
    ShellMeta,
    /// Characters that stand unescaped in a completed path.
    PathPlain,
    /// Quotation marks around documented values.
    QuoteMark,
    /// Brackets around a list of documented values.
    ListBracket,
    /// Marks that trail a subcommand's name.
    NameMark,
    /// Colon and slash, which a remote destination may repeat.
    ColonOrSlash,
    /// One character.
    Only(char),
}

pub open spec fn ascii_upper(c: char) -> bool {
    'A' <= c && c <= 'Z'
}

pub open spec fn ascii_lower(c: char) -> bool {
    'a' <= c && c <= 'z'
}

pub open spec fn ascii_digit(c: char) -> bool {
    '0' <= c && c <= '9'
}

pub open spec fn ascii_letter(c: char) -> bool {
    ascii_upper(c) || ascii_lower(c)
}

pub open spec fn ascii_alphanumeric(c: char) -> bool {
    ascii_letter(c) || ascii_digit(c)
}

pub open spec fn whitespace(c: char) -> bool {
    ||| '\u{9}' <= c && c <= '\u{d}'
    ||| c == ' '
    ||| c == '\u{85}'
    ||| c == '\u{a0}'
    ||| c == '\u{1680}'
    ||| '\u{2000}' <= c && c <= '\u{200a}'
    ||| c == '\u{2028}'
    ||| c == '\u{2029}'
    ||| c == '\u{202f}'
    ||| c == '\u{205f}'
    ||| c == '\u{3000}'
}

pub open spec fn control(c: char) -> bool {
    c <= '\u{1f}' || ('\u{7f}' <= c && c <= '\u{9f}')
}

pub open spec fn directional(c: char) -> bool {
    ('\u{202a}' <= c && c <= '\u{202e}') || ('\u{2066}' <= c && c <= '\u{2069}')
}

pub open spec fn shell_meta(c: char) -> bool {
    ||| c == '\''
    ||| c == '"'
    ||| c == ';'
    ||| c == '&'
    ||| c == '|'
    ||| c == '>'
    ||| c == '<'
    ||| c == '$'
    ||| c == '`'
    ||| c == '('
    ||| c == ')'
    ||| c == '{'
    ||| c == '}'
    ||| c == '['
    ||| c == ']'
    ||| c == '!'
    ||| c == '*'
    ||| c == '?'
}

/// Whether `c` belongs to the class `k`.
pub open spec fn in_class(k: Class, c: char) -> bool {
    match k {
        Class::Whitespace => whitespace(c),
        Class::AsciiWhitespace => c == ' ' || c == '\t' || c == '\n' || c == '\u{c}' || c == '\r',
        Class::Control => control(c),
        Class::Directional => directional(c),
        Class::AsciiLetter => ascii_letter(c),
        Class::AsciiUpper => ascii_upper(c),
        Class::AsciiDigit => ascii_digit(c),
        Class::AsciiAlphanumeric => ascii_alphanumeric(c),
        Class::HexDigit => ascii_digit(c) || ('a' <= c && c <= 'f') || ('A' <= c && c <= 'F'),
        Class::CommandPart => ascii_alphanumeric(c) || c == '-' || c == '_' || c == '+',
        Class::NamePart => ascii_alphanumeric(c) || c == '-' || c == '_' || c == '.' || c == '+',
        Class::OptionPart => ascii_alphanumeric(c) || c == '-' || c == '_',
        Class::ValuePart => ascii_alphanumeric(c) || c == '-' || c == '_' || c == '.' || c == '+'
            || c == '/',
        Class::PlaceholderPart => ascii_upper(c) || ascii_digit(c) || c == '_',
        Class::ShellMeta => shell_meta(c),
        Class::PathPlain => c > '\u{7f}' || ascii_alphanumeric(c) || c == '_' || c == '-' || c
            == '+' || c == '.' || c == '@' || c == '%' || c == ',',
        Class::QuoteMark => c == '\'' || c == '"' || c == '`',
        Class::ListBracket => c == '[' || c == ']' || c == '(' || c == ')',
        Class::NameMark => c == ':' || c == '*',
        Class::ColonOrSlash => c == ':' || c == '/',
        Class::Only(d) => c == d,
    }
}

impl Class {
    /// Whether `c` belongs to this class.
    pub fn admits(self, c: char) -> (b: bool)
        ensures
            b == in_class(self, c),
    {
        let upper = 'A' <= c && c <= 'Z';
        let lower = 'a' <= c && c <= 'z';
        let digit = '0' <= c && c <= '9';
        let alphanumeric = upper || lower || digit;
        match self {
            Class::Whitespace => ('\u{9}' <= c && c <= '\u{d}') || c == ' ' || c == '\u{85}' || c
                == '\u{a0}' || c == '\u{1680}' || ('\u{2000}' <= c && c <= '\u{200a}') || c
                == '\u{2028}' || c == '\u{2029}' || c == '\u{202f}' || c == '\u{205f}' || c
                == '\u{3000}',
            Class::AsciiWhitespace => c == ' ' || c == '\t' || c == '\n' || c == '\u{c}' || c
                == '\r',
            Class::Control => c <= '\u{1f}' || ('\u{7f}' <= c && c <= '\u{9f}'),
            Class::Directional => ('\u{202a}' <= c && c <= '\u{202e}') || ('\u{2066}' <= c && c
                <= '\u{2069}'),
            Class::AsciiLetter => upper || lower,
            Class::AsciiUpper => upper,
            Class::AsciiDigit => digit,
            Class::AsciiAlphanumeric => alphanumeric,
            Class::HexDigit => digit || ('a' <= c && c <= 'f') || ('A' <= c && c <= 'F'),
            Class::CommandPart => alphanumeric || c == '-' || c == '_' || c == '+',
            Class::NamePart => alphanumeric || c == '-' || c == '_' || c == '.' || c == '+',
            Class::OptionPart => alphanumeric || c == '-' || c == '_',
            Class::ValuePart => alphanumeric || c == '-' || c == '_' || c == '.' || c == '+' || c
                == '/',
            Class::PlaceholderPart => upper || digit || c == '_',
            Class::ShellMeta => c == '\'' || c == '"' || c == ';' || c == '&' || c == '|' || c
                == '>' || c == '<' || c == '$' || c == '`' || c == '(' || c == ')' || c == '{' || c
                == '}' || c == '[' || c == ']' || c == '!' || c == '*' || c == '?',
            Class::PathPlain => c > '\u{7f}' || alphanumeric || c == '_' || c == '-' || c == '+'
                || c == '.' || c == '@' || c == '%' || c == ',',
            Class::QuoteMark => c == '\'' || c == '"' || c == '`',
            Class::ListBracket => c == '[' || c == ']' || c == '(' || c == ')',
            Class::NameMark => c == ':' || c == '*',
            Class::ColonOrSlash => c == ':' || c == '/',
            Class::Only(d) => c == d,
        }
    }
}

// ---------------------------------------------------------------------------
// Spans
// ---------------------------------------------------------------------------

/// The length of the longest prefix whose characters are all inside
/// (`inside`) or all outside (`!inside`) the class `k`.
pub open spec fn span(s: Seq<char>, k: Class, inside: bool) -> nat
    decreases s.len(),
{
    if s.len() > 0 && in_class(k, s[0]) == inside {
        1 + span(s.drop_first(), k, inside)
    } else {
        0
    }
}

/// The length of the longest suffix whose characters are all in the class `k`.
pub open spec fn back_span(s: Seq<char>, k: Class) -> nat
    decreases s.len(),
{
    if s.len() > 0 && in_class(k, s.last()) {
        1 + back_span(s.drop_last(), k)
    } else {
        0
    }
}

/// Every character of `s` is in the class `k`.
pub open spec fn all_in(s: Seq<char>, k: Class) -> bool {
    forall|i: int| 0 <= i < s.len() ==> in_class(k, #[trigger] s[i])
}

/// Some character of `s` is in the class `k`.
pub open spec fn some_in(s: Seq<char>, k: Class) -> bool {
    exists|i: int| 0 <= i < s.len() && in_class(k, #[trigger] s[i])
}

/// A span is the position of the first character on the other side.
pub proof fn lemma_span(s: Seq<char>, k: Class, inside: bool)
    ensures
        0 <= span(s, k, inside) <= s.len(),
        forall|i: int| 0 <= i < span(s, k, inside) ==> in_class(k, #[trigger] s[i]) == inside,
        span(s, k, inside) < s.len() ==> in_class(k, s[span(s, k, inside) as int]) != inside,
    decreases s.len(),
{
    if s.len() > 0 && in_class(k, s[0]) == inside {
        let t = s.drop_first();
        lemma_span(t, k, inside);
        assert forall|i: int| 0 <= i < span(s, k, inside) implies in_class(k, #[trigger] s[i])
            == inside by {
            if i > 0 {
                assert(s[i] == t[i - 1]);
            }
        }
    }
}

/// A position with that property is the span.
pub proof fn lemma_span_is(s: Seq<char>, k: Class, inside: bool, n: nat)
    requires
        n <= s.len(),
        forall|i: int| 0 <= i < n ==> in_class(k, #[trigger] s[i]) == inside,
        n < s.len() ==> in_class(k, s[n as int]) != inside,
    ensures
        span(s, k, inside) == n,
{
    lemma_span(s, k, inside);
    let m = span(s, k, inside);
    if m < n {
        assert(in_class(k, s[m as int]) == inside);
    } else if n < m {
        assert(in_class(k, s[n as int]) == inside);
    }
}

pub proof fn lemma_back_span(s: Seq<char>, k: Class)
    ensures
        0 <= back_span(s, k) <= s.len(),
        forall|i: int|
            s.len() - back_span(s, k) <= i < s.len() ==> in_class(k, #[trigger] s[i]),
        back_span(s, k) < s.len() ==> !in_class(k, s[s.len() - back_span(s, k) - 1]),
    decreases s.len(),
{
    if s.len() > 0 && in_class(k, s.last()) {
        let t = s.drop_last();
        lemma_back_span(t, k);
        assert forall|i: int| s.len() - back_span(s, k) <= i < s.len() implies in_class(
            k,
            #[trigger] s[i],
        ) by {
            if i < t.len() {
                assert(s[i] == t[i]);
            }
        }
    }
}

pub proof fn lemma_back_span_is(s: Seq<char>, k: Class, n: nat)
    requires
        n <= s.len(),
        forall|i: int| s.len() - n <= i < s.len() ==> in_class(k, #[trigger] s[i]),
        n < s.len() ==> !in_class(k, s[s.len() - n - 1]),
    ensures
        back_span(s, k) == n,
{
    lemma_back_span(s, k);
    let m = back_span(s, k);
    if m < n {
        assert(in_class(k, s[s.len() - m - 1]));
    } else if n < m {
        assert(in_class(k, s[s.len() - n - 1]));
    }
}

/// The end of the span that starts at `from`.
pub fn span_end(s: &[char], from: usize, k: Class, inside: bool) -> (end: usize)
    requires
        from <= s@.len(),
    ensures
        from <= end <= s@.len(),
        end == from + span(s@.skip(from as int), k, inside),
{
    let mut i: usize = from;
    while i < s.len() && k.admits(s[i]) == inside
        invariant
            from <= i <= s@.len(),
            forall|j: int| from <= j < i ==> in_class(k, #[trigger] s@[j]) == inside,
        decreases s.len() - i,
    {
        i += 1;
    }
    proof {
        lemma_span_is(s@.skip(from as int), k, inside, (i - from) as nat);
    }
    i
}

/// The start of the run of class `k` that ends the text.
pub fn back_span_start(s: &[char], k: Class) -> (start: usize)
    ensures
        start <= s@.len(),
        start == s@.len() - back_span(s@, k),
{
    let mut i: usize = s.len();
    while i > 0 && k.admits(s[i - 1])
        invariant
            i <= s@.len(),
            forall|j: int| i <= j < s@.len() ==> in_class(k, #[trigger] s@[j]),
        decreases i,
    {
        i -= 1;
    }
    proof {
        lemma_back_span_is(s@, k, (s@.len() - i) as nat);
    }
    i
}

/// Whether every character is in the class `k`.
pub fn is_all(s: &[char], k: Class) -> (b: bool)
    ensures
        b == all_in(s@, k),
{
    let mut i: usize = 0;
    while i < s.len()
        invariant
            i <= s@.len(),
            forall|j: int| 0 <= j < i ==> in_class(k, #[trigger] s@[j]),
        decreases s.len() - i,
    {
        if !k.admits(s[i]) {
            return false;
        }
        i += 1;
    }
    true
}

/// Whether some character is in the class `k`.
pub fn has_some(s: &[char], k: Class) -> (b: bool)
    ensures
        b == some_in(s@, k),
{
    let mut i: usize = 0;
    while i < s.len()
        invariant
            i <= s@.len(),
            forall|j: int| 0 <= j < i ==> !in_class(k, #[trigger] s@[j]),
        decreases s.len() - i,
    {
        if k.admits(s[i]) {
            return true;
        }
        i += 1;
    }
    false
}

// ---------------------------------------------------------------------------
// Trimming
// ---------------------------------------------------------------------------

/// `s` without its leading run of class `k`.
pub open spec fn trim_start(s: Seq<char>, k: Class) -> Seq<char> {
    s.skip(span(s, k, true) as int)
}

/// `s` without its trailing run of class `k`.
pub open spec fn trim_end(s: Seq<char>, k: Class) -> Seq<char> {
    s.take(s.len() - back_span(s, k))
}

/// `s` without the runs of class `k` at both ends.
pub open spec fn trim(s: Seq<char>, k: Class) -> Seq<char> {
    trim_end(trim_start(s, k), k)
}

pub fn trimmed_start<'a>(s: &'a [char], k: Class) -> (r: &'a [char])
    ensures
        r@ == trim_start(s@, k),
{
    let i: usize = span_end(s, 0, k, true);
    proof {
        assert(s@.skip(0) =~= s@);
        assert(s@.subrange(i as int, s@.len() as int) =~= s@.skip(i as int));
    }
    slice_subrange(s, i, s.len())
}

pub fn trimmed_end<'a>(s: &'a [char], k: Class) -> (r: &'a [char])
    ensures
        r@ == trim_end(s@, k),
{
    let j: usize = back_span_start(s, k);
    proof {
        assert(s@.subrange(0, j as int) =~= s@.take(j as int));
    }
    slice_subrange(s, 0, j)
}

pub fn trimmed<'a>(s: &'a [char], k: Class) -> (r: &'a [char])
    ensures
        r@ == trim(s@, k),
{
    trimmed_end(trimmed_start(s, k), k)
}

// ---------------------------------------------------------------------------
// Conversions and equality
// ---------------------------------------------------------------------------

/// The characters of a string.
pub fn chars_of(s: &str) -> (r: Vec<char>)
    ensures
        r@ == s@,
{
    let mut out: Vec<char> = Vec::new();
    for c in it: s.chars()
        invariant
            it.seq() == s@,
            out@ == s@.take(it.index()),
    {
        out.push(c);
    }
    assert(s@.take(s@.len() as int) =~= s@);
    out
}

/// The string made of the given characters.
pub fn text_of(s: &[char]) -> (r: String)
    ensures
        r@ == s@,
{
    let mut out = String::new();
    push_all(&mut out, s);
    assert(Seq::<char>::empty() + s@ =~= s@);
    out
}

/// Appends characters to a string.
pub fn push_all(out: &mut String, s: &[char])
    ensures
        final(out)@ == old(out)@ + s@,
{
    let ghost before = out@;
    let mut i: usize = 0;
    assert(before + s@.take(0) =~= before);
    while i < s.len()
        invariant
            i <= s@.len(),
            out@ == before + s@.take(i as int),
        decreases s.len() - i,
    {
        out.push(s[i]);
        assert(before + s@.take(i as int + 1) =~= (before + s@.take(i as int)).push(s@[i as int]));
        i += 1;
    }
    assert(s@.take(s@.len() as int) =~= s@);
}

/// Appends a string to a string.
pub fn push_str(out: &mut String, s: &str)
    ensures
        final(out)@ == old(out)@ + s@,
{
    out.append(s);
}

/// Two strings with the same bytes have the same characters.
pub proof fn lemma_bytes_determine_text(a: Seq<char>, b: Seq<char>)
    ensures
        encode_utf8(a) == encode_utf8(b) <==> a == b,
{
    encode_utf8_decode_utf8(a);
    encode_utf8_decode_utf8(b);
}

pub proof fn lemma_empty_bytes(s: Seq<char>)
    ensures
        encode_utf8(s).len() == 0 <==> s.len() == 0,
{
    lemma_bytes_determine_text(s, Seq::empty());
    if encode_utf8(s).len() == 0 {
        assert(encode_utf8(s) =~= encode_utf8(Seq::empty()));
    }
}

/// Whether two runs of bytes are the same.
pub fn same_bytes(a: &[u8], b: &[u8]) -> (r: bool)
    ensures
        r == (a@ == b@),
{
    if a.len() != b.len() {
        return false;
    }
    let mut i: usize = 0;
    while i < a.len()
        invariant
            i <= a@.len(),
            a@.len() == b@.len(),
            forall|j: int| 0 <= j < i ==> a@[j] == b@[j],
        decreases a.len() - i,
    {
        if a[i] != b[i] {
            return false;
        }
        i += 1;
    }
    assert(a@ =~= b@);
    true
}

/// Whether two strings are equal.
pub fn same_text(a: &str, b: &str) -> (r: bool)
    ensures
        r == (a@ == b@),
{
    proof {
        lemma_bytes_determine_text(a@, b@);
    }
    same_bytes(a.as_bytes(), b.as_bytes())
}

/// Whether two character slices are equal.
pub fn same_chars(a: &[char], b: &[char]) -> (r: bool)
    ensures
        r == (a@ == b@),
{
    a.len() == b.len() && begins_with(a, b)
}

/// `s` begins with `p`.
pub open spec fn starts_with(s: Seq<char>, p: Seq<char>) -> bool {
    p.len() <= s.len() && s.take(p.len() as int) == p
}

/// `s` ends with `p`.
pub open spec fn ends_with(s: Seq<char>, p: Seq<char>) -> bool {
    p.len() <= s.len() && s.skip(s.len() - p.len()) == p
}

/// Whether `s` begins with `p`.
pub fn begins_with(s: &[char], p: &[char]) -> (r: bool)
    ensures
        r == starts_with(s@, p@),
        s@.len() == p@.len() ==> r == (s@ == p@),
{
    if s.len() < p.len() {
        return false;
    }
    let mut i: usize = 0;
    while i < p.len()
        invariant
            i <= p@.len() <= s@.len(),
            forall|j: int| 0 <= j < i ==> s@[j] == p@[j],
        decreases p.len() - i,
    {
        if s[i] != p[i] {
            assert(s@.take(p@.len() as int)[i as int] != p@[i as int]);
            return false;
        }
        i += 1;
    }
    proof {
        assert(s@.take(p@.len() as int) =~= p@);
        if s@.len() == p@.len() {
            assert(s@ =~= p@);
        }
    }
    true
}

/// Whether `s` begins with the string `p`.
pub fn begins_with_str(s: &[char], p: &str) -> (r: bool)
    ensures
        r == starts_with(s@, p@),
{
    let mut i: usize = 0;
    for c in it: p.chars()
        invariant
            it.seq() == p@,
            i == it.index(),
            i <= s@.len(),
            forall|j: int| 0 <= j < i ==> s@[j] == p@[j],
    {
        if i >= s.len() || s[i] != c {
            assert(c == p@[i as int]);
            assert(!starts_with(s@, p@)) by {
                if starts_with(s@, p@) {
                    assert(s@.take(p@.len() as int)[i as int] == p@[i as int]);
                }
            }
            return false;
        }
        i += 1;
    }
    assert(s@.take(p@.len() as int) =~= p@);
    true
}

/// Whether `s` is the string `p`.
pub fn same_as(s: &[char], p: &str) -> (r: bool)
    ensures
        r == (s@ == p@),
{
    let n: usize = p.unicode_len();
    let r = n == s.len() && begins_with_str(s, p);
    proof {
        assert(s@.take(s@.len() as int) =~= s@);
    }
    r
}

/// Whether `s` ends with the string `p`.
pub fn closes_with_str(s: &[char], p: &str) -> (r: bool)
    ensures
        r == ends_with(s@, p@),
{
    let n: usize = p.unicode_len();
    if n > s.len() {
        return false;
    }
    let tail = slice_subrange(s, s.len() - n, s.len());
    proof {
        assert(tail@ =~= s@.skip(s@.len() - p@.len()));
    }
    same_as(tail, p)
}

/// The part of `s` from `i` on.
pub fn from_index<'a>(s: &'a [char], i: usize) -> (r: &'a [char])
    requires
        i <= s@.len(),
    ensures
        r@ == s@.skip(i as int),
{
    assert(s@.subrange(i as int, s@.len() as int) =~= s@.skip(i as int));
    slice_subrange(s, i, s.len())
}

/// The first `i` characters of `s`.
pub fn up_to<'a>(s: &'a [char], i: usize) -> (r: &'a [char])
    requires
        i <= s@.len(),
    ensures
        r@ == s@.take(i as int),
{
    assert(s@.subrange(0, i as int) =~= s@.take(i as int));
    slice_subrange(s, 0, i)
}

// ---------------------------------------------------------------------------
// Splitting
// ---------------------------------------------------------------------------

/// What the slices of a list hold.
pub open spec fn pieces(v: Seq<&[char]>) -> Seq<Seq<char>> {
    v.map_values(|p: &[char]| p@)
}

/// The pieces of `s` between the occurrences of `sep`; always at least one.
pub open spec fn split_on(s: Seq<char>, sep: char) -> Seq<Seq<char>>
    decreases s.len(),
{
    let n = span(s, Class::Only(sep), false);
    if n >= s.len() {
        seq![s]
    } else {
        proof {
            lemma_span(s, Class::Only(sep), false);
        }
        seq![s.take(n as int)] + split_on(s.skip(n as int + 1), sep)
    }
}

/// The maximal runs of characters outside the class `k`.
pub open spec fn words(s: Seq<char>, k: Class) -> Seq<Seq<char>>
    decreases s.len(),
{
    let t = trim_start(s, k);
    let n = span(t, k, false);
    if 0 < n <= t.len() <= s.len() {
        seq![t.take(n as int)] + words(t.skip(n as int), k)
    } else {
        Seq::empty()
    }
}

/// A line without the carriage return that a line feed followed.
pub open spec fn without_return(line: Seq<char>) -> Seq<char> {
    if line.len() > 0 && line.last() == '\r' {
        line.drop_last()
    } else {
        line
    }
}

/// The lines of a text. A final line feed starts no further line.
pub open spec fn lines(s: Seq<char>) -> Seq<Seq<char>>
    decreases s.len(),
{
    let n = span(s, Class::Only('\n'), false);
    if s.len() == 0 {
        Seq::empty()
    } else if n >= s.len() {
        seq![s]
    } else {
        seq![without_return(s.take(n as int))] + lines(s.skip(n as int + 1))
    }
}

/// The part before and the part after the first `sep`.
pub open spec fn split_once(s: Seq<char>, sep: char) -> Option<(Seq<char>, Seq<char>)> {
    let n = span(s, Class::Only(sep), false);
    if n >= s.len() {
        None
    } else {
        Some((s.take(n as int), s.skip(n as int + 1)))
    }
}

proof fn lemma_pieces_push(v: Seq<&[char]>, p: &[char])
    ensures
        pieces(v.push(p)) == pieces(v).push(p@),
{
    assert(pieces(v.push(p)) =~= pieces(v).push(p@));
}

/// The pieces between the occurrences of `sep`.
pub fn split_pieces<'a>(s: &'a [char], sep: char) -> (r: Vec<&'a [char]>)
    ensures
        pieces(r@) == split_on(s@, sep),
        r@.len() >= 1,
{
    let mut out: Vec<&'a [char]> = Vec::new();
    let mut start: usize = 0;
    assert(s@.skip(0) =~= s@);
    assert(pieces(out@) + split_on(s@, sep) =~= split_on(s@, sep));
    loop
        invariant
            start <= s@.len(),
            pieces(out@) + split_on(s@.skip(start as int), sep) == split_on(s@, sep),
        decreases s@.len() - start,
    {
        let end: usize = span_end(s, start, Class::Only(sep), false);
        let piece = slice_subrange(s, start, end);
        let ghost rest = s@.skip(start as int);
        let ghost before = out@;
        out.push(piece);
        proof {
            lemma_pieces_push(before, piece);
        }
        if end >= s.len() {
            assert(piece@ =~= rest);
            assert(pieces(before) + seq![rest] =~= pieces(out@));
            return out;
        }
        proof {
            assert(piece@ =~= rest.take(end - start));
            assert(rest.skip(end - start + 1) =~= s@.skip(end as int + 1));
            assert(pieces(before) + (seq![piece@] + split_on(s@.skip(end as int + 1), sep)) =~= pieces(
                out@,
            ) + split_on(s@.skip(end as int + 1), sep));
        }
        start = end + 1;
    }
}

/// The maximal runs outside the class `k`.
pub fn word_pieces<'a>(s: &'a [char], k: Class) -> (r: Vec<&'a [char]>)
    ensures
        pieces(r@) == words(s@, k),
{
    let mut out: Vec<&'a [char]> = Vec::new();
    let mut start: usize = 0;
    assert(s@.skip(0) =~= s@);
    assert(pieces(out@) + words(s@, k) =~= words(s@, k));
    loop
        invariant
            start <= s@.len(),
            pieces(out@) + words(s@.skip(start as int), k) == words(s@, k),
        decreases s@.len() - start,
    {
        let from: usize = span_end(s, start, k, true);
        let end: usize = span_end(s, from, k, false);
        let ghost rest = s@.skip(start as int);
        let ghost t = trim_start(rest, k);
        proof {
            assert(t =~= s@.skip(from as int));
        }
        if end == from {
            assert(words(rest, k) =~= Seq::empty());
            assert(pieces(out@) + words(rest, k) =~= pieces(out@));
            return out;
        }
        let piece = slice_subrange(s, from, end);
        let ghost before = out@;
        out.push(piece);
        proof {
            lemma_pieces_push(before, piece);
            assert(piece@ =~= t.take(end - from));
            assert(t.skip(end - from) =~= s@.skip(end as int));
            assert(pieces(before) + (seq![piece@] + words(s@.skip(end as int), k)) =~= pieces(out@)
                + words(s@.skip(end as int), k));
        }
        start = end;
    }
}

/// Where the maximal runs outside the class `k` start and end.
pub fn word_bounds(s: &[char], k: Class) -> (r: Vec<(usize, usize)>)
    ensures
        r@.len() == words(s@, k).len(),
        forall|i: int|
            0 <= i < r@.len() ==> {
                &&& (#[trigger] r@[i]).0 < r@[i].1 <= s@.len()
                &&& words(s@, k)[i] == s@.subrange(r@[i].0 as int, r@[i].1 as int)
            },
{
    let mut out: Vec<(usize, usize)> = Vec::new();
    let mut start: usize = 0;
    let ghost mut found: Seq<Seq<char>> = Seq::empty();
    assert(s@.skip(0) =~= s@);
    assert(found + words(s@, k) =~= words(s@, k));
    loop
        invariant
            start <= s@.len(),
            found + words(s@.skip(start as int), k) == words(s@, k),
            out@.len() == found.len(),
            forall|i: int|
                0 <= i < out@.len() ==> {
                    &&& (#[trigger] out@[i]).0 < out@[i].1 <= s@.len()
                    &&& found[i] == s@.subrange(out@[i].0 as int, out@[i].1 as int)
                },
        decreases s@.len() - start,
    {
        let from: usize = span_end(s, start, k, true);
        let end: usize = span_end(s, from, k, false);
        let ghost rest = s@.skip(start as int);
        let ghost t = trim_start(rest, k);
        proof {
            assert(t =~= s@.skip(from as int));
        }
        if end == from {
            assert(words(rest, k) =~= Seq::empty());
            assert(found + words(rest, k) =~= found);
            return out;
        }
        out.push((from, end));
        proof {
            let piece = s@.subrange(from as int, end as int);
            assert(piece =~= t.take(end - from));
            assert(t.skip(end - from) =~= s@.skip(end as int));
            assert(found + (seq![piece] + words(s@.skip(end as int), k)) =~= found.push(piece)
                + words(s@.skip(end as int), k));
            found = found.push(piece);
        }
        start = end;
    }
}

/// The lines of a text.
pub fn line_pieces<'a>(s: &'a [char]) -> (r: Vec<&'a [char]>)
    ensures
        pieces(r@) == lines(s@),
{
    let mut out: Vec<&'a [char]> = Vec::new();
    let mut start: usize = 0;
    assert(s@.skip(0) =~= s@);
    assert(pieces(out@) + lines(s@) =~= lines(s@));
    while start < s.len()
        invariant
            start <= s@.len(),
            pieces(out@) + lines(s@.skip(start as int)) == lines(s@),
        decreases s@.len() - start,
    {
        let end: usize = span_end(s, start, Class::Only('\n'), false);
        let ghost rest = s@.skip(start as int);
        let ghost before = out@;
        if end >= s.len() {
            let piece = from_index(s, start);
            out.push(piece);
            proof {
                lemma_pieces_push(before, piece);
                assert(pieces(before) + seq![rest] =~= pieces(out@));
            }
            return out;
        }
        let whole = slice_subrange(s, start, end);
        let piece = if end > start && s[end - 1] == '\r' {
            slice_subrange(s, start, end - 1)
        } else {
            whole
        };
        out.push(piece);
        proof {
            lemma_pieces_push(before, piece);
            assert(whole@ =~= rest.take(end - start));
            assert(piece@ =~= without_return(whole@));
            assert(rest.skip(end - start + 1) =~= s@.skip(end as int + 1));
            assert(pieces(before) + (seq![piece@] + lines(s@.skip(end as int + 1))) =~= pieces(out@)
                + lines(s@.skip(end as int + 1)));
        }
        start = end + 1;
    }
    proof {
        assert(s@.skip(start as int) =~= Seq::<char>::empty());
        assert(pieces(out@) + lines(s@.skip(start as int)) =~= pieces(out@));
    }
    out
}

// ---------------------------------------------------------------------------
// Searching and replacing
// ---------------------------------------------------------------------------

/// `p` stands in `s` at position `i`.
pub open spec fn occurs_at(s: Seq<char>, p: Seq<char>, i: int) -> bool {
    0 <= i && i + p.len() <= s.len() && s.subrange(i, i + p.len()) == p
}

/// `p` stands somewhere in `s`.
pub open spec fn contains_text(s: Seq<char>, p: Seq<char>) -> bool {
    exists|i: int| occurs_at(s, p, i)
}

/// The first position from `i` on at which `p` stands in `s`.
pub open spec fn find_from(s: Seq<char>, p: Seq<char>, i: int) -> Option<int>
    decreases s.len() - i + 1,
{
    if i < 0 || i > s.len() {
        None
    } else if occurs_at(s, p, i) {
        Some(i)
    } else {
        find_from(s, p, i + 1)
    }
}

/// The first position at which `p` stands in `s`.
pub open spec fn find_text(s: Seq<char>, p: Seq<char>) -> Option<int> {
    find_from(s, p, 0)
}

/// A found position is an occurrence with none before it, and none is missed.
pub proof fn lemma_find_from(s: Seq<char>, p: Seq<char>, i: int)
    requires
        0 <= i,
    ensures
        match find_from(s, p, i) {
            Some(n) => {
                &&& i <= n
                &&& occurs_at(s, p, n)
                &&& forall|j: int| i <= j < n ==> !occurs_at(s, p, j)
            },
            None => forall|j: int| i <= j ==> !occurs_at(s, p, j),
        },
    decreases s.len() - i + 1,
{
    if i <= s.len() && !occurs_at(s, p, i) {
        lemma_find_from(s, p, i + 1);
    }
}

/// The first position at which `p` stands in `s`.
pub fn find_chars(s: &[char], p: &[char], from: usize) -> (r: Option<usize>)
    requires
        from <= s@.len(),
    ensures
        match find_from(s@, p@, from as int) {
            Some(n) => r == Some(n as usize) && n <= s@.len() && n <= usize::MAX,
            None => r is None,
        },
        r is Some ==> from <= r->Some_0 && r->Some_0 + p@.len() <= s@.len(),
{
    let mut i: usize = from;
    loop
        invariant
            from <= i <= s@.len(),
            find_from(s@, p@, i as int) == find_from(s@, p@, from as int),
        decreases s@.len() - i,
    {
        let rest = from_index(s, i);
        let found = begins_with(rest, p);
        proof {
            if p@.len() <= rest@.len() {
                assert(s@.subrange(i as int, i + p@.len()) =~= rest@.take(p@.len() as int));
            }
            assert(found == occurs_at(s@, p@, i as int));
        }
        if found {
            return Some(i);
        }
        if i == s.len() {
            assert(find_from(s@, p@, i + 1) is None);
            return None;
        }
        i += 1;
    }
}

/// Whether the string `p` stands somewhere in `s`.
pub fn has_text(s: &[char], p: &str) -> (r: bool)
    ensures
        r == contains_text(s@, p@),
{
    let pattern = chars_of(p);
    let found = find_chars(s, pattern.as_slice(), 0);
    proof {
        lemma_find_from(s@, p@, 0);
        if found is None {
            assert(forall|j: int| occurs_at(s@, p@, j) ==> 0 <= j);
        }
    }
    found.is_some()
}

/// `s` with every occurrence of `p`, taken from the left without overlap,
/// replaced by `with`.
pub open spec fn replace_all(s: Seq<char>, p: Seq<char>, with: Seq<char>) -> Seq<char>
    decreases s.len(),
{
    match find_text(s, p) {
        Some(n) => if p.len() > 0 && 0 <= n && n + p.len() <= s.len() {
            s.take(n) + with + replace_all(s.skip(n + p.len()), p, with)
        } else {
            s
        },
        None => s,
    }
}

proof fn lemma_occurs_shift(s: Seq<char>, p: Seq<char>, base: int, i: int)
    requires
        0 <= base <= s.len(),
        0 <= i,
    ensures
        occurs_at(s, p, base + i) == occurs_at(s.skip(base), p, i),
{
    let t = s.skip(base);
    if i + p.len() <= t.len() {
        assert(t.subrange(i, i + p.len()) =~= s.subrange(base + i, base + i + p.len()));
    }
}

proof fn lemma_find_shift(s: Seq<char>, p: Seq<char>, base: int, i: int)
    requires
        0 <= base <= s.len(),
        0 <= i,
    ensures
        match find_from(s.skip(base), p, i) {
            Some(n) => find_from(s, p, base + i) == Some(base + n),
            None => find_from(s, p, base + i) is None,
        },
    decreases s.len() - base - i + 1,
{
    let t = s.skip(base);
    lemma_occurs_shift(s, p, base, i);
    if i <= t.len() && !occurs_at(t, p, i) {
        lemma_find_shift(s, p, base, i + 1);
    }
}

/// `s` with every occurrence of `p` replaced by `with`.
pub fn replaced(s: &[char], p: &[char], with: &[char]) -> (r: Vec<char>)
    requires
        p@.len() > 0,
    ensures
        r@ == replace_all(s@, p@, with@),
{
    let mut out: Vec<char> = Vec::new();
    let mut start: usize = 0;
    assert(s@.skip(0) =~= s@);
    assert(out@ + replace_all(s@, p@, with@) =~= replace_all(s@, p@, with@));
    loop
        invariant
            start <= s@.len(),
            p@.len() > 0,
            out@ + replace_all(s@.skip(start as int), p@, with@) == replace_all(s@, p@, with@),
        decreases s@.len() - start,
    {
        let ghost rest = s@.skip(start as int);
        proof {
            lemma_find_shift(s@, p@, start as int, 0);
            lemma_find_from(rest, p@, 0);
        }
        match find_chars(s, p, start) {
            None => {
                extend(&mut out, from_index(s, start));
                return out;
            },
            Some(n) => {
                let ghost before = out@;
                extend(&mut out, slice_subrange(s, start, n));
                extend(&mut out, with);
                proof {
                    assert(s@.subrange(start as int, n as int) =~= rest.take(n - start));
                    assert(rest.skip(n - start + p@.len()) =~= s@.skip(n + p@.len()));
                    assert(before + (rest.take(n - start) + with@ + replace_all(
                        s@.skip(n + p@.len()),
                        p@,
                        with@,
                    )) =~= out@ + replace_all(s@.skip(n + p@.len()), p@, with@));
                }
                assert(n + p@.len() <= s.len());
                start = n + p.len();
            },
        }
    }
}

/// Appends characters to a vector.
pub fn extend(out: &mut Vec<char>, s: &[char])
    ensures
        final(out)@ == old(out)@ + s@,
{
    let ghost before = out@;
    let mut i: usize = 0;
    assert(before + s@.take(0) =~= before);
    while i < s.len()
        invariant
            i <= s@.len(),
            out@ == before + s@.take(i as int),
        decreases s.len() - i,
    {
        out.push(s[i]);
        assert(before + s@.take(i as int + 1) =~= (before + s@.take(i as int)).push(s@[i as int]));
        i += 1;
    }
    assert(s@.take(s@.len() as int) =~= s@);
}

// ---------------------------------------------------------------------------
// Case
// ---------------------------------------------------------------------------

/// `c` with an ASCII capital made small.
pub open spec fn lower_char(c: char) -> char {
    if ascii_upper(c) {
        ((c as u32 + 32) as u32) as char
    } else {
        c
    }
}

/// `c` with an ASCII small letter made capital.
pub open spec fn upper_char(c: char) -> char {
    if ascii_lower(c) {
        ((c as u32 - 32) as u32) as char
    } else {
        c
    }
}

/// `s` with its ASCII capitals made small.
pub open spec fn lower(s: Seq<char>) -> Seq<char> {
    s.map_values(|c: char| lower_char(c))
}

/// `s` with its ASCII small letters made capital.
pub open spec fn upper(s: Seq<char>) -> Seq<char> {
    s.map_values(|c: char| upper_char(c))
}

pub fn lowered(s: &[char]) -> (r: Vec<char>)
    ensures
        r@ == lower(s@),
{
    let mut out: Vec<char> = Vec::new();
    let mut i: usize = 0;
    while i < s.len()
        invariant
            i <= s@.len(),
            out@.len() == i,
            forall|j: int| 0 <= j < i ==> out@[j] == lower_char(s@[j]),
        decreases s.len() - i,
    {
        let c = s[i];
        let d = if 'A' <= c && c <= 'Z' {
            ((c as u8) + 32) as char
        } else {
            c
        };
        out.push(d);
        i += 1;
    }
    assert(out@ =~= lower(s@));
    out
}

pub fn uppered(s: &[char]) -> (r: Vec<char>)
    ensures
        r@ == upper(s@),
{
    let mut out: Vec<char> = Vec::new();
    let mut i: usize = 0;
    while i < s.len()
        invariant
            i <= s@.len(),
            out@.len() == i,
            forall|j: int| 0 <= j < i ==> out@[j] == upper_char(s@[j]),
        decreases s.len() - i,
    {
        let c = s[i];
        let d = if 'a' <= c && c <= 'z' {
            ((c as u8) - 32) as char
        } else {
            c
        };
        out.push(d);
        i += 1;
    }
    assert(out@ =~= upper(s@));
    out
}

// ---------------------------------------------------------------------------
// Joining and filtering
// ---------------------------------------------------------------------------

/// The pieces of a list in order, with `sep` between neighbours.
pub open spec fn join(list: Seq<Seq<char>>, sep: Seq<char>) -> Seq<char>
    decreases list.len(),
{
    if list.len() == 0 {
        Seq::empty()
    } else if list.len() == 1 {
        list[0]
    } else {
        join(list.drop_last(), sep) + sep + list.last()
    }
}

/// The pieces of a list with one character between neighbours.
pub fn joined(list: &Vec<&[char]>, sep: char) -> (r: Vec<char>)
    ensures
        r@ == join(pieces(list@), seq![sep]),
{
    let mut out: Vec<char> = Vec::new();
    let mut i: usize = 0;
    let ghost all = pieces(list@);
    while i < list.len()
        invariant
            i <= list@.len(),
            all == pieces(list@),
            out@ == join(all.take(i as int), seq![sep]),
        decreases list.len() - i,
    {
        proof {
            assert(all.take(i + 1).drop_last() =~= all.take(i as int));
            assert(all.take(i + 1).last() == list@[i as int]@);
        }
        if i > 0 {
            let ghost before = out@;
            out.push(sep);
            assert(out@ =~= before + seq![sep]);
        }
        let ghost before = out@;
        extend(&mut out, list[i]);
        assert(i == 0 ==> out@ =~= list@[0]@);
        i += 1;
    }
    assert(all.take(all.len() as int) =~= all);
    out
}

/// Whether a character has the Unicode property `Alphabetic`.
pub uninterp spec fn alphabetic(c: char) -> bool;

/// `char::is_alphabetic` tells whether a character has the Unicode property
/// `Alphabetic`, which among the ASCII characters the letters have.
pub assume_specification[ char::is_alphabetic ](c: char) -> (b: bool)
    ensures
        b == alphabetic(c),
        c <= '\u{7f}' ==> b == ascii_letter(c),
;

/// Some character of `s` is alphabetic.
pub open spec fn some_alphabetic(s: Seq<char>) -> bool {
    exists|i: int| 0 <= i < s.len() && alphabetic(#[trigger] s[i])
}

pub fn has_alphabetic(s: &[char]) -> (b: bool)
    ensures
        b == some_alphabetic(s@),
{
    let mut i: usize = 0;
    while i < s.len()
        invariant
            i <= s@.len(),
            forall|j: int| 0 <= j < i ==> !alphabetic(#[trigger] s@[j]),
        decreases s.len() - i,
    {
        if s[i].is_alphabetic() {
            return true;
        }
        i += 1;
    }
    false
}

} // verus!
