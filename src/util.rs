//! Lexical parsers (junk, symbols, numbers, booleans, keywords and
//! punctuation) and the combinators that classify parse failures.

use vstd::prelude::*;
use crate::chars::{
    ascii_lower, ascii_upper, digit, is_alphabetic, is_alphanumeric, is_lowercase, is_uppercase, is_whitespace, lowercase,
    uppercase, whitespace, word_char, word_start,
};
use crate::input::{Input, ParseError, texts};

verus! {

/// Where the junk that starts at `i` ends: whitespace, and comments that run
/// from `#` to a line break (which they include).
pub open spec fn junk_end(cs: Seq<char>, i: int, comment: bool) -> int
    decreases cs.len() - i,
{
    if i < 0 || i >= cs.len() {
        i
    } else if comment {
        if cs[i] == '\n' || cs[i] == '\r' {
            junk_end(cs, i + 1, false)
        } else {
            junk_end(cs, i + 1, true)
        }
    } else if whitespace(cs[i]) {
        junk_end(cs, i + 1, false)
    } else if cs[i] == '#' {
        junk_end(cs, i + 1, true)
    } else {
        i
    }
}

/// The first position at or after `i` that is not junk.
pub open spec fn skip_junk(cs: Seq<char>, i: int) -> int {
    junk_end(cs, i, false)
}

/// The end of the run of symbol characters that starts at `i`.
pub open spec fn word_end(cs: Seq<char>, i: int) -> int
    decreases cs.len() - i,
{
    if 0 <= i < cs.len() && word_char(cs[i]) {
        word_end(cs, i + 1)
    } else {
        i
    }
}

/// The end of the run of decimal digits that starts at `i`.
pub open spec fn digits_end(cs: Seq<char>, i: int) -> int
    decreases cs.len() - i,
{
    if 0 <= i < cs.len() && digit(cs[i]) {
        digits_end(cs, i + 1)
    } else {
        i
    }
}

/// The value of a sequence of decimal digits.
pub open spec fn digits_value(ds: Seq<char>) -> nat
    decreases ds.len(),
{
    if ds.len() == 0 {
        0
    } else {
        digits_value(ds.drop_last()) * 10 + ((ds.last() as int) - ('0' as int)) as nat
    }
}

/// Whether a symbol starts at `j`.
pub open spec fn symbol_at(cs: Seq<char>, j: int) -> bool {
    0 <= j < cs.len() && word_start(cs[j])
}

/// Where the symbol that starts at `j` ends.
pub open spec fn symbol_end(cs: Seq<char>, j: int) -> int {
    word_end(cs, j + 1)
}

/// The text of the symbol that starts at `j`.
pub open spec fn symbol_text(cs: Seq<char>, j: int) -> Seq<char> {
    cs.subrange(j, symbol_end(cs, j))
}

/// Whether the text `v` stands at `j`.
pub open spec fn text_at(cs: Seq<char>, j: int, v: Seq<char>) -> bool {
    0 <= j && j + v.len() <= cs.len() && cs.subrange(j, j + v.len()) == v
}

/// Whether no symbol character follows position `k`.
pub open spec fn word_boundary(cs: Seq<char>, k: int) -> bool {
    k == cs.len() || !word_char(cs[k])
}

/// The boolean that the symbol at `j` spells, if it spells one.
pub open spec fn bool_literal(cs: Seq<char>, j: int) -> Option<bool> {
    if symbol_at(cs, j) && symbol_text(cs, j) == "true"@ {
        Some(true)
    } else if symbol_at(cs, j) && symbol_text(cs, j) == "false"@ {
        Some(false)
    } else {
        None
    }
}

/// Whether a decimal number that fits in 64 bits starts at `p`.
pub open spec fn number_at(cs: Seq<char>, p: int) -> bool {
    0 <= p < cs.len() && digit(cs[p]) && digits_value(cs.subrange(p, digits_end(cs, p))) <= i64::MAX
}

/// The value of the decimal number that starts at `p`.
pub open spec fn number_value(cs: Seq<char>, p: int) -> int {
    digits_value(cs.subrange(p, digits_end(cs, p))) as int
}

/// A word of ASCII letters.
pub open spec fn ascii_word(w: Seq<char>) -> bool {
    forall|i: int| 0 <= i < w.len() ==> ascii_lower(#[trigger] w[i]) || ascii_upper(w[i])
}

proof fn lemma_word_end_through(cs: Seq<char>, a: int, b: int)
    requires
        0 <= a <= b <= cs.len(),
        forall|k: int| a <= k < b ==> word_char(#[trigger] cs[k]),
        b == cs.len() || !word_char(cs[b]),
    ensures
        word_end(cs, a) == b,
    decreases b - a,
{
    if a < b {
        lemma_word_end_through(cs, a + 1, b);
    }
}

/// A symbol is not empty, lies within the input, and starts with the
/// character at its start.
pub proof fn lemma_symbol_text(cs: Seq<char>, j: int)
    requires
        symbol_at(cs, j),
    ensures
        j < symbol_end(cs, j) <= cs.len(),
        symbol_text(cs, j).len() == symbol_end(cs, j) - j,
        symbol_text(cs, j)[0] == cs[j],
{
    lemma_word_end_bounds(cs, j + 1);
}

/// Where a symbol starts and a keyword made of ASCII letters stands there
/// as a word, the symbol is that keyword.
pub proof fn lemma_keyword_is_symbol(cs: Seq<char>, j: int, w: Seq<char>)
    requires
        symbol_at(cs, j),
        w.len() > 0,
        ascii_word(w),
        token_at(cs, j, w, true),
    ensures
        symbol_end(cs, j) == j + w.len(),
        symbol_text(cs, j) == w,
{
    assert forall|k: int| j + 1 <= k < j + w.len() implies word_char(#[trigger] cs[k]) by {
        assert(cs[k] == cs.subrange(j, j + w.len())[k - j]);
        assert(ascii_lower(w[k - j]) || ascii_upper(w[k - j]));
    }
    lemma_word_end_through(cs, j + 1, j + w.len());
}

/// The largest magnitude a number literal may have: that of `i64::MIN`.
pub const NUMBER_LIMIT: u64 = 9223372036854775808;

proof fn lemma_junk_end_bounds(cs: Seq<char>, i: int, comment: bool)
    requires
        0 <= i <= cs.len(),
    ensures
        i <= junk_end(cs, i, comment) <= cs.len(),
        junk_end(cs, i, comment) == cs.len() || (!whitespace(cs[junk_end(cs, i, comment)])
            && cs[junk_end(cs, i, comment)] != '#'),
        junk_end(cs, i, comment) < cs.len() ==> junk_end(cs, junk_end(cs, i, comment), false) == junk_end(cs, i, comment),
    decreases cs.len() - i,
{
    if i < cs.len() {
        if comment {
            if cs[i] == '\n' || cs[i] == '\r' {
                lemma_junk_end_bounds(cs, i + 1, false);
            } else {
                lemma_junk_end_bounds(cs, i + 1, true);
            }
        } else if whitespace(cs[i]) {
            lemma_junk_end_bounds(cs, i + 1, false);
        } else if cs[i] == '#' {
            lemma_junk_end_bounds(cs, i + 1, true);
        }
    }
}

/// Skipping junk twice skips no more than skipping it once.
pub proof fn lemma_skip_junk_idempotent(cs: Seq<char>, i: int)
    requires
        0 <= i <= cs.len(),
    ensures
        i <= skip_junk(cs, i) <= cs.len(),
        skip_junk(cs, skip_junk(cs, i)) == skip_junk(cs, i),
{
    lemma_junk_end_bounds(cs, i, false);
}

proof fn lemma_word_end_bounds(cs: Seq<char>, i: int)
    requires
        0 <= i <= cs.len(),
    ensures
        i <= word_end(cs, i) <= cs.len(),
    decreases cs.len() - i,
{
    if i < cs.len() && word_char(cs[i]) {
        lemma_word_end_bounds(cs, i + 1);
    }
}

pub proof fn lemma_digits_end_bounds(cs: Seq<char>, i: int)
    requires
        0 <= i <= cs.len(),
    ensures
        i <= digits_end(cs, i) <= cs.len(),
    decreases cs.len() - i,
{
    if i < cs.len() && digit(cs[i]) {
        lemma_digits_end_bounds(cs, i + 1);
    }
}

/// Skips whitespace and comments. Never fails.
pub fn parse_junk(input: &mut Input) -> (r: Result<(), ParseError>)
    requires
        old(input).wf(),
    ensures
        final(input).wf(),
        old(input).moved_to(final(input), skip_junk(old(input).chars(), old(input).pos())),
        old(input).went_on(final(input)),
        r is Ok,
{
    let ghost start = input.pos();
    let mut comment = false;
    proof {
        lemma_junk_end_bounds(input.chars(), input.pos(), false);
    }
    loop
        invariant
            input.wf(),
            input.chars() == old(input).chars(),
            junk_end(input.chars(), input.pos(), comment) == skip_junk(input.chars(), start),
            start == old(input).pos(),
            start <= input.pos(),
        decreases input.chars().len() - input.pos(),
    {
        match input.peek() {
            Ok(c) => {
                if comment {
                    if c == '\n' || c == '\r' {
                        comment = false;
                    }
                    let _ = input.next();
                } else if is_whitespace(c) {
                    let _ = input.next();
                } else if c == '#' {
                    comment = true;
                    let _ = input.next();
                } else {
                    return Ok(());
                }
            },
            Err(_) => {
                return Ok(());
            },
        }
    }
}

fn is_word_start(c: char) -> (r: bool)
    ensures
        r == word_start(c),
{
    is_alphabetic(c) || c == '_'
}

fn is_word_char(c: char) -> (r: bool)
    ensures
        r == word_char(c),
{
    is_alphanumeric(c) || c == '_'
}

/// Skips junk, then reads a symbol: a letter or `_`, then letters, digits
/// and `_`. Fails with `Error`, after the junk, where no symbol starts.
pub fn parse_symbol(input: &mut Input) -> (r: Result<String, ParseError>)
    requires
        old(input).wf(),
    ensures
        final(input).wf(),
        old(input).went_on(final(input)),
        r matches Ok(s) ==> s@.len() > 0 && final(input).pos() > old(input).pos(),
        ({
            let cs = old(input).chars();
            let j = skip_junk(cs, old(input).pos());
            if symbol_at(cs, j) {
                old(input).moved_to(final(input), symbol_end(cs, j)) && (r matches Ok(s) && s@ == symbol_text(cs, j))
            } else {
                old(input).moved_to(final(input), j) && (r matches Err(ParseError::Error))
            }
        }),
{
    let _ = parse_junk(input);
    proof {
        lemma_skip_junk_idempotent(old(input).chars(), old(input).pos());
    }
    let start = input.position();
    match input.peek() {
        Ok(c) => {
            if is_word_start(c) {
                let _ = input.next();
            } else {
                return Err(ParseError::Error);
            }
        },
        Err(_) => {
            return Err(ParseError::Error);
        },
    }
    proof {
        lemma_word_end_bounds(input.chars(), input.pos());
    }
    loop
        invariant
            input.wf(),
            input.chars() == old(input).chars(),
            old(input).pos() <= start < input.pos(),
            start == skip_junk(old(input).chars(), old(input).pos()),
            symbol_at(input.chars(), start as int),
            word_end(input.chars(), input.pos()) == symbol_end(input.chars(), start as int),
            symbol_end(input.chars(), start as int) <= input.chars().len(),
            input.pos() <= symbol_end(input.chars(), start as int),
        decreases input.chars().len() - input.pos(),
    {
        match input.peek() {
            Ok(c) => {
                if is_word_char(c) {
                    let _ = input.next();
                    proof {
                        lemma_word_end_bounds(input.chars(), input.pos());
                    }
                } else {
                    assert(word_end(input.chars(), input.pos()) == input.pos());
                    return Ok(input.text_since(start));
                }
            },
            Err(_) => {
                assert(word_end(input.chars(), input.pos()) == input.pos());
                return Ok(input.text_since(start));
            },
        }
    }
}

fn is_digit(c: char) -> (r: bool)
    ensures
        r == digit(c),
{
    '0' <= c && c <= '9'
}

/// Skips junk, then reads the digits that start at the cursor. Returns
/// their value, or `NUMBER_LIMIT + 1` where it is larger than `NUMBER_LIMIT`.
fn read_digits(input: &mut Input) -> (r: u64)
    requires
        old(input).wf(),
    ensures
        final(input).wf(),
        old(input).went_on(final(input)),
        old(input).moved_to(final(input), digits_end(old(input).chars(), old(input).pos())),
        ({
            let v = digits_value(old(input).chars().subrange(old(input).pos(), final(input).pos()));
            if v <= NUMBER_LIMIT {
                r == v
            } else {
                r == NUMBER_LIMIT + 1
            }
        }),
{
    let start = input.position();
    let mut value: u64 = 0;
    let mut too_big = false;
    proof {
        lemma_digits_end_bounds(input.chars(), input.pos());
        assert(input.chars().subrange(start as int, start as int) =~= Seq::<char>::empty());
    }
    loop
        invariant
            input.wf(),
            input.chars() == old(input).chars(),
            start == old(input).pos(),
            start <= input.pos() <= digits_end(input.chars(), start as int) <= input.chars().len(),
            digits_end(input.chars(), input.pos()) == digits_end(input.chars(), start as int),
            too_big ==> digits_value(input.chars().subrange(start as int, input.pos())) > NUMBER_LIMIT,
            !too_big ==> value == digits_value(input.chars().subrange(start as int, input.pos())),
            !too_big ==> value <= NUMBER_LIMIT,
        ensures
            input.pos() == digits_end(input.chars(), start as int),
        decreases input.chars().len() - input.pos(),
    {
        let ghost before = input.pos();
        match input.peek() {
            Ok(c) => {
                if is_digit(c) {
                    let _ = input.next();
                    proof {
                        lemma_digits_end_bounds(input.chars(), input.pos());
                    }
                    let d = (c as u32 - '0' as u32) as u64;
                    proof {
                        let cs = input.chars();
                        let ds = cs.subrange(start as int, input.pos());
                        assert(ds.drop_last() =~= cs.subrange(start as int, before));
                        assert(ds.last() == c);
                    }
                    if !too_big {
                        if value <= 1000000000000000000 {
                            value = value * 10 + d;
                            if value > NUMBER_LIMIT {
                                too_big = true;
                            }
                        } else {
                            too_big = true;
                        }
                    }
                } else {
                    assert(digits_end(input.chars(), input.pos()) == input.pos());
                    break;
                }
            },
            Err(_) => {
                assert(digits_end(input.chars(), input.pos()) == input.pos());
                break;
            },
        }
    }
    if too_big {
        NUMBER_LIMIT + 1
    } else {
        value
    }
}

/// Skips junk, then reads a decimal integer with an optional leading `-`.
/// Fails with `Error` where neither a digit nor `-` follows the junk; is
/// fatal on a `-` without digits, and on a value outside 64 bits.
pub fn parse_number(input: &mut Input) -> (r: Result<i64, ParseError>)
    requires
        old(input).wf(),
    ensures
        final(input).wf(),
        old(input).went_on(final(input)),
        r is Ok ==> final(input).pos() > old(input).pos(),
        (r matches Err(ParseError::Error))
            ==> old(input).moved_to(final(input), skip_junk(old(input).chars(), old(input).pos())),
        final(input).chars() == old(input).chars(),
        ({
            let cs = old(input).chars();
            let j = skip_junk(cs, old(input).pos());
            if j < cs.len() && digit(cs[j]) {
                let k = digits_end(cs, j);
                let v = digits_value(cs.subrange(j, k));
                &&& final(input).pos() == k
                &&& v <= i64::MAX ==> r == Ok::<i64, ParseError>(v as i64)
                &&& v > i64::MAX ==> (r matches Err(ParseError::Fatal(fs))
                    && texts(fs@) == seq!["number does not fit in 64 bits"@])
            } else if j < cs.len() && cs[j] == '-' {
                let k = digits_end(cs, j + 1);
                let v = digits_value(cs.subrange(j + 1, k));
                &&& final(input).pos() == k
                &&& k == j + 1 ==> (r matches Err(ParseError::Fatal(fs))
                    && texts(fs@) == seq!["encountered single '-'"@])
                &&& k > j + 1 && v <= NUMBER_LIMIT ==> r == Ok::<i64, ParseError>((-v) as i64)
                &&& k > j + 1 && v > NUMBER_LIMIT ==> (r matches Err(ParseError::Fatal(fs))
                    && texts(fs@) == seq!["number does not fit in 64 bits"@])
            } else {
                final(input).pos() == j && (r matches Err(ParseError::Error))
            }
        }),
{
    let _ = parse_junk(input);
    proof {
        lemma_skip_junk_idempotent(old(input).chars(), old(input).pos());
    }
    let negative = match input.peek() {
        Ok(c) => {
            if is_digit(c) {
                false
            } else if c == '-' {
                let _ = input.next();
                true
            } else {
                return Err(ParseError::Error);
            }
        },
        Err(_) => {
            return Err(ParseError::Error);
        },
    };
    let start = input.position();
    proof {
        let cs = input.chars();
        if !negative {
            assert(digits_end(cs, start as int) == digits_end(cs, start + 1));
            lemma_digits_end_bounds(cs, start + 1);
        }
    }
    let value = read_digits(input);
    if input.position() == start {
        return fail("encountered single '-'");
    }
    if negative {
        if value > NUMBER_LIMIT {
            fail("number does not fit in 64 bits")
        } else if value == NUMBER_LIMIT {
            Ok(i64::MIN)
        } else {
            Ok(-(value as i64))
        }
    } else {
        if value > 9223372036854775807 {
            fail("number does not fit in 64 bits")
        } else {
            Ok(value as i64)
        }
    }
}

/// Whether the symbol that starts at `j` starts with an upper-case letter
/// (`upper`) or a lower-case one.
pub open spec fn name_at(cs: Seq<char>, j: int, upper: bool) -> bool {
    symbol_at(cs, j) && (if upper { uppercase(cs[j]) } else { lowercase(cs[j]) })
}

/// Reads a symbol whose first letter is upper case (`upper`) or lower
/// case. Fails with `Error`, consuming nothing, otherwise.
pub fn parse_name(input: &mut Input, upper: bool) -> (r: Result<String, ParseError>)
    requires
        old(input).wf(),
    ensures
        final(input).wf(),
        old(input).went_on(final(input)),
        ({
            let cs = old(input).chars();
            let j = skip_junk(cs, old(input).pos());
            if name_at(cs, j, upper) {
                old(input).moved_to(final(input), symbol_end(cs, j)) && (r matches Ok(s) && s@ == symbol_text(cs, j))
                    && final(input).pos() > old(input).pos()
            } else {
                old(input).moved_to(final(input), old(input).pos()) && (r matches Err(ParseError::Error))
            }
        }),
{
    let rp = input.position();
    match parse_symbol(input) {
        Ok(sym) => {
            let first = sym.as_str().get_char(0);
            proof {
                lemma_skip_junk_idempotent(old(input).chars(), old(input).pos());
                let cs = old(input).chars();
                let j = skip_junk(cs, old(input).pos());
                assert(symbol_at(cs, j));
                lemma_word_end_bounds(cs, j + 1);
                assert(sym@[0] == symbol_text(cs, j)[0]);
                assert(first == cs[j]);
            }
            let fits = if upper { is_uppercase(first) } else { is_lowercase(first) };
            if fits {
                Ok(sym)
            } else {
                input.rewind(rp);
                Err(ParseError::Error)
            }
        },
        Err(_) => {
            input.rewind(rp);
            Err(ParseError::Error)
        },
    }
}

/// Skips junk, then reads the symbol `true` or `false`. Fails with
/// `Error`, consuming only the junk, on any other symbol or none.
pub fn parse_bool(input: &mut Input) -> (r: Result<bool, ParseError>)
    requires
        old(input).wf(),
    ensures
        final(input).wf(),
        old(input).went_on(final(input)),
        r is Ok ==> final(input).pos() > old(input).pos(),
        ({
            let cs = old(input).chars();
            let j = skip_junk(cs, old(input).pos());
            if symbol_at(cs, j) && symbol_text(cs, j) == "true"@ {
                old(input).moved_to(final(input), symbol_end(cs, j)) && r == Ok::<bool, ParseError>(true)
            } else if symbol_at(cs, j) && symbol_text(cs, j) == "false"@ {
                old(input).moved_to(final(input), symbol_end(cs, j)) && r == Ok::<bool, ParseError>(false)
            } else {
                old(input).moved_to(final(input), j) && (r matches Err(ParseError::Error))
            }
        }),
{
    let _ = parse_junk(input);
    proof {
        lemma_skip_junk_idempotent(old(input).chars(), old(input).pos());
    }
    let rp = input.position();
    match parse_symbol(input) {
        Ok(sym) => {
            if sym == String::from_str("true") {
                Ok(true)
            } else if sym == String::from_str("false") {
                Ok(false)
            } else {
                input.rewind(rp);
                Err(ParseError::Error)
            }
        },
        Err(_) => {
            input.rewind(rp);
            Err(ParseError::Error)
        },
    }
}

/// Whether `value` stands after the junk, as its own word for `keyword`
/// (`word` true) or anywhere for `punct`.
pub open spec fn token_at(cs: Seq<char>, j: int, value: Seq<char>, word: bool) -> bool {
    text_at(cs, j, value) && (word ==> word_boundary(cs, j + value.len()))
}

fn token(input: &mut Input, value: &str, word: bool) -> (r: Result<(), ParseError>)
    requires
        old(input).wf(),
    ensures
        final(input).wf(),
        old(input).went_on(final(input)),
        r is Ok ==> final(input).pos() >= old(input).pos() + value@.len(),
        ({
            let cs = old(input).chars();
            let j = skip_junk(cs, old(input).pos());
            if token_at(cs, j, value@, word) {
                old(input).moved_to(final(input), j + value@.len()) && r is Ok
            } else {
                old(input).moved_to(final(input), j) && (r matches Err(ParseError::Error))
            }
        }),
{
    let _ = parse_junk(input);
    proof {
        lemma_skip_junk_idempotent(old(input).chars(), old(input).pos());
    }
    let start = input.position();
    let n = value.unicode_len();
    let mut i: usize = 0;
    while i < n
        invariant
            input.wf(),
            input.chars() == old(input).chars(),
            start == skip_junk(old(input).chars(), old(input).pos()),
            old(input).pos() <= start,
            n == value@.len(),
            i <= n,
            input.pos() == start + i,
            input.chars().subrange(start as int, start + i) == value@.take(i as int),
        decreases n - i,
    {
        let c = value.get_char(i);
        match input.next() {
            Ok(v) => {
                if v != c {
                    input.rewind(start);
                    return Err(ParseError::Error);
                }
            },
            Err(_) => {
                input.rewind(start);
                return Err(ParseError::Error);
            },
        }
        i = i + 1;
        proof {
            assert(input.chars().subrange(start as int, start + i) =~= value@.take(i as int));
        }
    }
    proof {
        assert(value@.take(n as int) =~= value@);
    }
    if word {
        match input.peek() {
            Ok(v) => {
                if is_word_char(v) {
                    input.rewind(start);
                    return Err(ParseError::Error);
                }
            },
            Err(_) => {},
        }
    }
    Ok(())
}

/// Skips junk, then consumes the word `value` where no symbol character
/// follows it. Fails with `Error`, after the junk, otherwise.
pub fn keyword(input: &mut Input, value: &str) -> (r: Result<(), ParseError>)
    requires
        old(input).wf(),
    ensures
        final(input).wf(),
        old(input).went_on(final(input)),
        r is Ok ==> final(input).pos() >= old(input).pos() + value@.len(),
        ({
            let cs = old(input).chars();
            let j = skip_junk(cs, old(input).pos());
            if token_at(cs, j, value@, true) {
                old(input).moved_to(final(input), j + value@.len()) && r is Ok
            } else {
                old(input).moved_to(final(input), j) && (r matches Err(ParseError::Error))
            }
        }),
{
    token(input, value, true)
}

/// Skips junk, then consumes the text `value`. Fails with `Error`, after
/// the junk, where it does not follow.
pub fn punct(input: &mut Input, value: &str) -> (r: Result<(), ParseError>)
    requires
        old(input).wf(),
    ensures
        final(input).wf(),
        old(input).went_on(final(input)),
        r is Ok ==> final(input).pos() >= old(input).pos() + value@.len(),
        ({
            let cs = old(input).chars();
            let j = skip_junk(cs, old(input).pos());
            if token_at(cs, j, value@, false) {
                old(input).moved_to(final(input), j + value@.len()) && r is Ok
            } else {
                old(input).moved_to(final(input), j) && (r matches Err(ParseError::Error))
            }
        }),
{
    token(input, value, false)
}

/// Turns `Error` into "absent": `Ok(v)` becomes `Ok(Some(v))`, `Error`
/// becomes `Ok(None)`, and a fatal failure stays as it is.
pub fn maybe<T>(x: Result<T, ParseError>) -> (r: Result<Option<T>, ParseError>)
    ensures
        match x {
            Ok(v) => r == Ok::<Option<T>, ParseError>(Some(v)),
            Err(ParseError::Error) => r == Ok::<Option<T>, ParseError>(None),
            Err(ParseError::Fatal(fs)) => r == Err::<Option<T>, ParseError>(ParseError::Fatal(fs)),
        },
{
    match x {
        Ok(v) => Ok(Some(v)),
        Err(ParseError::Error) => Ok(None),
        Err(ParseError::Fatal(fs)) => Err(ParseError::Fatal(fs)),
    }
}

/// Makes any failure fatal, adding `message` as the outermost context.
pub fn fatal<T>(x: Result<T, ParseError>, message: &str) -> (r: Result<T, ParseError>)
    ensures
        match x {
            Ok(v) => r == Ok::<T, ParseError>(v),
            Err(ParseError::Error) => r matches Err(ParseError::Fatal(gs)) && texts(gs@) == seq![message@],
            Err(ParseError::Fatal(fs)) => r matches Err(ParseError::Fatal(gs)) && texts(gs@) == texts(fs@).push(message@),
        },
{
    match x {
        Ok(v) => Ok(v),
        Err(ParseError::Error) => fail(message),
        Err(ParseError::Fatal(fs)) => {
            let ghost before = fs@;
            let mut gs = fs;
            gs.push(String::from_str(message));
            proof {
                assert(texts(gs@) =~= texts(before).push(message@));
            }
            Err(ParseError::Fatal(gs))
        },
    }
}

/// A fatal failure with the single message `message`.
pub fn fail<T>(message: &str) -> (r: Result<T, ParseError>)
    ensures
        r matches Err(ParseError::Fatal(fs)) && texts(fs@) == seq![message@],
{
    let mut fs: Vec<String> = Vec::new();
    fs.push(String::from_str(message));
    proof {
        assert(texts(fs@) =~= seq![message@]);
    }
    Err(ParseError::Fatal(fs))
}

} // verus!
