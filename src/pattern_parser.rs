//! The parsers of the three pattern languages: standard patterns (match
//! arms), array patterns and path patterns. They share numbers, booleans,
//! constructors, `name @ p`, `_`, standard arrays `[p, ... | rest]`,
//! variables and an `if` guard; path patterns add `!`, `!n`, `&path:out`
//! and `!n&path:out`.

use vstd::prelude::*;
use crate::ast::{ArrayPattern, Expr, PathPattern, StandardArrayPattern, StandardPattern};
use crate::expr_parser::parse_expr;
use crate::input::{texts, Input, ParseError};
use crate::chars::{ascii_lower, digit};
use crate::util::{
    bool_literal, digits_end, number_at, number_value, lemma_symbol_text, digits_value, fail, fatal, keyword, lemma_skip_junk_idempotent, maybe, name_at, parse_bool,
    parse_name, parse_number, parse_symbol, punct, skip_junk, symbol_at, symbol_end, symbol_text, text_at, token_at,
};

verus! {

/// Whether no number starts at `p` (no digit and no `-`).
pub open spec fn no_number_at(cs: Seq<char>, p: int) -> bool {
    p >= cs.len() || !(digit(cs[p]) || cs[p] == '-')
}

/// Where the text after a `!` and its order (if any) continues.
pub open spec fn after_order(cs: Seq<char>, j: int) -> int {
    if number_at(cs, skip_junk(cs, j + 1)) {
        skip_junk(cs, digits_end(cs, skip_junk(cs, j + 1)))
    } else {
        skip_junk(cs, j + 1)
    }
}

/// Where the path name of `&path:out` at `q` starts.
pub open spec fn and_name_at(cs: Seq<char>, q: int) -> int {
    skip_junk(cs, q + 1)
}

/// Where the output name of `&path:out` at `q` starts.
pub open spec fn and_output_at(cs: Seq<char>, q: int) -> int {
    skip_junk(cs, skip_junk(cs, symbol_end(cs, and_name_at(cs, q))) + 1)
}

/// Whether a whole `&path:out` starts at `q`.
pub open spec fn and_at(cs: Seq<char>, q: int) -> bool {
    &&& text_at(cs, q, "&"@)
    &&& symbol_at(cs, and_name_at(cs, q))
    &&& text_at(cs, skip_junk(cs, symbol_end(cs, and_name_at(cs, q))), ":"@)
    &&& symbol_at(cs, and_output_at(cs, q))
}

/// Whether a plain variable pattern (no `@`, no guard) starts at `e`.
pub open spec fn var_pattern_at(cs: Seq<char>, e: int) -> bool {
    &&& symbol_at(cs, e)
    &&& ascii_lower(cs[e])
    &&& bool_literal(cs, e) is None
    &&& !text_at(cs, skip_junk(cs, symbol_end(cs, e)), "@"@)
    &&& !token_at(cs, skip_junk(cs, symbol_end(cs, e)), "if"@, true)
}

/// Whether a bare `!` (no order, no `&`, no guard) starts at `e`.
pub open spec fn bare_next_at(cs: Seq<char>, e: int) -> bool {
    &&& text_at(cs, e, "!"@)
    &&& no_number_at(cs, skip_junk(cs, e + 1))
    &&& !text_at(cs, after_order(cs, e), "&"@)
    &&& !token_at(cs, after_order(cs, e), "if"@, true)
}

/// Whether a simple array item starts at `e`: a plain variable, or, in
/// path patterns, a bare `!`.
pub open spec fn item_at(cs: Seq<char>, e: int, path: bool) -> bool {
    var_pattern_at(cs, e) || (path && bare_next_at(cs, e))
}

/// Where parsing the simple item at `e` leaves the cursor.
pub open spec fn item_end(cs: Seq<char>, e: int) -> int {
    if var_pattern_at(cs, e) {
        skip_junk(cs, symbol_end(cs, e))
    } else {
        after_order(cs, e)
    }
}

/// The starts of a comma-separated run of simple items from `p` on.
pub open spec fn simple_items(cs: Seq<char>, p: int, path: bool) -> Option<Seq<int>>
    decreases cs.len() - p,
{
    if p < 0 || p > cs.len() {
        None
    } else {
        let e = skip_junk(cs, p);
        let c = skip_junk(cs, item_end(cs, e));
        if !item_at(cs, e, path) {
            None
        } else if text_at(cs, c, ","@) && p < c + 1 <= cs.len() {
            match simple_items(cs, c + 1, path) {
                Some(rest) => Some(seq![e] + rest),
                None => None,
            }
        } else {
            Some(seq![e])
        }
    }
}

/// Where the run of simple items from `p` on ends: at what follows the last.
pub open spec fn simple_items_end(cs: Seq<char>, p: int, path: bool) -> int
    decreases cs.len() - p,
{
    if p < 0 || p > cs.len() {
        p
    } else {
        let e = skip_junk(cs, p);
        let c = skip_junk(cs, item_end(cs, e));
        if text_at(cs, c, ","@) && p < c + 1 <= cs.len() {
            simple_items_end(cs, c + 1, path)
        } else {
            c
        }
    }
}

/// Where the rest pattern of a simple array at `j` starts.
pub open spec fn array_rest_at(cs: Seq<char>, j: int, path: bool) -> int {
    skip_junk(cs, simple_items_end(cs, j + 1, path) + 1)
}

/// Whether `[p, ... | r]` starts at `j`, with simple items and rest.
pub open spec fn simple_array_with_rest_at(cs: Seq<char>, j: int, path: bool) -> bool {
    &&& text_at(cs, j, "["@)
    &&& !text_at(cs, skip_junk(cs, j + 1), "]"@)
    &&& simple_items(cs, j + 1, path) is Some
    &&& text_at(cs, simple_items_end(cs, j + 1, path), "|"@)
    &&& item_at(cs, array_rest_at(cs, j, path), path)
    &&& text_at(cs, skip_junk(cs, item_end(cs, array_rest_at(cs, j, path))), "]"@)
}

/// Whether `[p, ...]` starts at `j`, with simple items.
pub open spec fn simple_array_at(cs: Seq<char>, j: int, path: bool) -> bool {
    &&& text_at(cs, j, "["@)
    &&& !text_at(cs, skip_junk(cs, j + 1), "]"@)
    &&& simple_items(cs, j + 1, path) is Some
    &&& !text_at(cs, simple_items_end(cs, j + 1, path), "|"@)
    &&& text_at(cs, simple_items_end(cs, j + 1, path), "]"@)
}

/// Whether a run of simple items from `p` on ends in a `,` that a `]`
/// follows.
pub open spec fn trailing_comma(cs: Seq<char>, p: int, path: bool) -> bool
    decreases cs.len() - p,
{
    if p < 0 || p > cs.len() {
        false
    } else {
        let e = skip_junk(cs, p);
        let c = skip_junk(cs, item_end(cs, e));
        let n = skip_junk(cs, c + 1);
        &&& item_at(cs, e, path)
        &&& text_at(cs, c, ","@)
        &&& p < c + 1 <= cs.len()
        &&& ((n < cs.len() && cs[n] == ']') || trailing_comma(cs, c + 1, path))
    }
}

proof fn lemma_trailing_after_junk(cs: Seq<char>, p: int, path: bool)
    requires
        0 <= p <= cs.len(),
    ensures
        trailing_comma(cs, p, path) ==> trailing_comma(cs, skip_junk(cs, p), path),
{
    lemma_skip_junk_idempotent(cs, p);
    let e = skip_junk(cs, p);
    if item_at(cs, e, path) {
        if var_pattern_at(cs, e) {
            lemma_symbol_text(cs, e);
            lemma_skip_junk_idempotent(cs, symbol_end(cs, e));
        } else {
            reveal_strlit("!");
            assert(e + 1 <= cs.len());
            lemma_skip_junk_idempotent(cs, e + 1);
        }
        lemma_skip_junk_idempotent(cs, item_end(cs, e));
    }
}

proof fn lemma_items_after_junk(cs: Seq<char>, p: int, path: bool)
    requires
        0 <= p <= cs.len(),
    ensures
        simple_items(cs, skip_junk(cs, p), path) == simple_items(cs, p, path),
        simple_items(cs, p, path) is Some ==> simple_items_end(cs, skip_junk(cs, p), path) == simple_items_end(cs, p, path),
{
    lemma_skip_junk_idempotent(cs, p);
    let e = skip_junk(cs, p);
    if item_at(cs, e, path) {
        if var_pattern_at(cs, e) {
            lemma_symbol_text(cs, e);
            lemma_skip_junk_idempotent(cs, symbol_end(cs, e));
        } else {
            reveal_strlit("!");
            assert(e + 1 <= cs.len());
            lemma_skip_junk_idempotent(cs, e + 1);
        }
        lemma_skip_junk_idempotent(cs, item_end(cs, e));
    }
}

/// A variable of a pattern: a symbol that starts with a lower-case letter.
fn parse_variable(input: &mut Input) -> (r: Result<String, ParseError>)
    requires
        old(input).wf(),
    ensures
        old(input).went_on(final(input)),
        r is Ok ==> final(input).pos() > old(input).pos(),
        ({
            let cs = old(input).chars();
            let j = skip_junk(cs, old(input).pos());
            &&& name_at(cs, j, false) ==> (r matches Ok(s) && s@ == symbol_text(cs, j))
                && old(input).moved_to(final(input), symbol_end(cs, j))
            &&& !name_at(cs, j, false) ==> (r matches Err(ParseError::Error))
        }),
{
    parse_name(input, false)
}

/// `name @`, the binding that precedes a pattern; consumes nothing where
/// there is none.
fn parse_at_name(input: &mut Input) -> (r: Result<String, ParseError>)
    requires
        old(input).wf(),
    ensures
        old(input).went_on(final(input)),
        r is Ok ==> final(input).pos() > old(input).pos(),
        ({
            let cs = old(input).chars();
            let j = skip_junk(cs, old(input).pos());
            symbol_at(cs, j) && text_at(cs, skip_junk(cs, symbol_end(cs, j)), "@"@) ==> r is Ok
        }),
        ({
            let cs = old(input).chars();
            let j = skip_junk(cs, old(input).pos());
            !symbol_at(cs, j) ==> (r matches Err(ParseError::Error)) && old(input).moved_to(final(input), j)
        }),
        ({
            let cs = old(input).chars();
            let j = skip_junk(cs, old(input).pos());
            symbol_at(cs, j) && !text_at(cs, skip_junk(cs, symbol_end(cs, j)), "@"@) ==> (r matches Err(ParseError::Error))
                && old(input).moved_to(final(input), old(input).pos())
        }),
{
    let rp = input.position();
    let name = parse_symbol(input)?;
    if punct(input, "@").is_err() {
        input.rewind(rp);
        return Err(ParseError::Error);
    }
    Ok(name)
}

/// `(p, ...)`: the fields of a constructor in match arm patterns.
fn standard_params(input: &mut Input) -> (r: Result<Vec<StandardPattern>, ParseError>)
    requires
        old(input).wf(),
    ensures
        old(input).went_on(final(input)),
        r is Ok ==> final(input).pos() > old(input).pos(),
    decreases old(input).remaining(), 1int,
{
    proof {
        reveal_strlit("(");
    }
    punct(input, "(")?;
    if punct(input, ")").is_ok() {
        return Ok(Vec::new());
    }
    let ghost entry = old(input).pos();
    let mut ps: Vec<StandardPattern> = Vec::new();
    loop
        invariant
            input.wf(),
            input.chars() == old(input).chars(),
            entry < input.pos(),
            entry == old(input).pos(),
        decreases input.remaining(),
    {
        ps.push(parse_standard_pattern(input)?);
        if punct(input, ",").is_ok() {
            continue;
        }
        if punct(input, ")").is_ok() {
            break;
        }
        return fail("list parameters must have ending ')'");
    }
    Ok(ps)
}

/// A constructor in match arm patterns: an upper-case symbol with optional fields.
fn standard_constructor(input: &mut Input) -> (r: Result<StandardPattern, ParseError>)
    requires
        old(input).wf(),
    ensures
        old(input).went_on(final(input)),
        r is Ok ==> final(input).pos() > old(input).pos(),
        ({
            let cs = old(input).chars();
            let j = skip_junk(cs, old(input).pos());
            name_at(cs, j, true) ==> !(r matches Err(ParseError::Error))
        }),
        r matches Ok(p) ==> p is Cons,
        ({
            let cs = old(input).chars();
            let j = skip_junk(cs, old(input).pos());
            !name_at(cs, j, true) ==> (r matches Err(ParseError::Error))
                && old(input).moved_to(final(input), old(input).pos())
        }),
    decreases old(input).remaining(), 2int,
{
    let name = parse_name(input, true)?;
    match maybe(standard_params(input))? {
        Some(params) => Ok(StandardPattern::Cons { name, params }),
        None => Ok(StandardPattern::Cons { name, params: Vec::new() }),
    }
}

/// `name @ p` in match arm patterns.
fn standard_at(input: &mut Input) -> (r: Result<StandardPattern, ParseError>)
    requires
        old(input).wf(),
    ensures
        old(input).went_on(final(input)),
        r is Ok ==> final(input).pos() > old(input).pos(),
        ({
            let cs = old(input).chars();
            let j = skip_junk(cs, old(input).pos());
            symbol_at(cs, j) && text_at(cs, skip_junk(cs, symbol_end(cs, j)), "@"@) ==> !(r matches Err(ParseError::Error))
        }),
        r matches Ok(p) ==> p is At,
        ({
            let cs = old(input).chars();
            let j = skip_junk(cs, old(input).pos());
            !symbol_at(cs, j) ==> (r matches Err(ParseError::Error)) && old(input).moved_to(final(input), j)
        }),
        ({
            let cs = old(input).chars();
            let j = skip_junk(cs, old(input).pos());
            symbol_at(cs, j) && !text_at(cs, skip_junk(cs, symbol_end(cs, j)), "@"@) ==> (r matches Err(ParseError::Error))
                && old(input).moved_to(final(input), old(input).pos())
        }),
    decreases old(input).remaining(), 2int,
{
    let name = parse_at_name(input)?;
    let pattern = Box::new(fatal(parse_standard_pattern(input), "@ pattern is missing a target pattern")?);
    Ok(StandardPattern::At { name, pattern })
}

/// Whether `q` is the simple item written at `e`.
pub open spec fn is_standard_item(cs: Seq<char>, e: int, q: StandardPattern) -> bool {
    q matches StandardPattern::Variable(x) && x@ == symbol_text(cs, e)
}

/// Whether `qs` are, one for one, the simple items written at `es`.
pub open spec fn are_standard_items(cs: Seq<char>, es: Seq<int>, qs: Seq<StandardPattern>) -> bool {
    qs.len() == es.len() && forall|i: int| 0 <= i < es.len() ==> is_standard_item(cs, es[i], #[trigger] qs[i])
}

/// `[]`, `[p, ...]` or `[p, ... | rest]` in match arm patterns.
fn standard_standard_array(input: &mut Input) -> (r: Result<StandardArrayPattern<StandardPattern>, ParseError>)
    requires
        old(input).wf(),
    ensures
        old(input).went_on(final(input)),
        r is Ok ==> final(input).pos() > old(input).pos(),
        ({
            let cs = old(input).chars();
            let j = skip_junk(cs, old(input).pos());
            &&& text_at(cs, j, "["@) ==> !(r matches Err(ParseError::Error))
            &&& text_at(cs, j, "["@) && text_at(cs, skip_junk(cs, j + 1), "]"@) ==> (r matches Ok(StandardArrayPattern::Empty))
                && final(input).pos() == skip_junk(cs, j + 1) + 1
            &&& r matches Ok(StandardArrayPattern::Array { items, rest: _ }) ==> items@.len() > 0
            &&& text_at(cs, j, "["@) && skip_junk(cs, j + 1) < cs.len() && (cs[skip_junk(cs, j + 1)] == ','
                || cs[skip_junk(cs, j + 1)] == ')') ==> (r matches Err(ParseError::Fatal(fs))
                && texts(fs@) == seq!["standard array pattern must have patterns after ["@])
            &&& text_at(cs, j, "["@) && !text_at(cs, skip_junk(cs, j + 1), "]"@) && trailing_comma(cs, j + 1, false)
                ==> (r matches Err(ParseError::Fatal(fs))
                && texts(fs@) == seq!["standard array pattern must have patterns after ["@])
            &&& text_at(cs, j, "["@) && !text_at(cs, skip_junk(cs, j + 1), "]"@) && simple_items(cs, j + 1, false) is Some
                && text_at(cs, simple_items_end(cs, j + 1, false), "|"@)
                && item_at(cs, skip_junk(cs, simple_items_end(cs, j + 1, false) + 1), false)
                && text_at(cs, skip_junk(cs, item_end(cs, skip_junk(cs, simple_items_end(cs, j + 1, false) + 1))), "]"@)
                ==> (r matches Ok(StandardArrayPattern::Array { items: qs, rest: Some(b) })
                && are_standard_items(cs, simple_items(cs, j + 1, false)->Some_0, qs@)
                && is_standard_item(cs, skip_junk(cs, simple_items_end(cs, j + 1, false) + 1), *b))
                && final(input).pos() == skip_junk(cs, item_end(cs, skip_junk(cs, simple_items_end(cs, j + 1, false) + 1))) + 1
            &&& text_at(cs, j, "["@) && !text_at(cs, skip_junk(cs, j + 1), "]"@) && simple_items(cs, j + 1, false) is Some
                && !text_at(cs, simple_items_end(cs, j + 1, false), "|"@) && text_at(cs, simple_items_end(cs, j + 1, false), "]"@)
                ==> (r matches Ok(StandardArrayPattern::Array { items: qs, rest: None })
                && are_standard_items(cs, simple_items(cs, j + 1, false)->Some_0, qs@))
                && final(input).pos() == simple_items_end(cs, j + 1, false) + 1
        }),
        ({
            let cs = old(input).chars();
            let j = skip_junk(cs, old(input).pos());
            !text_at(cs, j, "["@) ==> (r matches Err(ParseError::Error))
                && old(input).moved_to(final(input), j)
        }),
    decreases old(input).remaining(), 2int,
{
    proof {
        reveal_strlit("[");
        let cs = old(input).chars();
        lemma_skip_junk_idempotent(cs, old(input).pos());
        if skip_junk(cs, old(input).pos()) < cs.len() {
            let k = skip_junk(cs, skip_junk(cs, old(input).pos()) + 1);
            lemma_skip_junk_idempotent(cs, skip_junk(cs, old(input).pos()) + 1);
            reveal_strlit("]");
            if text_at(cs, k, "]"@) {
                assert(cs[k] == cs.subrange(k, k + 1)[0]);
            }
        }
    }
    punct(input, "[")?;
    if punct(input, "]").is_ok() {
        return Ok(StandardArrayPattern::Empty);
    }
    let ghost entry = old(input).pos();
    let ghost cs = old(input).chars();
    let ghost o = skip_junk(cs, old(input).pos());
    let ghost listed = text_at(cs, o, "["@) && !text_at(cs, skip_junk(cs, o + 1), "]"@) && simple_items(cs, o + 1, false) is Some;
    let ghost es = if listed { simple_items(cs, o + 1, false)->Some_0 } else { Seq::empty() };
    let ghost list_end = simple_items_end(cs, o + 1, false);
    let ghost trail = text_at(cs, o, "["@) && !text_at(cs, skip_junk(cs, o + 1), "]"@) && trailing_comma(cs, o + 1, false);
    let mut items: Vec<StandardPattern> = Vec::new();
    proof {
        if listed {
            lemma_skip_junk_idempotent(cs, o + 1);
            lemma_items_after_junk(cs, o + 1, false);
        }
        if trail {
            lemma_skip_junk_idempotent(cs, o + 1);
            lemma_trailing_after_junk(cs, o + 1, false);
            assert(es.skip(0) =~= es);
            assert(es.take(0) =~= Seq::<int>::empty());
        }
    }
    loop
        invariant_except_break
            listed ==> simple_items(cs, input.pos(), false) == Some(es.skip(items@.len() as int)),
            listed ==> items@.len() < es.len(),
            listed ==> simple_items_end(cs, input.pos(), false) == list_end,
        invariant
            cs == old(input).chars(),
            o == skip_junk(cs, old(input).pos()),
            listed == (text_at(cs, o, "["@) && !text_at(cs, skip_junk(cs, o + 1), "]"@) && simple_items(cs, o + 1, false) is Some),
            listed ==> es == simple_items(cs, o + 1, false)->Some_0,
            list_end == simple_items_end(cs, o + 1, false),
            listed ==> are_standard_items(cs, es.take(items@.len() as int), items@),
            trail == (text_at(cs, o, "["@) && !text_at(cs, skip_junk(cs, o + 1), "]"@) && trailing_comma(cs, o + 1, false)),
            trail ==> trailing_comma(cs, input.pos(), false) || (skip_junk(cs, input.pos()) < cs.len()
                && cs[skip_junk(cs, input.pos())] == ']'),
            input.wf(),
            input.chars() == old(input).chars(),
            entry < input.pos(),
            entry == old(input).pos(),
            text_at(old(input).chars(), skip_junk(old(input).chars(), old(input).pos()), "["@),
            !text_at(old(input).chars(), skip_junk(old(input).chars(), skip_junk(old(input).chars(), old(input).pos()) + 1), "]"@),
            ({
                let cs = old(input).chars();
                let j = skip_junk(cs, old(input).pos());
                skip_junk(cs, j + 1) < cs.len() && (cs[skip_junk(cs, j + 1)] == ',' || cs[skip_junk(cs, j + 1)] == ')')
                    ==> input.pos() == skip_junk(cs, j + 1)
            }),
        decreases input.remaining(),
    {
        let ghost before = input.pos();
        proof {
            lemma_skip_junk_idempotent(cs, before);
            reveal_strlit("!");
            if listed {
                let e = skip_junk(cs, before);
                if !var_pattern_at(cs, e) {
                    assert(e + 1 <= cs.len());
                    lemma_skip_junk_idempotent(cs, e + 1);
                }
            }
        }
        let item = fatal(parse_standard_pattern(input), "standard array pattern must have patterns after [")?;
        items.push(item);
        proof {
            if listed {
                let e = skip_junk(cs, before);
                lemma_skip_junk_idempotent(cs, input.pos());
                assert(es.skip(items@.len() - 1)[0] == e);
                assert(es.take(items@.len() as int) =~= es.take(items@.len() - 1).push(e));
            }
        }
        if punct(input, ",").is_ok() {
            proof {
                reveal_strlit(",");
                if listed {
                    let e = skip_junk(cs, before);
                    let c = skip_junk(cs, item_end(cs, e));
                    assert(input.pos() == c + 1);
                    assert(text_at(cs, c, ","@));
                    assert(simple_items(cs, before, false) == match simple_items(cs, c + 1, false) {
                        Some(rest) => Some(seq![e] + rest),
                        None => None::<Seq<int>>,
                    });
                    assert(es.skip(items@.len() as int) =~= es.skip(items@.len() - 1).drop_first());
                }
                if trail && trailing_comma(cs, before, false) {
                    let e = skip_junk(cs, before);
                    let c = skip_junk(cs, item_end(cs, e));
                    assert(input.pos() == c + 1);
                }
            }
            continue;
        }
        proof {
            reveal_strlit(",");
            if trail && trailing_comma(cs, before, false) {
                let e = skip_junk(cs, before);
                let c = skip_junk(cs, item_end(cs, e));
                assert(input.pos() == c);
                assert(text_at(cs, c, ","@));
            }
            if listed {
                let e = skip_junk(cs, before);
                let c = skip_junk(cs, item_end(cs, e));
                assert(input.pos() == c);
                assert(!text_at(cs, c, ","@));
                assert(simple_items(cs, before, false) == Some(seq![e]));
                assert(es.skip(items@.len() - 1).len() == 1);
                assert(es.take(items@.len() as int) =~= es);
                assert(list_end == c);
                reveal_strlit("|");
                reveal_strlit("]");
                if c < cs.len() {
                    lemma_skip_junk_idempotent(cs, c + 1);
                }
            }
        }
        if punct(input, "|").is_ok() {
            let rest = Some(Box::new(
                fatal(parse_standard_pattern(input), "standard array pattern must have rest pattern after |")?,
            ));
            fatal(punct(input, "]"), "end of standard array pattern must be ]")?;
            return Ok(StandardArrayPattern::Array { items, rest });
        }
        fatal(punct(input, "]"), "end of standard array pattern must be ]")?;
        return Ok(StandardArrayPattern::Array { items, rest: None });
    }
}

/// Parses one of the match arm patterns. Tried in order: a number, a boolean, a
/// constructor, `name @ p`, `_`, a standard array, and last a variable; then an
/// optional `if e` guard. Fails with `Error` where none starts, and stops at
/// the first fatal failure.
pub fn parse_standard_pattern(input: &mut Input) -> (r: Result<StandardPattern, ParseError>)
    requires
        old(input).wf(),
    ensures
        old(input).went_on(final(input)),
        r is Ok ==> final(input).pos() > old(input).pos(),
        ({
            let cs = old(input).chars();
            let j = skip_junk(cs, old(input).pos());
            &&& text_at(cs, j, "["@) ==> !(r matches Err(ParseError::Error))
                && (r matches Ok(p) ==> p is StandardArray || p is If)
            &&& j < cs.len() && (cs[j] == ']' || cs[j] == ',' || cs[j] == ')') ==> (r matches Err(ParseError::Error))
            &&& simple_array_with_rest_at(cs, j, false)
                && !token_at(cs, skip_junk(cs, skip_junk(cs, item_end(cs, array_rest_at(cs, j, false))) + 1), "if"@, true)
                ==> (r matches Ok(StandardPattern::StandardArray(StandardArrayPattern::Array { items: qs, rest: Some(b) }))
                && are_standard_items(cs, simple_items(cs, j + 1, false)->Some_0, qs@)
                && is_standard_item(cs, array_rest_at(cs, j, false), *b))
            &&& simple_array_at(cs, j, false)
                && !token_at(cs, skip_junk(cs, simple_items_end(cs, j + 1, false) + 1), "if"@, true)
                ==> (r matches Ok(StandardPattern::StandardArray(StandardArrayPattern::Array { items: qs, rest: None }))
                && are_standard_items(cs, simple_items(cs, j + 1, false)->Some_0, qs@))
            &&& symbol_at(cs, j) && ascii_lower(cs[j]) && bool_literal(cs, j) is None
                && !text_at(cs, skip_junk(cs, symbol_end(cs, j)), "@"@)
                && token_at(cs, skip_junk(cs, symbol_end(cs, j)), "if"@, true)
                && bool_literal(cs, skip_junk(cs, skip_junk(cs, symbol_end(cs, j)) + 2)) is Some
                ==> (r matches Ok(StandardPattern::If { pattern, predicate })
                && ((*pattern) matches StandardPattern::Variable(x) && x@ == symbol_text(cs, j))
                && ((*predicate) matches Expr::Bool(b)
                && Some(b) == bool_literal(cs, skip_junk(cs, skip_junk(cs, symbol_end(cs, j)) + 2))))
            &&& text_at(cs, j, "["@) && text_at(cs, skip_junk(cs, j + 1), "]"@)
                && !token_at(cs, skip_junk(cs, skip_junk(cs, j + 1) + 1), "if"@, true)
                ==> (r matches Ok(StandardPattern::StandardArray(StandardArrayPattern::Empty)))
            &&& name_at(cs, j, true) ==> !(r matches Err(ParseError::Error)) && (r matches Ok(p) ==> p is Cons || p is If)
            &&& symbol_at(cs, j) && bool_literal(cs, j) is None && !name_at(cs, j, true)
                && text_at(cs, skip_junk(cs, symbol_end(cs, j)), "@"@)
                ==> !(r matches Err(ParseError::Error)) && (r matches Ok(p) ==> p is At || p is If)
        }),
        ({
            let cs = old(input).chars();
            let j = skip_junk(cs, old(input).pos());
            &&& j < cs.len() && digit(cs[j]) && digits_value(cs.subrange(j, digits_end(cs, j))) <= i64::MAX
                && !token_at(cs, skip_junk(cs, digits_end(cs, j)), "if"@, true)
                ==> (r matches Ok(StandardPattern::Number(n)) && n == digits_value(cs.subrange(j, digits_end(cs, j))))
                && final(input).pos() == skip_junk(cs, digits_end(cs, j))
            &&& symbol_at(cs, j) && ascii_lower(cs[j]) && bool_literal(cs, j) is None
                && !text_at(cs, skip_junk(cs, symbol_end(cs, j)), "@"@)
                && !token_at(cs, skip_junk(cs, symbol_end(cs, j)), "if"@, true)
                ==> (r matches Ok(StandardPattern::Variable(s)) && s@ == symbol_text(cs, j))
                && final(input).pos() == skip_junk(cs, symbol_end(cs, j))
        }),
    decreases old(input).remaining(), 3int,
{
    proof {
        reveal_strlit("_");
        reveal_strlit("[");
        reveal_strlit("&");
        reveal_strlit("!");
        let cs = old(input).chars();
        let j = skip_junk(cs, old(input).pos());
        lemma_skip_junk_idempotent(cs, old(input).pos());
        reveal_strlit("true");
        reveal_strlit("false");
        reveal_strlit("if");
        reveal_strlit("]");
        if symbol_at(cs, j) {
            lemma_symbol_text(cs, j);
        }
        if j < cs.len() {
            if text_at(cs, j, "_"@) || text_at(cs, j, "["@) || text_at(cs, j, "&"@) || text_at(cs, j, "!"@) {
                assert(cs[j] == cs.subrange(j, j + 1)[0]);
            }
        }
    }
    let mut found: Option<StandardPattern> = None;
    match parse_number(input) {
        Ok(v) => {
            found = Some(StandardPattern::Number(v));
        },
        Err(ParseError::Fatal(fs)) => {
            return Err(ParseError::Fatal(fs));
        },
        Err(ParseError::Error) => {},
    }
    if found.is_none() {
        match parse_bool(input) {
            Ok(v) => {
                found = Some(StandardPattern::Bool(v));
            },
            Err(ParseError::Fatal(fs)) => {
                return Err(ParseError::Fatal(fs));
            },
            Err(ParseError::Error) => {},
        }
    }
    if found.is_none() {
        match standard_constructor(input) {
            Ok(v) => {
                found = Some(v);
            },
            Err(ParseError::Fatal(fs)) => {
                return Err(ParseError::Fatal(fs));
            },
            Err(ParseError::Error) => {},
        }
    }
    if found.is_none() {
        match standard_at(input) {
            Ok(v) => {
                found = Some(v);
            },
            Err(ParseError::Fatal(fs)) => {
                return Err(ParseError::Fatal(fs));
            },
            Err(ParseError::Error) => {},
        }
    }
    if found.is_none() {
        match parse_wildcard(input) {
            Ok(_) => {
                found = Some(StandardPattern::Wildcard);
            },
            Err(ParseError::Fatal(fs)) => {
                return Err(ParseError::Fatal(fs));
            },
            Err(ParseError::Error) => {},
        }
    }
    if found.is_none() {
        match standard_standard_array(input) {
            Ok(v) => {
                found = Some(StandardPattern::StandardArray(v));
            },
            Err(ParseError::Fatal(fs)) => {
                return Err(ParseError::Fatal(fs));
            },
            Err(ParseError::Error) => {},
        }
    }
    if found.is_none() {
        match parse_variable(input) {
            Ok(v) => {
                found = Some(StandardPattern::Variable(v));
            },
            Err(ParseError::Fatal(fs)) => {
                return Err(ParseError::Fatal(fs));
            },
            Err(ParseError::Error) => {},
        }
    }
    let pattern = match found {
        Some(p) => p,
        None => {
            return Err(ParseError::Error);
        },
    };
    if keyword(input, "if").is_err() {
        return Ok(pattern);
    }
    let predicate = Box::new(fatal(parse_expr(input), "pattern must have expression after if")?);
    Ok(StandardPattern::If { pattern: Box::new(pattern), predicate })
}

/// `(p, ...)`: the fields of a constructor in array patterns.
fn array_params(input: &mut Input) -> (r: Result<Vec<ArrayPattern>, ParseError>)
    requires
        old(input).wf(),
    ensures
        old(input).went_on(final(input)),
        r is Ok ==> final(input).pos() > old(input).pos(),
    decreases old(input).remaining(), 1int,
{
    proof {
        reveal_strlit("(");
    }
    punct(input, "(")?;
    if punct(input, ")").is_ok() {
        return Ok(Vec::new());
    }
    let ghost entry = old(input).pos();
    let mut ps: Vec<ArrayPattern> = Vec::new();
    loop
        invariant
            input.wf(),
            input.chars() == old(input).chars(),
            entry < input.pos(),
            entry == old(input).pos(),
        decreases input.remaining(),
    {
        ps.push(parse_array_pattern(input)?);
        if punct(input, ",").is_ok() {
            continue;
        }
        if punct(input, ")").is_ok() {
            break;
        }
        return fail("list parameters must have ending ')'");
    }
    Ok(ps)
}

/// A constructor in array patterns: an upper-case symbol with optional fields.
fn array_constructor(input: &mut Input) -> (r: Result<ArrayPattern, ParseError>)
    requires
        old(input).wf(),
    ensures
        old(input).went_on(final(input)),
        r is Ok ==> final(input).pos() > old(input).pos(),
        ({
            let cs = old(input).chars();
            let j = skip_junk(cs, old(input).pos());
            name_at(cs, j, true) ==> !(r matches Err(ParseError::Error))
        }),
        r matches Ok(p) ==> p is Cons,
        ({
            let cs = old(input).chars();
            let j = skip_junk(cs, old(input).pos());
            !name_at(cs, j, true) ==> (r matches Err(ParseError::Error))
                && old(input).moved_to(final(input), old(input).pos())
        }),
    decreases old(input).remaining(), 2int,
{
    let name = parse_name(input, true)?;
    match maybe(array_params(input))? {
        Some(params) => Ok(ArrayPattern::Cons { name, params }),
        None => Ok(ArrayPattern::Cons { name, params: Vec::new() }),
    }
}

/// `name @ p` in array patterns.
fn array_at(input: &mut Input) -> (r: Result<ArrayPattern, ParseError>)
    requires
        old(input).wf(),
    ensures
        old(input).went_on(final(input)),
        r is Ok ==> final(input).pos() > old(input).pos(),
        ({
            let cs = old(input).chars();
            let j = skip_junk(cs, old(input).pos());
            symbol_at(cs, j) && text_at(cs, skip_junk(cs, symbol_end(cs, j)), "@"@) ==> !(r matches Err(ParseError::Error))
        }),
        r matches Ok(p) ==> p is At,
        ({
            let cs = old(input).chars();
            let j = skip_junk(cs, old(input).pos());
            !symbol_at(cs, j) ==> (r matches Err(ParseError::Error)) && old(input).moved_to(final(input), j)
        }),
        ({
            let cs = old(input).chars();
            let j = skip_junk(cs, old(input).pos());
            symbol_at(cs, j) && !text_at(cs, skip_junk(cs, symbol_end(cs, j)), "@"@) ==> (r matches Err(ParseError::Error))
                && old(input).moved_to(final(input), old(input).pos())
        }),
    decreases old(input).remaining(), 2int,
{
    let name = parse_at_name(input)?;
    let pattern = Box::new(fatal(parse_array_pattern(input), "@ pattern is missing a target pattern")?);
    Ok(ArrayPattern::At { name, pattern })
}

/// Whether `q` is the simple item written at `e`.
pub open spec fn is_array_item(cs: Seq<char>, e: int, q: ArrayPattern) -> bool {
    q matches ArrayPattern::Variable(x) && x@ == symbol_text(cs, e)
}

/// Whether `qs` are, one for one, the simple items written at `es`.
pub open spec fn are_array_items(cs: Seq<char>, es: Seq<int>, qs: Seq<ArrayPattern>) -> bool {
    qs.len() == es.len() && forall|i: int| 0 <= i < es.len() ==> is_array_item(cs, es[i], #[trigger] qs[i])
}

/// `[]`, `[p, ...]` or `[p, ... | rest]` in array patterns.
fn array_standard_array(input: &mut Input) -> (r: Result<StandardArrayPattern<ArrayPattern>, ParseError>)
    requires
        old(input).wf(),
    ensures
        old(input).went_on(final(input)),
        r is Ok ==> final(input).pos() > old(input).pos(),
        ({
            let cs = old(input).chars();
            let j = skip_junk(cs, old(input).pos());
            &&& text_at(cs, j, "["@) ==> !(r matches Err(ParseError::Error))
            &&& text_at(cs, j, "["@) && text_at(cs, skip_junk(cs, j + 1), "]"@) ==> (r matches Ok(StandardArrayPattern::Empty))
                && final(input).pos() == skip_junk(cs, j + 1) + 1
            &&& r matches Ok(StandardArrayPattern::Array { items, rest: _ }) ==> items@.len() > 0
            &&& text_at(cs, j, "["@) && skip_junk(cs, j + 1) < cs.len() && (cs[skip_junk(cs, j + 1)] == ','
                || cs[skip_junk(cs, j + 1)] == ')') ==> (r matches Err(ParseError::Fatal(fs))
                && texts(fs@) == seq!["standard array pattern must have patterns after ["@])
            &&& text_at(cs, j, "["@) && !text_at(cs, skip_junk(cs, j + 1), "]"@) && trailing_comma(cs, j + 1, false)
                ==> (r matches Err(ParseError::Fatal(fs))
                && texts(fs@) == seq!["standard array pattern must have patterns after ["@])
            &&& text_at(cs, j, "["@) && !text_at(cs, skip_junk(cs, j + 1), "]"@) && simple_items(cs, j + 1, false) is Some
                && text_at(cs, simple_items_end(cs, j + 1, false), "|"@)
                && item_at(cs, skip_junk(cs, simple_items_end(cs, j + 1, false) + 1), false)
                && text_at(cs, skip_junk(cs, item_end(cs, skip_junk(cs, simple_items_end(cs, j + 1, false) + 1))), "]"@)
                ==> (r matches Ok(StandardArrayPattern::Array { items: qs, rest: Some(b) })
                && are_array_items(cs, simple_items(cs, j + 1, false)->Some_0, qs@)
                && is_array_item(cs, skip_junk(cs, simple_items_end(cs, j + 1, false) + 1), *b))
                && final(input).pos() == skip_junk(cs, item_end(cs, skip_junk(cs, simple_items_end(cs, j + 1, false) + 1))) + 1
            &&& text_at(cs, j, "["@) && !text_at(cs, skip_junk(cs, j + 1), "]"@) && simple_items(cs, j + 1, false) is Some
                && !text_at(cs, simple_items_end(cs, j + 1, false), "|"@) && text_at(cs, simple_items_end(cs, j + 1, false), "]"@)
                ==> (r matches Ok(StandardArrayPattern::Array { items: qs, rest: None })
                && are_array_items(cs, simple_items(cs, j + 1, false)->Some_0, qs@))
                && final(input).pos() == simple_items_end(cs, j + 1, false) + 1
        }),
        ({
            let cs = old(input).chars();
            let j = skip_junk(cs, old(input).pos());
            !text_at(cs, j, "["@) ==> (r matches Err(ParseError::Error))
                && old(input).moved_to(final(input), j)
        }),
    decreases old(input).remaining(), 2int,
{
    proof {
        reveal_strlit("[");
        let cs = old(input).chars();
        lemma_skip_junk_idempotent(cs, old(input).pos());
        if skip_junk(cs, old(input).pos()) < cs.len() {
            let k = skip_junk(cs, skip_junk(cs, old(input).pos()) + 1);
            lemma_skip_junk_idempotent(cs, skip_junk(cs, old(input).pos()) + 1);
            reveal_strlit("]");
            if text_at(cs, k, "]"@) {
                assert(cs[k] == cs.subrange(k, k + 1)[0]);
            }
        }
    }
    punct(input, "[")?;
    if punct(input, "]").is_ok() {
        return Ok(StandardArrayPattern::Empty);
    }
    let ghost entry = old(input).pos();
    let ghost cs = old(input).chars();
    let ghost o = skip_junk(cs, old(input).pos());
    let ghost listed = text_at(cs, o, "["@) && !text_at(cs, skip_junk(cs, o + 1), "]"@) && simple_items(cs, o + 1, false) is Some;
    let ghost es = if listed { simple_items(cs, o + 1, false)->Some_0 } else { Seq::empty() };
    let ghost list_end = simple_items_end(cs, o + 1, false);
    let ghost trail = text_at(cs, o, "["@) && !text_at(cs, skip_junk(cs, o + 1), "]"@) && trailing_comma(cs, o + 1, false);
    let mut items: Vec<ArrayPattern> = Vec::new();
    proof {
        if listed {
            lemma_skip_junk_idempotent(cs, o + 1);
            lemma_items_after_junk(cs, o + 1, false);
        }
        if trail {
            lemma_skip_junk_idempotent(cs, o + 1);
            lemma_trailing_after_junk(cs, o + 1, false);
            assert(es.skip(0) =~= es);
            assert(es.take(0) =~= Seq::<int>::empty());
        }
    }
    loop
        invariant_except_break
            listed ==> simple_items(cs, input.pos(), false) == Some(es.skip(items@.len() as int)),
            listed ==> items@.len() < es.len(),
            listed ==> simple_items_end(cs, input.pos(), false) == list_end,
        invariant
            cs == old(input).chars(),
            o == skip_junk(cs, old(input).pos()),
            listed == (text_at(cs, o, "["@) && !text_at(cs, skip_junk(cs, o + 1), "]"@) && simple_items(cs, o + 1, false) is Some),
            listed ==> es == simple_items(cs, o + 1, false)->Some_0,
            list_end == simple_items_end(cs, o + 1, false),
            listed ==> are_array_items(cs, es.take(items@.len() as int), items@),
            trail == (text_at(cs, o, "["@) && !text_at(cs, skip_junk(cs, o + 1), "]"@) && trailing_comma(cs, o + 1, false)),
            trail ==> trailing_comma(cs, input.pos(), false) || (skip_junk(cs, input.pos()) < cs.len()
                && cs[skip_junk(cs, input.pos())] == ']'),
            input.wf(),
            input.chars() == old(input).chars(),
            entry < input.pos(),
            entry == old(input).pos(),
            text_at(old(input).chars(), skip_junk(old(input).chars(), old(input).pos()), "["@),
            !text_at(old(input).chars(), skip_junk(old(input).chars(), skip_junk(old(input).chars(), old(input).pos()) + 1), "]"@),
            ({
                let cs = old(input).chars();
                let j = skip_junk(cs, old(input).pos());
                skip_junk(cs, j + 1) < cs.len() && (cs[skip_junk(cs, j + 1)] == ',' || cs[skip_junk(cs, j + 1)] == ')')
                    ==> input.pos() == skip_junk(cs, j + 1)
            }),
        decreases input.remaining(),
    {
        let ghost before = input.pos();
        proof {
            lemma_skip_junk_idempotent(cs, before);
            reveal_strlit("!");
            if listed {
                let e = skip_junk(cs, before);
                if !var_pattern_at(cs, e) {
                    assert(e + 1 <= cs.len());
                    lemma_skip_junk_idempotent(cs, e + 1);
                }
            }
        }
        let item = fatal(parse_array_pattern(input), "standard array pattern must have patterns after [")?;
        items.push(item);
        proof {
            if listed {
                let e = skip_junk(cs, before);
                lemma_skip_junk_idempotent(cs, input.pos());
                assert(es.skip(items@.len() - 1)[0] == e);
                assert(es.take(items@.len() as int) =~= es.take(items@.len() - 1).push(e));
            }
        }
        if punct(input, ",").is_ok() {
            proof {
                reveal_strlit(",");
                if listed {
                    let e = skip_junk(cs, before);
                    let c = skip_junk(cs, item_end(cs, e));
                    assert(input.pos() == c + 1);
                    assert(text_at(cs, c, ","@));
                    assert(simple_items(cs, before, false) == match simple_items(cs, c + 1, false) {
                        Some(rest) => Some(seq![e] + rest),
                        None => None::<Seq<int>>,
                    });
                    assert(es.skip(items@.len() as int) =~= es.skip(items@.len() - 1).drop_first());
                }
                if trail && trailing_comma(cs, before, false) {
                    let e = skip_junk(cs, before);
                    let c = skip_junk(cs, item_end(cs, e));
                    assert(input.pos() == c + 1);
                }
            }
            continue;
        }
        proof {
            reveal_strlit(",");
            if trail && trailing_comma(cs, before, false) {
                let e = skip_junk(cs, before);
                let c = skip_junk(cs, item_end(cs, e));
                assert(input.pos() == c);
                assert(text_at(cs, c, ","@));
            }
            if listed {
                let e = skip_junk(cs, before);
                let c = skip_junk(cs, item_end(cs, e));
                assert(input.pos() == c);
                assert(!text_at(cs, c, ","@));
                assert(simple_items(cs, before, false) == Some(seq![e]));
                assert(es.skip(items@.len() - 1).len() == 1);
                assert(es.take(items@.len() as int) =~= es);
                assert(list_end == c);
                reveal_strlit("|");
                reveal_strlit("]");
                if c < cs.len() {
                    lemma_skip_junk_idempotent(cs, c + 1);
                }
            }
        }
        if punct(input, "|").is_ok() {
            let rest = Some(Box::new(
                fatal(parse_array_pattern(input), "standard array pattern must have rest pattern after |")?,
            ));
            fatal(punct(input, "]"), "end of standard array pattern must be ]")?;
            return Ok(StandardArrayPattern::Array { items, rest });
        }
        fatal(punct(input, "]"), "end of standard array pattern must be ]")?;
        return Ok(StandardArrayPattern::Array { items, rest: None });
    }
}

/// Parses one of the array patterns. Tried in order: a number, a boolean, a
/// constructor, `name @ p`, `_`, a standard array, and last a variable; then an
/// optional `if e` guard. Fails with `Error` where none starts, and stops at
/// the first fatal failure.
pub fn parse_array_pattern(input: &mut Input) -> (r: Result<ArrayPattern, ParseError>)
    requires
        old(input).wf(),
    ensures
        old(input).went_on(final(input)),
        r is Ok ==> final(input).pos() > old(input).pos(),
        ({
            let cs = old(input).chars();
            let j = skip_junk(cs, old(input).pos());
            &&& text_at(cs, j, "["@) ==> !(r matches Err(ParseError::Error))
                && (r matches Ok(p) ==> p is StandardArray || p is If)
            &&& j < cs.len() && (cs[j] == ']' || cs[j] == ',' || cs[j] == ')') ==> (r matches Err(ParseError::Error))
            &&& simple_array_with_rest_at(cs, j, false)
                && !token_at(cs, skip_junk(cs, skip_junk(cs, item_end(cs, array_rest_at(cs, j, false))) + 1), "if"@, true)
                ==> (r matches Ok(ArrayPattern::StandardArray(StandardArrayPattern::Array { items: qs, rest: Some(b) }))
                && are_array_items(cs, simple_items(cs, j + 1, false)->Some_0, qs@)
                && is_array_item(cs, array_rest_at(cs, j, false), *b))
            &&& simple_array_at(cs, j, false)
                && !token_at(cs, skip_junk(cs, simple_items_end(cs, j + 1, false) + 1), "if"@, true)
                ==> (r matches Ok(ArrayPattern::StandardArray(StandardArrayPattern::Array { items: qs, rest: None }))
                && are_array_items(cs, simple_items(cs, j + 1, false)->Some_0, qs@))
            &&& symbol_at(cs, j) && ascii_lower(cs[j]) && bool_literal(cs, j) is None
                && !text_at(cs, skip_junk(cs, symbol_end(cs, j)), "@"@)
                && token_at(cs, skip_junk(cs, symbol_end(cs, j)), "if"@, true)
                && bool_literal(cs, skip_junk(cs, skip_junk(cs, symbol_end(cs, j)) + 2)) is Some
                ==> (r matches Ok(ArrayPattern::If { pattern, predicate })
                && ((*pattern) matches ArrayPattern::Variable(x) && x@ == symbol_text(cs, j))
                && ((*predicate) matches Expr::Bool(b)
                && Some(b) == bool_literal(cs, skip_junk(cs, skip_junk(cs, symbol_end(cs, j)) + 2))))
            &&& text_at(cs, j, "["@) && text_at(cs, skip_junk(cs, j + 1), "]"@)
                && !token_at(cs, skip_junk(cs, skip_junk(cs, j + 1) + 1), "if"@, true)
                ==> (r matches Ok(ArrayPattern::StandardArray(StandardArrayPattern::Empty)))
            &&& name_at(cs, j, true) ==> !(r matches Err(ParseError::Error)) && (r matches Ok(p) ==> p is Cons || p is If)
            &&& symbol_at(cs, j) && bool_literal(cs, j) is None && !name_at(cs, j, true)
                && text_at(cs, skip_junk(cs, symbol_end(cs, j)), "@"@)
                ==> !(r matches Err(ParseError::Error)) && (r matches Ok(p) ==> p is At || p is If)
        }),
        ({
            let cs = old(input).chars();
            let j = skip_junk(cs, old(input).pos());
            &&& j < cs.len() && digit(cs[j]) && digits_value(cs.subrange(j, digits_end(cs, j))) <= i64::MAX
                && !token_at(cs, skip_junk(cs, digits_end(cs, j)), "if"@, true)
                ==> (r matches Ok(ArrayPattern::Number(n)) && n == digits_value(cs.subrange(j, digits_end(cs, j))))
                && final(input).pos() == skip_junk(cs, digits_end(cs, j))
            &&& symbol_at(cs, j) && ascii_lower(cs[j]) && bool_literal(cs, j) is None
                && !text_at(cs, skip_junk(cs, symbol_end(cs, j)), "@"@)
                && !token_at(cs, skip_junk(cs, symbol_end(cs, j)), "if"@, true)
                ==> (r matches Ok(ArrayPattern::Variable(s)) && s@ == symbol_text(cs, j))
                && final(input).pos() == skip_junk(cs, symbol_end(cs, j))
        }),
    decreases old(input).remaining(), 3int,
{
    proof {
        reveal_strlit("_");
        reveal_strlit("[");
        reveal_strlit("&");
        reveal_strlit("!");
        let cs = old(input).chars();
        let j = skip_junk(cs, old(input).pos());
        lemma_skip_junk_idempotent(cs, old(input).pos());
        reveal_strlit("true");
        reveal_strlit("false");
        reveal_strlit("if");
        reveal_strlit("]");
        if symbol_at(cs, j) {
            lemma_symbol_text(cs, j);
        }
        if j < cs.len() {
            if text_at(cs, j, "_"@) || text_at(cs, j, "["@) || text_at(cs, j, "&"@) || text_at(cs, j, "!"@) {
                assert(cs[j] == cs.subrange(j, j + 1)[0]);
            }
        }
    }
    let mut found: Option<ArrayPattern> = None;
    match parse_number(input) {
        Ok(v) => {
            found = Some(ArrayPattern::Number(v));
        },
        Err(ParseError::Fatal(fs)) => {
            return Err(ParseError::Fatal(fs));
        },
        Err(ParseError::Error) => {},
    }
    if found.is_none() {
        match parse_bool(input) {
            Ok(v) => {
                found = Some(ArrayPattern::Bool(v));
            },
            Err(ParseError::Fatal(fs)) => {
                return Err(ParseError::Fatal(fs));
            },
            Err(ParseError::Error) => {},
        }
    }
    if found.is_none() {
        match array_constructor(input) {
            Ok(v) => {
                found = Some(v);
            },
            Err(ParseError::Fatal(fs)) => {
                return Err(ParseError::Fatal(fs));
            },
            Err(ParseError::Error) => {},
        }
    }
    if found.is_none() {
        match array_at(input) {
            Ok(v) => {
                found = Some(v);
            },
            Err(ParseError::Fatal(fs)) => {
                return Err(ParseError::Fatal(fs));
            },
            Err(ParseError::Error) => {},
        }
    }
    if found.is_none() {
        match parse_wildcard(input) {
            Ok(_) => {
                found = Some(ArrayPattern::Wildcard);
            },
            Err(ParseError::Fatal(fs)) => {
                return Err(ParseError::Fatal(fs));
            },
            Err(ParseError::Error) => {},
        }
    }
    if found.is_none() {
        match array_standard_array(input) {
            Ok(v) => {
                found = Some(ArrayPattern::StandardArray(v));
            },
            Err(ParseError::Fatal(fs)) => {
                return Err(ParseError::Fatal(fs));
            },
            Err(ParseError::Error) => {},
        }
    }
    if found.is_none() {
        match parse_variable(input) {
            Ok(v) => {
                found = Some(ArrayPattern::Variable(v));
            },
            Err(ParseError::Fatal(fs)) => {
                return Err(ParseError::Fatal(fs));
            },
            Err(ParseError::Error) => {},
        }
    }
    let pattern = match found {
        Some(p) => p,
        None => {
            return Err(ParseError::Error);
        },
    };
    if keyword(input, "if").is_err() {
        return Ok(pattern);
    }
    let predicate = Box::new(fatal(parse_expr(input), "pattern must have expression after if")?);
    Ok(ArrayPattern::If { pattern: Box::new(pattern), predicate })
}

/// `(p, ...)`: the fields of a constructor in path patterns.
fn path_params(input: &mut Input) -> (r: Result<Vec<PathPattern>, ParseError>)
    requires
        old(input).wf(),
    ensures
        old(input).went_on(final(input)),
        r is Ok ==> final(input).pos() > old(input).pos(),
    decreases old(input).remaining(), 1int,
{
    proof {
        reveal_strlit("(");
    }
    punct(input, "(")?;
    if punct(input, ")").is_ok() {
        return Ok(Vec::new());
    }
    let ghost entry = old(input).pos();
    let mut ps: Vec<PathPattern> = Vec::new();
    loop
        invariant
            input.wf(),
            input.chars() == old(input).chars(),
            entry < input.pos(),
            entry == old(input).pos(),
        decreases input.remaining(),
    {
        ps.push(parse_path_pattern(input)?);
        if punct(input, ",").is_ok() {
            continue;
        }
        if punct(input, ")").is_ok() {
            break;
        }
        return fail("list parameters must have ending ')'");
    }
    Ok(ps)
}

/// A constructor in path patterns: an upper-case symbol with optional fields.
fn path_constructor(input: &mut Input) -> (r: Result<PathPattern, ParseError>)
    requires
        old(input).wf(),
    ensures
        old(input).went_on(final(input)),
        r is Ok ==> final(input).pos() > old(input).pos(),
        ({
            let cs = old(input).chars();
            let j = skip_junk(cs, old(input).pos());
            name_at(cs, j, true) ==> !(r matches Err(ParseError::Error))
        }),
        r matches Ok(p) ==> p is Cons,
        ({
            let cs = old(input).chars();
            let j = skip_junk(cs, old(input).pos());
            !name_at(cs, j, true) ==> (r matches Err(ParseError::Error))
                && old(input).moved_to(final(input), old(input).pos())
        }),
    decreases old(input).remaining(), 2int,
{
    let name = parse_name(input, true)?;
    match maybe(path_params(input))? {
        Some(params) => Ok(PathPattern::Cons { name, params }),
        None => Ok(PathPattern::Cons { name, params: Vec::new() }),
    }
}

/// `name @ p` in path patterns.
fn path_at(input: &mut Input) -> (r: Result<PathPattern, ParseError>)
    requires
        old(input).wf(),
    ensures
        old(input).went_on(final(input)),
        r is Ok ==> final(input).pos() > old(input).pos(),
        ({
            let cs = old(input).chars();
            let j = skip_junk(cs, old(input).pos());
            symbol_at(cs, j) && text_at(cs, skip_junk(cs, symbol_end(cs, j)), "@"@) ==> !(r matches Err(ParseError::Error))
        }),
        r matches Ok(p) ==> p is At,
        ({
            let cs = old(input).chars();
            let j = skip_junk(cs, old(input).pos());
            !symbol_at(cs, j) ==> (r matches Err(ParseError::Error)) && old(input).moved_to(final(input), j)
        }),
        ({
            let cs = old(input).chars();
            let j = skip_junk(cs, old(input).pos());
            symbol_at(cs, j) && !text_at(cs, skip_junk(cs, symbol_end(cs, j)), "@"@) ==> (r matches Err(ParseError::Error))
                && old(input).moved_to(final(input), old(input).pos())
        }),
    decreases old(input).remaining(), 2int,
{
    let name = parse_at_name(input)?;
    let pattern = Box::new(fatal(parse_path_pattern(input), "@ pattern is missing a target pattern")?);
    Ok(PathPattern::At { name, pattern })
}

/// Whether `q` is the simple item written at `e`.
pub open spec fn is_path_item(cs: Seq<char>, e: int, q: PathPattern) -> bool {
    if var_pattern_at(cs, e) {
        q matches PathPattern::Variable(x) && x@ == symbol_text(cs, e)
    } else {
        q matches PathPattern::Next(None)
    }
}

/// Whether `qs` are, one for one, the simple items written at `es`.
pub open spec fn are_path_items(cs: Seq<char>, es: Seq<int>, qs: Seq<PathPattern>) -> bool {
    qs.len() == es.len() && forall|i: int| 0 <= i < es.len() ==> is_path_item(cs, es[i], #[trigger] qs[i])
}

/// `[]`, `[p, ...]` or `[p, ... | rest]` in path patterns.
fn path_standard_array(input: &mut Input) -> (r: Result<StandardArrayPattern<PathPattern>, ParseError>)
    requires
        old(input).wf(),
    ensures
        old(input).went_on(final(input)),
        r is Ok ==> final(input).pos() > old(input).pos(),
        ({
            let cs = old(input).chars();
            let j = skip_junk(cs, old(input).pos());
            &&& text_at(cs, j, "["@) ==> !(r matches Err(ParseError::Error))
            &&& text_at(cs, j, "["@) && text_at(cs, skip_junk(cs, j + 1), "]"@) ==> (r matches Ok(StandardArrayPattern::Empty))
                && final(input).pos() == skip_junk(cs, j + 1) + 1
            &&& r matches Ok(StandardArrayPattern::Array { items, rest: _ }) ==> items@.len() > 0
            &&& text_at(cs, j, "["@) && skip_junk(cs, j + 1) < cs.len() && (cs[skip_junk(cs, j + 1)] == ','
                || cs[skip_junk(cs, j + 1)] == ')') ==> (r matches Err(ParseError::Fatal(fs))
                && texts(fs@) == seq!["standard array pattern must have patterns after ["@])
            &&& text_at(cs, j, "["@) && !text_at(cs, skip_junk(cs, j + 1), "]"@) && trailing_comma(cs, j + 1, true)
                ==> (r matches Err(ParseError::Fatal(fs))
                && texts(fs@) == seq!["standard array pattern must have patterns after ["@])
            &&& text_at(cs, j, "["@) && !text_at(cs, skip_junk(cs, j + 1), "]"@) && simple_items(cs, j + 1, true) is Some
                && text_at(cs, simple_items_end(cs, j + 1, true), "|"@)
                && item_at(cs, skip_junk(cs, simple_items_end(cs, j + 1, true) + 1), true)
                && text_at(cs, skip_junk(cs, item_end(cs, skip_junk(cs, simple_items_end(cs, j + 1, true) + 1))), "]"@)
                ==> (r matches Ok(StandardArrayPattern::Array { items: qs, rest: Some(b) })
                && are_path_items(cs, simple_items(cs, j + 1, true)->Some_0, qs@)
                && is_path_item(cs, skip_junk(cs, simple_items_end(cs, j + 1, true) + 1), *b))
                && final(input).pos() == skip_junk(cs, item_end(cs, skip_junk(cs, simple_items_end(cs, j + 1, true) + 1))) + 1
            &&& text_at(cs, j, "["@) && !text_at(cs, skip_junk(cs, j + 1), "]"@) && simple_items(cs, j + 1, true) is Some
                && !text_at(cs, simple_items_end(cs, j + 1, true), "|"@) && text_at(cs, simple_items_end(cs, j + 1, true), "]"@)
                ==> (r matches Ok(StandardArrayPattern::Array { items: qs, rest: None })
                && are_path_items(cs, simple_items(cs, j + 1, true)->Some_0, qs@))
                && final(input).pos() == simple_items_end(cs, j + 1, true) + 1
        }),
        ({
            let cs = old(input).chars();
            let j = skip_junk(cs, old(input).pos());
            !text_at(cs, j, "["@) ==> (r matches Err(ParseError::Error))
                && old(input).moved_to(final(input), j)
        }),
    decreases old(input).remaining(), 2int,
{
    proof {
        reveal_strlit("[");
        let cs = old(input).chars();
        lemma_skip_junk_idempotent(cs, old(input).pos());
        if skip_junk(cs, old(input).pos()) < cs.len() {
            let k = skip_junk(cs, skip_junk(cs, old(input).pos()) + 1);
            lemma_skip_junk_idempotent(cs, skip_junk(cs, old(input).pos()) + 1);
            reveal_strlit("]");
            if text_at(cs, k, "]"@) {
                assert(cs[k] == cs.subrange(k, k + 1)[0]);
            }
        }
    }
    punct(input, "[")?;
    if punct(input, "]").is_ok() {
        return Ok(StandardArrayPattern::Empty);
    }
    let ghost entry = old(input).pos();
    let ghost cs = old(input).chars();
    let ghost o = skip_junk(cs, old(input).pos());
    let ghost listed = text_at(cs, o, "["@) && !text_at(cs, skip_junk(cs, o + 1), "]"@) && simple_items(cs, o + 1, true) is Some;
    let ghost es = if listed { simple_items(cs, o + 1, true)->Some_0 } else { Seq::empty() };
    let ghost list_end = simple_items_end(cs, o + 1, true);
    let ghost trail = text_at(cs, o, "["@) && !text_at(cs, skip_junk(cs, o + 1), "]"@) && trailing_comma(cs, o + 1, true);
    let mut items: Vec<PathPattern> = Vec::new();
    proof {
        if listed {
            lemma_skip_junk_idempotent(cs, o + 1);
            lemma_items_after_junk(cs, o + 1, true);
        }
        if trail {
            lemma_skip_junk_idempotent(cs, o + 1);
            lemma_trailing_after_junk(cs, o + 1, true);
            assert(es.skip(0) =~= es);
            assert(es.take(0) =~= Seq::<int>::empty());
        }
    }
    loop
        invariant_except_break
            listed ==> simple_items(cs, input.pos(), true) == Some(es.skip(items@.len() as int)),
            listed ==> items@.len() < es.len(),
            listed ==> simple_items_end(cs, input.pos(), true) == list_end,
        invariant
            cs == old(input).chars(),
            o == skip_junk(cs, old(input).pos()),
            listed == (text_at(cs, o, "["@) && !text_at(cs, skip_junk(cs, o + 1), "]"@) && simple_items(cs, o + 1, true) is Some),
            listed ==> es == simple_items(cs, o + 1, true)->Some_0,
            list_end == simple_items_end(cs, o + 1, true),
            listed ==> are_path_items(cs, es.take(items@.len() as int), items@),
            trail == (text_at(cs, o, "["@) && !text_at(cs, skip_junk(cs, o + 1), "]"@) && trailing_comma(cs, o + 1, true)),
            trail ==> trailing_comma(cs, input.pos(), true) || (skip_junk(cs, input.pos()) < cs.len()
                && cs[skip_junk(cs, input.pos())] == ']'),
            input.wf(),
            input.chars() == old(input).chars(),
            entry < input.pos(),
            entry == old(input).pos(),
            text_at(old(input).chars(), skip_junk(old(input).chars(), old(input).pos()), "["@),
            !text_at(old(input).chars(), skip_junk(old(input).chars(), skip_junk(old(input).chars(), old(input).pos()) + 1), "]"@),
            ({
                let cs = old(input).chars();
                let j = skip_junk(cs, old(input).pos());
                skip_junk(cs, j + 1) < cs.len() && (cs[skip_junk(cs, j + 1)] == ',' || cs[skip_junk(cs, j + 1)] == ')')
                    ==> input.pos() == skip_junk(cs, j + 1)
            }),
        decreases input.remaining(),
    {
        let ghost before = input.pos();
        proof {
            lemma_skip_junk_idempotent(cs, before);
            reveal_strlit("!");
            if listed {
                let e = skip_junk(cs, before);
                if !var_pattern_at(cs, e) {
                    assert(e + 1 <= cs.len());
                    lemma_skip_junk_idempotent(cs, e + 1);
                }
            }
        }
        let item = fatal(parse_path_pattern(input), "standard array pattern must have patterns after [")?;
        items.push(item);
        proof {
            if listed {
                let e = skip_junk(cs, before);
                lemma_skip_junk_idempotent(cs, input.pos());
                assert(es.skip(items@.len() - 1)[0] == e);
                assert(es.take(items@.len() as int) =~= es.take(items@.len() - 1).push(e));
            }
        }
        if punct(input, ",").is_ok() {
            proof {
                reveal_strlit(",");
                if listed {
                    let e = skip_junk(cs, before);
                    let c = skip_junk(cs, item_end(cs, e));
                    assert(input.pos() == c + 1);
                    assert(text_at(cs, c, ","@));
                    assert(simple_items(cs, before, true) == match simple_items(cs, c + 1, true) {
                        Some(rest) => Some(seq![e] + rest),
                        None => None::<Seq<int>>,
                    });
                    assert(es.skip(items@.len() as int) =~= es.skip(items@.len() - 1).drop_first());
                }
                if trail && trailing_comma(cs, before, true) {
                    let e = skip_junk(cs, before);
                    let c = skip_junk(cs, item_end(cs, e));
                    assert(input.pos() == c + 1);
                }
            }
            continue;
        }
        proof {
            reveal_strlit(",");
            if trail && trailing_comma(cs, before, true) {
                let e = skip_junk(cs, before);
                let c = skip_junk(cs, item_end(cs, e));
                assert(input.pos() == c);
                assert(text_at(cs, c, ","@));
            }
            if listed {
                let e = skip_junk(cs, before);
                let c = skip_junk(cs, item_end(cs, e));
                assert(input.pos() == c);
                assert(!text_at(cs, c, ","@));
                assert(simple_items(cs, before, true) == Some(seq![e]));
                assert(es.skip(items@.len() - 1).len() == 1);
                assert(es.take(items@.len() as int) =~= es);
                assert(list_end == c);
                reveal_strlit("|");
                reveal_strlit("]");
                if c < cs.len() {
                    lemma_skip_junk_idempotent(cs, c + 1);
                }
            }
        }
        if punct(input, "|").is_ok() {
            let rest = Some(Box::new(
                fatal(parse_path_pattern(input), "standard array pattern must have rest pattern after |")?,
            ));
            fatal(punct(input, "]"), "end of standard array pattern must be ]")?;
            return Ok(StandardArrayPattern::Array { items, rest });
        }
        fatal(punct(input, "]"), "end of standard array pattern must be ]")?;
        return Ok(StandardArrayPattern::Array { items, rest: None });
    }
}

/// Parses one of the path patterns. Tried in order: a number, a boolean, a
/// constructor, `name @ p`, `_`, `&path:out`, `!n&path:out`, `!n`, a standard
/// array, and last a variable; then an optional `if e` guard. Fails with
/// `Error` where none starts, and stops at the first fatal failure.
pub fn parse_path_pattern(input: &mut Input) -> (r: Result<PathPattern, ParseError>)
    requires
        old(input).wf(),
    ensures
        old(input).went_on(final(input)),
        r is Ok ==> final(input).pos() > old(input).pos(),
        ({
            let cs = old(input).chars();
            let j = skip_junk(cs, old(input).pos());
            &&& text_at(cs, j, "["@) ==> !(r matches Err(ParseError::Error))
                && (r matches Ok(p) ==> p is StandardArray || p is If)
            &&& j < cs.len() && (cs[j] == ']' || cs[j] == ',' || cs[j] == ')') ==> (r matches Err(ParseError::Error))
            &&& simple_array_with_rest_at(cs, j, true)
                && !token_at(cs, skip_junk(cs, skip_junk(cs, item_end(cs, array_rest_at(cs, j, true))) + 1), "if"@, true)
                ==> (r matches Ok(PathPattern::StandardArray(StandardArrayPattern::Array { items: qs, rest: Some(b) }))
                && are_path_items(cs, simple_items(cs, j + 1, true)->Some_0, qs@)
                && is_path_item(cs, array_rest_at(cs, j, true), *b))
            &&& simple_array_at(cs, j, true)
                && !token_at(cs, skip_junk(cs, simple_items_end(cs, j + 1, true) + 1), "if"@, true)
                ==> (r matches Ok(PathPattern::StandardArray(StandardArrayPattern::Array { items: qs, rest: None }))
                && are_path_items(cs, simple_items(cs, j + 1, true)->Some_0, qs@))
            &&& symbol_at(cs, j) && ascii_lower(cs[j]) && bool_literal(cs, j) is None
                && !text_at(cs, skip_junk(cs, symbol_end(cs, j)), "@"@)
                && token_at(cs, skip_junk(cs, symbol_end(cs, j)), "if"@, true)
                && bool_literal(cs, skip_junk(cs, skip_junk(cs, symbol_end(cs, j)) + 2)) is Some
                ==> (r matches Ok(PathPattern::If { pattern, predicate })
                && ((*pattern) matches PathPattern::Variable(x) && x@ == symbol_text(cs, j))
                && ((*predicate) matches Expr::Bool(b)
                && Some(b) == bool_literal(cs, skip_junk(cs, skip_junk(cs, symbol_end(cs, j)) + 2))))
            &&& text_at(cs, j, "["@) && text_at(cs, skip_junk(cs, j + 1), "]"@)
                && !token_at(cs, skip_junk(cs, skip_junk(cs, j + 1) + 1), "if"@, true)
                ==> (r matches Ok(PathPattern::StandardArray(StandardArrayPattern::Empty)))
            &&& name_at(cs, j, true) ==> !(r matches Err(ParseError::Error)) && (r matches Ok(p) ==> p is Cons || p is If)
            &&& symbol_at(cs, j) && bool_literal(cs, j) is None && !name_at(cs, j, true)
                && text_at(cs, skip_junk(cs, symbol_end(cs, j)), "@"@)
                ==> !(r matches Err(ParseError::Error)) && (r matches Ok(p) ==> p is At || p is If)
            &&& text_at(cs, j, "!"@) ==> !(r matches Err(ParseError::Error))
                && (r matches Ok(p) ==> p is Next || p is NextAnd || p is If)
            &&& text_at(cs, j, "&"@) ==> !(r matches Err(ParseError::Error)) && (r matches Ok(p) ==> p is And || p is If)
            &&& text_at(cs, j, "!"@) && number_at(cs, skip_junk(cs, j + 1)) && !text_at(cs, after_order(cs, j), "&"@)
                && !token_at(cs, after_order(cs, j), "if"@, true) ==> (r matches Ok(PathPattern::Next(Some(n)))
                && n == number_value(cs, skip_junk(cs, j + 1)))
            &&& text_at(cs, j, "!"@) && no_number_at(cs, skip_junk(cs, j + 1)) && !text_at(cs, after_order(cs, j), "&"@)
                && !token_at(cs, after_order(cs, j), "if"@, true) ==> (r matches Ok(PathPattern::Next(None)))
                && final(input).pos() == after_order(cs, j)
            &&& text_at(cs, j, "!"@) && (number_at(cs, skip_junk(cs, j + 1)) || no_number_at(cs, skip_junk(cs, j + 1)))
                && and_at(cs, after_order(cs, j))
                && !token_at(cs, skip_junk(cs, symbol_end(cs, and_output_at(cs, after_order(cs, j)))), "if"@, true)
                ==> (r matches Ok(PathPattern::NextAnd { order, name, output })
                && (number_at(cs, skip_junk(cs, j + 1)) ==> order == Some(number_value(cs, skip_junk(cs, j + 1)) as i64))
                && (!number_at(cs, skip_junk(cs, j + 1)) ==> order is None)
                && name@ == symbol_text(cs, and_name_at(cs, after_order(cs, j)))
                && output@ == symbol_text(cs, and_output_at(cs, after_order(cs, j))))
        }),
        ({
            let cs = old(input).chars();
            let j = skip_junk(cs, old(input).pos());
            &&& j < cs.len() && digit(cs[j]) && digits_value(cs.subrange(j, digits_end(cs, j))) <= i64::MAX
                && !token_at(cs, skip_junk(cs, digits_end(cs, j)), "if"@, true)
                ==> (r matches Ok(PathPattern::Number(n)) && n == digits_value(cs.subrange(j, digits_end(cs, j))))
                && final(input).pos() == skip_junk(cs, digits_end(cs, j))
            &&& symbol_at(cs, j) && ascii_lower(cs[j]) && bool_literal(cs, j) is None
                && !text_at(cs, skip_junk(cs, symbol_end(cs, j)), "@"@)
                && !token_at(cs, skip_junk(cs, symbol_end(cs, j)), "if"@, true)
                ==> (r matches Ok(PathPattern::Variable(s)) && s@ == symbol_text(cs, j))
                && final(input).pos() == skip_junk(cs, symbol_end(cs, j))
        }),
    decreases old(input).remaining(), 3int,
{
    proof {
        reveal_strlit("_");
        reveal_strlit("[");
        reveal_strlit("&");
        reveal_strlit("!");
        let cs = old(input).chars();
        let j = skip_junk(cs, old(input).pos());
        lemma_skip_junk_idempotent(cs, old(input).pos());
        if j < cs.len() {
            lemma_skip_junk_idempotent(cs, j + 1);
        }
        reveal_strlit("true");
        reveal_strlit("false");
        reveal_strlit("if");
        reveal_strlit("]");
        if symbol_at(cs, j) {
            lemma_symbol_text(cs, j);
        }
        if j < cs.len() {
            if text_at(cs, j, "_"@) || text_at(cs, j, "["@) || text_at(cs, j, "&"@) || text_at(cs, j, "!"@) {
                assert(cs[j] == cs.subrange(j, j + 1)[0]);
            }
        }
    }
    let mut found: Option<PathPattern> = None;
    match parse_number(input) {
        Ok(v) => {
            found = Some(PathPattern::Number(v));
        },
        Err(ParseError::Fatal(fs)) => {
            return Err(ParseError::Fatal(fs));
        },
        Err(ParseError::Error) => {},
    }
    if found.is_none() {
        match parse_bool(input) {
            Ok(v) => {
                found = Some(PathPattern::Bool(v));
            },
            Err(ParseError::Fatal(fs)) => {
                return Err(ParseError::Fatal(fs));
            },
            Err(ParseError::Error) => {},
        }
    }
    if found.is_none() {
        match path_constructor(input) {
            Ok(v) => {
                found = Some(v);
            },
            Err(ParseError::Fatal(fs)) => {
                return Err(ParseError::Fatal(fs));
            },
            Err(ParseError::Error) => {},
        }
    }
    if found.is_none() {
        match path_at(input) {
            Ok(v) => {
                found = Some(v);
            },
            Err(ParseError::Fatal(fs)) => {
                return Err(ParseError::Fatal(fs));
            },
            Err(ParseError::Error) => {},
        }
    }
    if found.is_none() {
        match parse_wildcard(input) {
            Ok(_) => {
                found = Some(PathPattern::Wildcard);
            },
            Err(ParseError::Fatal(fs)) => {
                return Err(ParseError::Fatal(fs));
            },
            Err(ParseError::Error) => {},
        }
    }
    if found.is_none() {
        match parse_and(input) {
            Ok(v) => {
                found = Some(v);
            },
            Err(ParseError::Fatal(fs)) => {
                return Err(ParseError::Fatal(fs));
            },
            Err(ParseError::Error) => {},
        }
    }
    if found.is_none() {
        match parse_next_and(input) {
            Ok(v) => {
                found = Some(v);
            },
            Err(ParseError::Fatal(fs)) => {
                return Err(ParseError::Fatal(fs));
            },
            Err(ParseError::Error) => {},
        }
    }
    if found.is_none() {
        match parse_next(input) {
            Ok(v) => {
                found = Some(v);
            },
            Err(ParseError::Fatal(fs)) => {
                return Err(ParseError::Fatal(fs));
            },
            Err(ParseError::Error) => {},
        }
    }
    if found.is_none() {
        match path_standard_array(input) {
            Ok(v) => {
                found = Some(PathPattern::StandardArray(v));
            },
            Err(ParseError::Fatal(fs)) => {
                return Err(ParseError::Fatal(fs));
            },
            Err(ParseError::Error) => {},
        }
    }
    if found.is_none() {
        match parse_variable(input) {
            Ok(v) => {
                found = Some(PathPattern::Variable(v));
            },
            Err(ParseError::Fatal(fs)) => {
                return Err(ParseError::Fatal(fs));
            },
            Err(ParseError::Error) => {},
        }
    }
    let pattern = match found {
        Some(p) => p,
        None => {
            return Err(ParseError::Error);
        },
    };
    if keyword(input, "if").is_err() {
        return Ok(pattern);
    }
    let predicate = Box::new(fatal(parse_expr(input), "pattern must have expression after if")?);
    Ok(PathPattern::If { pattern: Box::new(pattern), predicate })
}

/// `_`.
fn parse_wildcard(input: &mut Input) -> (r: Result<(), ParseError>)
    requires
        old(input).wf(),
    ensures
        old(input).went_on(final(input)),
        r is Ok ==> final(input).pos() > old(input).pos(),
        ({
            let cs = old(input).chars();
            let j = skip_junk(cs, old(input).pos());
            !text_at(cs, j, "_"@) ==> (r matches Err(ParseError::Error))
                && old(input).moved_to(final(input), j)
        }),
{
    proof {
        reveal_strlit("_");
    }
    punct(input, "_")
}

/// `!` or `!n`: the next step of a path, with an optional order.
fn parse_next(input: &mut Input) -> (r: Result<PathPattern, ParseError>)
    requires
        old(input).wf(),
    ensures
        old(input).went_on(final(input)),
        r is Ok ==> final(input).pos() > old(input).pos(),
        ({
            let cs = old(input).chars();
            let j = skip_junk(cs, old(input).pos());
            &&& text_at(cs, j, "!"@) ==> !(r matches Err(ParseError::Error)) && (r matches Ok(p) ==> p is Next)
            &&& text_at(cs, j, "!"@) && number_at(cs, skip_junk(cs, j + 1)) ==> (r matches Ok(PathPattern::Next(Some(n)))
                && n == number_value(cs, skip_junk(cs, j + 1)))
                && final(input).pos() == digits_end(cs, skip_junk(cs, j + 1))
            &&& text_at(cs, j, "!"@) && no_number_at(cs, skip_junk(cs, j + 1)) ==> (r matches Ok(PathPattern::Next(None)))
                && final(input).pos() == skip_junk(cs, j + 1)
        }),
        ({
            let cs = old(input).chars();
            let j = skip_junk(cs, old(input).pos());
            !text_at(cs, j, "!"@) ==> (r matches Err(ParseError::Error))
                && old(input).moved_to(final(input), j)
        }),
{
    proof {
        reveal_strlit("!");
        let cs = old(input).chars();
        lemma_skip_junk_idempotent(cs, old(input).pos());
        let j = skip_junk(cs, old(input).pos());
        if j < cs.len() {
            lemma_skip_junk_idempotent(cs, j + 1);
        }
    }
    punct(input, "!")?;
    let number = maybe(parse_number(input))?;
    Ok(PathPattern::Next(number))
}

/// `&path:out`.
fn parse_and(input: &mut Input) -> (r: Result<PathPattern, ParseError>)
    requires
        old(input).wf(),
    ensures
        old(input).went_on(final(input)),
        r is Ok ==> final(input).pos() > old(input).pos(),
        ({
            let cs = old(input).chars();
            let j = skip_junk(cs, old(input).pos());
            text_at(cs, j, "&"@) ==> !(r matches Err(ParseError::Error)) && (r matches Ok(p) ==> p is And)
        }),
        ({
            let cs = old(input).chars();
            let j = skip_junk(cs, old(input).pos());
            !text_at(cs, j, "&"@) ==> (r matches Err(ParseError::Error))
                && old(input).moved_to(final(input), j)
        }),
{
    proof {
        reveal_strlit("&");
    }
    punct(input, "&")?;
    let name = fatal(parse_symbol(input), "& pattern must have a path name")?;
    fatal(punct(input, ":"), "& pattern must have a ':'")?;
    let output = fatal(parse_symbol(input), "& pattern must have an output")?;
    Ok(PathPattern::And { name, output })
}

/// `!&path:out` or `!n&path:out`; consumes nothing where `&` does not
/// follow the `!` and its order.
fn parse_next_and(input: &mut Input) -> (r: Result<PathPattern, ParseError>)
    requires
        old(input).wf(),
    ensures
        old(input).went_on(final(input)),
        r is Ok ==> final(input).pos() > old(input).pos(),
        ({
            let cs = old(input).chars();
            let j = skip_junk(cs, old(input).pos());
            &&& (r matches Err(ParseError::Error)) ==> old(input).moved_to(final(input), j)
                || old(input).moved_to(final(input), old(input).pos())
            &&& r matches Ok(p) ==> p is NextAnd
            &&& text_at(cs, j, "!"@) && !text_at(cs, after_order(cs, j), "&"@) && (number_at(cs, skip_junk(cs, j + 1))
                || no_number_at(cs, skip_junk(cs, j + 1)))
                ==> (r matches Err(ParseError::Error)) && old(input).moved_to(final(input), old(input).pos())
            &&& text_at(cs, j, "!"@) && and_at(cs, after_order(cs, j)) && (number_at(cs, skip_junk(cs, j + 1))
                || no_number_at(cs, skip_junk(cs, j + 1)))
                ==> (r matches Ok(PathPattern::NextAnd { order, name, output })
                && (number_at(cs, skip_junk(cs, j + 1)) ==> order == Some(number_value(cs, skip_junk(cs, j + 1)) as i64))
                && (!number_at(cs, skip_junk(cs, j + 1)) ==> order is None)
                && name@ == symbol_text(cs, and_name_at(cs, after_order(cs, j)))
                && output@ == symbol_text(cs, and_output_at(cs, after_order(cs, j))))
                && final(input).pos() == symbol_end(cs, and_output_at(cs, after_order(cs, j)))
        }),
        ({
            let cs = old(input).chars();
            let j = skip_junk(cs, old(input).pos());
            !text_at(cs, j, "!"@) ==> (r matches Err(ParseError::Error))
                && old(input).moved_to(final(input), j)
        }),
{
    proof {
        reveal_strlit("!");
        reveal_strlit("&");
        reveal_strlit(":");
        let cs = old(input).chars();
        lemma_skip_junk_idempotent(cs, old(input).pos());
        let j = skip_junk(cs, old(input).pos());
        if j < cs.len() {
            lemma_skip_junk_idempotent(cs, j + 1);
        }
    }
    let rp = input.position();
    punct(input, "!")?;
    let order = maybe(parse_number(input))?;
    if punct(input, "&").is_err() {
        input.rewind(rp);
        return Err(ParseError::Error);
    }
    let name = fatal(parse_symbol(input), "& pattern must have a path name")?;
    fatal(punct(input, ":"), "& pattern must have a ':'")?;
    let output = fatal(parse_symbol(input), "& pattern must have an output")?;
    Ok(PathPattern::NextAnd { order, name, output })
}

} // verus!
