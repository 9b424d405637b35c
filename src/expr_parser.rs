//! The parser of expressions: booleans, numbers, `let`, constructors,
//! lambdas, arrays and variables.

use vstd::prelude::*;
use crate::ast::{Expr, FunParam, Type};
use crate::input::{Input, ParseError};
use crate::type_parser::parse_type;
use crate::chars::{ascii_lower, digit, lowercase};
use crate::util::{
    ascii_word, bool_literal, lemma_digits_end_bounds, lemma_symbol_text, number_at, number_value, digits_end, digits_value, fail, fatal, keyword, lemma_keyword_is_symbol,
    lemma_skip_junk_idempotent, maybe, name_at, parse_bool, parse_junk, parse_name, parse_number, parse_symbol, punct,
    skip_junk, symbol_at, symbol_end, symbol_text, text_at, token_at,
};

verus! {

/// Whether a concrete type name, not followed by `<`, starts at `t`.
pub open spec fn simple_type_at(cs: Seq<char>, t: int) -> bool {
    name_at(cs, t, true) && !lowercase(cs[t]) && !text_at(cs, skip_junk(cs, symbol_end(cs, t)), "<"@)
}

/// Whether a variable that is no keyword or boolean starts at `b`.
pub open spec fn variable_at(cs: Seq<char>, b: int) -> bool {
    symbol_at(cs, b) && ascii_lower(cs[b]) && bool_literal(cs, b) is None && symbol_text(cs, b) != "let"@
}

/// Where the name of the `let` at `j` starts.
pub open spec fn let_name_at(cs: Seq<char>, j: int) -> int {
    skip_junk(cs, j + 3)
}

/// Where the `=` of the `let` at `j` (one without a type) stands.
pub open spec fn let_eq_at(cs: Seq<char>, j: int) -> int {
    skip_junk(cs, symbol_end(cs, let_name_at(cs, j)))
}

/// Where the value of the `let` at `j` starts.
pub open spec fn let_value_at(cs: Seq<char>, j: int) -> int {
    skip_junk(cs, let_eq_at(cs, j) + 1)
}

/// Whether `let x = n in y` starts at `j`, with a number `n` and a
/// variable `y`.
pub open spec fn simple_let_at(cs: Seq<char>, j: int) -> bool {
    let v = let_value_at(cs, j);
    let i = skip_junk(cs, digits_end(cs, v));
    &&& token_at(cs, j, "let"@, true)
    &&& symbol_at(cs, let_name_at(cs, j))
    &&& text_at(cs, let_eq_at(cs, j), "="@)
    &&& number_at(cs, v)
    &&& token_at(cs, i, "in"@, true)
    &&& variable_at(cs, skip_junk(cs, i + 2))
}

/// Where the body of the simple `let` at `j` starts.
pub open spec fn let_body_at(cs: Seq<char>, j: int) -> int {
    skip_junk(cs, skip_junk(cs, digits_end(cs, let_value_at(cs, j))) + 2)
}

/// Whether `|| -> T n` starts at `j`, with a concrete type `T` and a number `n`.
pub open spec fn simple_lambda_at(cs: Seq<char>, j: int) -> bool {
    let a = skip_junk(cs, skip_junk(cs, j + 1) + 1);
    &&& text_at(cs, j, "|"@)
    &&& text_at(cs, skip_junk(cs, j + 1), "|"@)
    &&& text_at(cs, a, "->"@)
    &&& simple_type_at(cs, skip_junk(cs, a + 2))
    &&& number_at(cs, skip_junk(cs, symbol_end(cs, skip_junk(cs, a + 2))))
}

/// Where the return type of the simple lambda at `j` starts.
pub open spec fn lambda_type_at(cs: Seq<char>, j: int) -> int {
    skip_junk(cs, skip_junk(cs, skip_junk(cs, j + 1) + 1) + 2)
}

/// `: T`, the optional type annotation of a `let`.
fn colon_and_type(input: &mut Input) -> (r: Result<Type, ParseError>)
    requires
        old(input).wf(),
    ensures
        old(input).went_on(final(input)),
        r is Ok ==> final(input).pos() > old(input).pos(),
        !text_at(old(input).chars(), skip_junk(old(input).chars(), old(input).pos()), ":"@)
            ==> (r matches Err(ParseError::Error))
            && final(input).pos() == skip_junk(old(input).chars(), old(input).pos()),
{
    proof {
        lemma_skip_junk_idempotent(old(input).chars(), old(input).pos());
    }
    parse_junk(input)?;
    punct(input, ":")?;
    parse_junk(input)?;
    parse_type(input)
}

/// `let x = e in e`, or `let x : T = e in e`.
fn parse_let(input: &mut Input) -> (r: Result<Expr, ParseError>)
    requires
        old(input).wf(),
    ensures
        old(input).went_on(final(input)),
        r is Ok ==> final(input).pos() > old(input).pos(),
        r matches Ok(e) ==> e is Let,
        ({
            let cs = old(input).chars();
            let j = skip_junk(cs, old(input).pos());
            &&& !token_at(cs, j, "let"@, true) ==> (r matches Err(ParseError::Error))
                && old(input).moved_to(final(input), j)
            &&& token_at(cs, j, "let"@, true) ==> !(r matches Err(ParseError::Error))
            &&& simple_let_at(cs, j) ==> (r matches Ok(Expr::Let { name, t, value, expr })
                && name@ == symbol_text(cs, let_name_at(cs, j)) && t is None
                && ((*value) matches Expr::Number(n) && n == number_value(cs, let_value_at(cs, j)))
                && ((*expr) matches Expr::Variable(x) && x@ == symbol_text(cs, let_body_at(cs, j))))
        }),
    decreases old(input).remaining(), 2int,
{
    proof {
        reveal_strlit("let");
        reveal_strlit("in");
        reveal_strlit("=");
        reveal_strlit(":");
        let cs = old(input).chars();
        let j = skip_junk(cs, old(input).pos());
        lemma_skip_junk_idempotent(cs, old(input).pos());
        if simple_let_at(cs, j) {
            let e = let_eq_at(cs, j);
            lemma_symbol_text(cs, let_name_at(cs, j));
            assert(cs[e] == cs.subrange(e, e + 1)[0]);
            lemma_skip_junk_idempotent(cs, symbol_end(cs, let_name_at(cs, j)));
        }
    }
    parse_junk(input)?;
    keyword(input, "let")?;
    let name = fatal(parse_symbol(input), "let must have name")?;
    let t = maybe(colon_and_type(input))?;
    fatal(punct(input, "="), "let must have '='")?;
    let value = Box::new(fatal(parse_expr(input), "let must have value")?);
    fatal(keyword(input, "in"), "let must have 'in'")?;
    let expr = Box::new(fatal(parse_expr(input), "let must have expr")?);
    Ok(Expr::Let { name, t, value, expr })
}

/// A boolean literal as an expression.
pub fn parse_bool_expr(input: &mut Input) -> (r: Result<Expr, ParseError>)
    requires
        old(input).wf(),
    ensures
        old(input).went_on(final(input)),
        r is Ok ==> final(input).pos() > old(input).pos(),
        ({
            let cs = old(input).chars();
            let j = skip_junk(cs, old(input).pos());
            match bool_literal(cs, j) {
                Some(b) => (r matches Ok(Expr::Bool(v)) && v == b) && old(input).moved_to(final(input), symbol_end(cs, j)),
                None => (r matches Err(ParseError::Error)) && old(input).moved_to(final(input), j),
            }
        }),
{
    match parse_bool(input) {
        Ok(b) => Ok(Expr::Bool(b)),
        Err(e) => Err(e),
    }
}

/// A number literal as an expression.
pub fn parse_number_expr(input: &mut Input) -> (r: Result<Expr, ParseError>)
    requires
        old(input).wf(),
    ensures
        old(input).went_on(final(input)),
        r is Ok ==> final(input).pos() > old(input).pos(),
        ({
            let cs = old(input).chars();
            let j = skip_junk(cs, old(input).pos());
            &&& j < cs.len() && digit(cs[j]) && digits_value(cs.subrange(j, digits_end(cs, j))) <= i64::MAX
                ==> (r matches Ok(Expr::Number(n)) && n == digits_value(cs.subrange(j, digits_end(cs, j))))
                && final(input).pos() == digits_end(cs, j)
            &&& !(j < cs.len() && (digit(cs[j]) || cs[j] == '-')) ==> (r matches Err(ParseError::Error))
                && old(input).moved_to(final(input), j)
            &&& (r matches Err(ParseError::Error)) ==> old(input).moved_to(final(input), j)
        }),
{
    match parse_number(input) {
        Ok(n) => Ok(Expr::Number(n)),
        Err(e) => Err(e),
    }
}

/// A variable: a symbol that starts with a lower-case letter.
fn parse_variable_expr(input: &mut Input) -> (r: Result<Expr, ParseError>)
    requires
        old(input).wf(),
    ensures
        old(input).went_on(final(input)),
        r is Ok ==> final(input).pos() > old(input).pos(),
        ({
            let cs = old(input).chars();
            let j = skip_junk(cs, old(input).pos());
            if name_at(cs, j, false) {
                (r matches Ok(Expr::Variable(s)) && s@ == symbol_text(cs, j))
                    && old(input).moved_to(final(input), symbol_end(cs, j))
            } else {
                (r matches Err(ParseError::Error)) && old(input).moved_to(final(input), old(input).pos())
            }
        }),
{
    match parse_name(input, false) {
        Ok(sym) => Ok(Expr::Variable(sym)),
        Err(e) => Err(e),
    }
}

/// The starts of a comma-separated list of numbers from `p` on, closed by
/// `close`; `None` where the text is not such a list.
pub open spec fn numbers(cs: Seq<char>, p: int, close: Seq<char>) -> Option<Seq<int>>
    decreases cs.len() - p,
{
    if p < 0 || p > cs.len() {
        None
    } else {
        let e = skip_junk(cs, p);
        let c = skip_junk(cs, digits_end(cs, e));
        if !number_at(cs, e) {
            None
        } else if text_at(cs, c, ","@) && p < c + 1 <= cs.len() {
            match numbers(cs, c + 1, close) {
                Some(rest) => Some(seq![e] + rest),
                None => None,
            }
        } else if !text_at(cs, c, ","@) && text_at(cs, c, close) {
            Some(seq![e])
        } else {
            None
        }
    }
}

/// Where the list of numbers from `p` ends, after its closing text.
pub open spec fn numbers_end(cs: Seq<char>, p: int, close: Seq<char>) -> int
    decreases cs.len() - p,
{
    if p < 0 || p > cs.len() {
        p
    } else {
        let e = skip_junk(cs, p);
        let c = skip_junk(cs, digits_end(cs, e));
        if text_at(cs, c, ","@) && p < c + 1 <= cs.len() {
            numbers_end(cs, c + 1, close)
        } else {
            c + close.len()
        }
    }
}

/// Whether `xs` are, one for one, the numbers written at `es`.
pub open spec fn are_numbers(cs: Seq<char>, es: Seq<int>, xs: Seq<Expr>) -> bool {
    xs.len() == es.len() && forall|i: int| 0 <= i < es.len() ==> (#[trigger] xs[i] matches Expr::Number(n)
        && n == number_value(cs, es[i]))
}

proof fn lemma_numbers_after_junk(cs: Seq<char>, p: int, close: Seq<char>)
    requires
        0 <= p <= cs.len(),
    ensures
        numbers(cs, skip_junk(cs, p), close) == numbers(cs, p, close),
        numbers(cs, p, close) is Some ==> numbers_end(cs, skip_junk(cs, p), close) == numbers_end(cs, p, close),
{
    lemma_skip_junk_idempotent(cs, p);
    let e = skip_junk(cs, p);
    if number_at(cs, e) {
        lemma_digits_end_bounds(cs, e);
        assert(digits_end(cs, e) == digits_end(cs, e + 1));
        lemma_digits_end_bounds(cs, e + 1);
        lemma_skip_junk_idempotent(cs, digits_end(cs, e));
    }
}

/// `(e, ...)`: the arguments of a constructor.
fn parse_expr_params(input: &mut Input) -> (r: Result<Vec<Expr>, ParseError>)
    requires
        old(input).wf(),
    ensures
        old(input).went_on(final(input)),
        r is Ok ==> final(input).pos() > old(input).pos(),
        ({
            let cs = old(input).chars();
            let j = skip_junk(cs, old(input).pos());
            &&& !text_at(cs, j, "("@) ==> (r matches Err(ParseError::Error)) && old(input).moved_to(final(input), j)
            &&& text_at(cs, j, "("@) && numbers(cs, j + 1, ")"@) is Some ==> (r matches Ok(ps)
                && are_numbers(cs, numbers(cs, j + 1, ")"@)->Some_0, ps@))
                && final(input).pos() == numbers_end(cs, j + 1, ")"@)
        }),
    decreases old(input).remaining(), 1int,
{
    proof {
        reveal_strlit("(");
        reveal_strlit(")");
        lemma_skip_junk_idempotent(old(input).chars(), old(input).pos());
    }
    let ghost cs = old(input).chars();
    let ghost o = skip_junk(cs, old(input).pos());
    let ghost listed = text_at(cs, o, "("@) && numbers(cs, o + 1, ")"@) is Some;
    let ghost es = if listed { numbers(cs, o + 1, ")"@)->Some_0 } else { Seq::empty() };
    let ghost list_end = numbers_end(cs, o + 1, ")"@);
    punct(input, "(")?;
    proof {
        if listed {
            lemma_skip_junk_idempotent(cs, o + 1);
            let e = skip_junk(cs, o + 1);
            if text_at(cs, e, ")"@) {
                assert(cs[e] == cs.subrange(e, e + 1)[0]);
            }
        }
    }
    if punct(input, ")").is_ok() {
        return Ok(Vec::new());
    }
    let ghost entry = old(input).pos();
    let mut ps: Vec<Expr> = Vec::new();
    proof {
        if listed {
            lemma_numbers_after_junk(cs, o + 1, ")"@);
            assert(es.skip(0) =~= es);
            assert(es.take(0) =~= Seq::<int>::empty());
        }
    }
    loop
        invariant_except_break
            listed ==> numbers(cs, input.pos(), ")"@) == Some(es.skip(ps@.len() as int)),
            listed ==> ps@.len() < es.len(),
            listed ==> numbers_end(cs, input.pos(), ")"@) == list_end,
        invariant
            input.wf(),
            input.chars() == old(input).chars(),
            entry < input.pos(),
            entry == old(input).pos(),
            text_at(old(input).chars(), skip_junk(old(input).chars(), old(input).pos()), "("@),
            cs == old(input).chars(),
            o == skip_junk(cs, old(input).pos()),
            listed == (text_at(cs, o, "("@) && numbers(cs, o + 1, ")"@) is Some),
            listed ==> es == numbers(cs, o + 1, ")"@)->Some_0,
            list_end == numbers_end(cs, o + 1, ")"@),
            listed ==> are_numbers(cs, es.take(ps@.len() as int), ps@),
        ensures
            listed ==> are_numbers(cs, es, ps@) && input.pos() == list_end,
        decreases input.remaining(),
    {
        let ghost before = input.pos();
        proof {
            lemma_skip_junk_idempotent(cs, before);
        }
        ps.push(parse_expr(input)?);
        proof {
            if listed {
                let e = skip_junk(cs, before);
                lemma_skip_junk_idempotent(cs, input.pos());
                assert(es.skip(ps@.len() - 1)[0] == e);
                assert(es.take(ps@.len() as int) =~= es.take(ps@.len() - 1).push(e));
            }
        }
        if punct(input, ",").is_ok() {
            proof {
                reveal_strlit(",");
                if listed {
                    let e = skip_junk(cs, before);
                    let c = skip_junk(cs, digits_end(cs, e));
                    assert(input.pos() == c + 1);
                    assert(text_at(cs, c, ","@));
                    assert(numbers(cs, before, ")"@) == match numbers(cs, c + 1, ")"@) {
                        Some(rest) => Some(seq![e] + rest),
                        None => None::<Seq<int>>,
                    });
                    assert(es.skip(ps@.len() as int) =~= es.skip(ps@.len() - 1).drop_first());
                }
            }
            continue;
        }
        if punct(input, ")").is_ok() {
            proof {
                reveal_strlit(",");
                reveal_strlit(")");
                if listed {
                    let e = skip_junk(cs, before);
                    let c = skip_junk(cs, digits_end(cs, e));
                    assert(input.pos() == c + 1);
                    assert(!text_at(cs, c, ","@));
                    assert(numbers(cs, before, ")"@) == Some(seq![e]));
                    assert(es.skip(ps@.len() - 1).len() == 1);
                    assert(es.take(ps@.len() as int) =~= es);
                }
            }
            break;
        }
        return fail("list parameters must have ending ')'");
    }
    Ok(ps)
}

/// A constructor: a symbol that starts with an upper-case letter, with an
/// optional argument list.
fn parse_constructor_expr(input: &mut Input) -> (r: Result<Expr, ParseError>)
    requires
        old(input).wf(),
    ensures
        old(input).went_on(final(input)),
        r is Ok ==> final(input).pos() > old(input).pos(),
        r matches Ok(e) ==> e is Cons,
        !name_at(old(input).chars(), skip_junk(old(input).chars(), old(input).pos()), true)
            ==> (r matches Err(ParseError::Error)) && old(input).moved_to(final(input), old(input).pos()),
        ({
            let cs = old(input).chars();
            let j = skip_junk(cs, old(input).pos());
            let k = skip_junk(cs, symbol_end(cs, j));
            &&& name_at(cs, j, true) ==> !(r matches Err(ParseError::Error))
                && (r matches Ok(e) ==> (e matches Expr::Cons { name, params: _ } && name@ == symbol_text(cs, j)))
            &&& name_at(cs, j, true) && text_at(cs, k, "("@) && numbers(cs, k + 1, ")"@) is Some
                ==> (r matches Ok(Expr::Cons { name, params }) && name@ == symbol_text(cs, j)
                && are_numbers(cs, numbers(cs, k + 1, ")"@)->Some_0, params@))
            &&& name_at(cs, j, true) && !text_at(cs, k, "("@) ==> (r matches Ok(Expr::Cons { name, params })
                && name@ == symbol_text(cs, j) && params@.len() == 0) && final(input).pos() == k
        }),
    decreases old(input).remaining(), 2int,
{
    let name = parse_name(input, true)?;
    match maybe(parse_expr_params(input))? {
        Some(params) => Ok(Expr::Cons { name, params }),
        None => Ok(Expr::Cons { name, params: Vec::new() }),
    }
}

/// `: T` after a lambda parameter.
fn parse_colon_type(input: &mut Input) -> (r: Result<Type, ParseError>)
    requires
        old(input).wf(),
    ensures
        old(input).went_on(final(input)),
        r is Ok ==> final(input).pos() > old(input).pos(),
{
    punct(input, ":")?;
    fatal(parse_type(input), "lambda parameter must have type after ':'")
}

/// `x` or `x : T`.
fn parse_lambda_param(input: &mut Input) -> (r: Result<FunParam, ParseError>)
    requires
        old(input).wf(),
    ensures
        old(input).went_on(final(input)),
        r is Ok ==> final(input).pos() > old(input).pos(),
{
    let name = parse_symbol(input)?;
    let t = maybe(parse_colon_type(input))?;
    Ok(FunParam { name, t })
}

/// `|p, ...|`: the parameters of a lambda.
fn parse_lambda_params(input: &mut Input) -> (r: Result<Vec<FunParam>, ParseError>)
    requires
        old(input).wf(),
    ensures
        old(input).went_on(final(input)),
        r is Ok ==> final(input).pos() > old(input).pos(),
        ({
            let cs = old(input).chars();
            let j = skip_junk(cs, old(input).pos());
            &&& !text_at(cs, j, "|"@) ==> (r matches Err(ParseError::Error))
                && old(input).moved_to(final(input), j)
            &&& text_at(cs, j, "|"@) && text_at(cs, skip_junk(cs, j + 1), "|"@) ==> (r matches Ok(ps) && ps@.len() == 0)
                && final(input).pos() == skip_junk(cs, j + 1) + 1
        }),
{
    proof {
        reveal_strlit("|");
        lemma_skip_junk_idempotent(old(input).chars(), old(input).pos());
    }
    punct(input, "|")?;
    if punct(input, "|").is_ok() {
        return Ok(Vec::new());
    }
    let ghost entry = old(input).pos();
    let mut ps: Vec<FunParam> = Vec::new();
    loop
        invariant
            input.wf(),
            input.chars() == old(input).chars(),
            entry < input.pos(),
            entry == old(input).pos(),
            text_at(old(input).chars(), skip_junk(old(input).chars(), old(input).pos()), "|"@),
            !text_at(old(input).chars(), skip_junk(old(input).chars(), skip_junk(old(input).chars(), old(input).pos()) + 1), "|"@),
        decreases input.remaining(),
    {
        ps.push(parse_lambda_param(input)?);
        if punct(input, ",").is_ok() {
            continue;
        }
        if punct(input, "|").is_ok() {
            break;
        }
        return fail("lambda parameters must have ending '|'");
    }
    Ok(ps)
}

/// `-> T` after lambda parameters.
fn return_type(input: &mut Input) -> (r: Result<Type, ParseError>)
    requires
        old(input).wf(),
    ensures
        old(input).went_on(final(input)),
        r is Ok ==> final(input).pos() > old(input).pos(),
        ({
            let cs = old(input).chars();
            let a = skip_junk(cs, old(input).pos());
            &&& !text_at(cs, a, "->"@) ==> (r matches Err(ParseError::Error)) && final(input).pos() == a
            &&& text_at(cs, a, "->"@) && simple_type_at(cs, skip_junk(cs, a + 2))
                ==> (r matches Ok(Type::Concrete(n)) && n@ == symbol_text(cs, skip_junk(cs, a + 2)))
                && final(input).pos() == skip_junk(cs, symbol_end(cs, skip_junk(cs, a + 2)))
        }),
{
    proof {
        reveal_strlit("->");
    }
    punct(input, "->")?;
    fatal(parse_type(input), "return_type must have a type after '->'")
}

/// `|p, ...| e` or `|p, ...| -> T e`.
fn parse_lambda(input: &mut Input) -> (r: Result<Expr, ParseError>)
    requires
        old(input).wf(),
    ensures
        old(input).went_on(final(input)),
        r is Ok ==> final(input).pos() > old(input).pos(),
        r matches Ok(e) ==> e is Lambda,
        ({
            let cs = old(input).chars();
            let j = skip_junk(cs, old(input).pos());
            &&& !text_at(cs, j, "|"@) ==> (r matches Err(ParseError::Error))
                && old(input).moved_to(final(input), j)
            &&& simple_lambda_at(cs, j) ==> (r matches Ok(Expr::Lambda { params, return_type, expr })
                && params@.len() == 0
                && (return_type matches Some(Type::Concrete(n)) && n@ == symbol_text(cs, lambda_type_at(cs, j)))
                && ((*expr) matches Expr::Number(k)
                && k == number_value(cs, skip_junk(cs, symbol_end(cs, lambda_type_at(cs, j))))))
        }),
    decreases old(input).remaining(), 2int,
{
    proof {
        let cs = old(input).chars();
        lemma_skip_junk_idempotent(cs, old(input).pos());
    }
    let params = parse_lambda_params(input)?;
    let return_type = maybe(return_type(input))?;
    let expr = Box::new(fatal(parse_expr(input), "lambda must have expr")?);
    Ok(Expr::Lambda { params, return_type, expr })
}

/// `[e, ...]`.
fn parse_array_expr(input: &mut Input) -> (r: Result<Expr, ParseError>)
    requires
        old(input).wf(),
    ensures
        old(input).went_on(final(input)),
        r is Ok ==> final(input).pos() > old(input).pos(),
        r matches Ok(e) ==> e is Array,
        ({
            let cs = old(input).chars();
            let j = skip_junk(cs, old(input).pos());
            !text_at(cs, j, "["@) ==> (r matches Err(ParseError::Error))
                && old(input).moved_to(final(input), j)
        }),
    decreases old(input).remaining(), 2int,
{
    proof {
        reveal_strlit("[");
    }
    punct(input, "[")?;
    if punct(input, "]").is_ok() {
        return Ok(Expr::Array(Vec::new()));
    }
    let ghost entry = old(input).pos();
    let mut es: Vec<Expr> = Vec::new();
    loop
        invariant
            input.wf(),
            input.chars() == old(input).chars(),
            entry < input.pos(),
            entry == old(input).pos(),
            text_at(old(input).chars(), skip_junk(old(input).chars(), old(input).pos()), "["@),
        decreases input.remaining(),
    {
        es.push(parse_expr(input)?);
        if punct(input, ",").is_ok() {
            continue;
        }
        if punct(input, "]").is_ok() {
            break;
        }
        return fail("array must have ending ']'");
    }
    Ok(Expr::Array(es))
}

/// Parses an expression. Tried in order: a boolean, a number, `let`, a
/// constructor, a lambda, an array, and last a variable (so that keywords
/// are not taken for variables). Fails with `Error` where none starts, and
/// stops at the first fatal failure.
pub fn parse_expr(input: &mut Input) -> (r: Result<Expr, ParseError>)
    requires
        old(input).wf(),
    ensures
        old(input).went_on(final(input)),
        r is Ok ==> final(input).pos() > old(input).pos(),
        ({
            let cs = old(input).chars();
            let j = skip_junk(cs, old(input).pos());
            &&& bool_literal(cs, j) is Some ==> (r matches Ok(Expr::Bool(v)) && Some(v) == bool_literal(cs, j))
                && final(input).pos() == symbol_end(cs, j)
            &&& j < cs.len() && digit(cs[j]) && digits_value(cs.subrange(j, digits_end(cs, j))) <= i64::MAX
                ==> (r matches Ok(Expr::Number(n)) && n == digits_value(cs.subrange(j, digits_end(cs, j))))
                && final(input).pos() == digits_end(cs, j)
            &&& symbol_at(cs, j) && ascii_lower(cs[j]) && bool_literal(cs, j) is None && symbol_text(cs, j) != "let"@
                ==> (r matches Ok(Expr::Variable(s)) && s@ == symbol_text(cs, j))
                && final(input).pos() == symbol_end(cs, j)
            &&& token_at(cs, j, "let"@, true) ==> !(r matches Err(ParseError::Error)) && (r matches Ok(e) ==> e is Let)
            &&& name_at(cs, j, true) ==> !(r matches Err(ParseError::Error))
                && (r matches Ok(e) ==> (e matches Expr::Cons { name, params: _ } && name@ == symbol_text(cs, j)))
            &&& name_at(cs, j, true) && text_at(cs, skip_junk(cs, symbol_end(cs, j)), "("@)
                && numbers(cs, skip_junk(cs, symbol_end(cs, j)) + 1, ")"@) is Some
                ==> (r matches Ok(Expr::Cons { name, params }) && name@ == symbol_text(cs, j)
                && are_numbers(cs, numbers(cs, skip_junk(cs, symbol_end(cs, j)) + 1, ")"@)->Some_0, params@))
            &&& name_at(cs, j, true) && !text_at(cs, skip_junk(cs, symbol_end(cs, j)), "("@)
                ==> (r matches Ok(Expr::Cons { name, params }) && name@ == symbol_text(cs, j) && params@.len() == 0)
                && final(input).pos() == skip_junk(cs, symbol_end(cs, j))
            &&& simple_let_at(cs, j) ==> (r matches Ok(Expr::Let { name, t, value, expr })
                && name@ == symbol_text(cs, let_name_at(cs, j)) && t is None
                && ((*value) matches Expr::Number(n) && n == number_value(cs, let_value_at(cs, j)))
                && ((*expr) matches Expr::Variable(x) && x@ == symbol_text(cs, let_body_at(cs, j))))
            &&& simple_lambda_at(cs, j) ==> (r matches Ok(Expr::Lambda { params, return_type, expr })
                && params@.len() == 0
                && (return_type matches Some(Type::Concrete(n)) && n@ == symbol_text(cs, lambda_type_at(cs, j)))
                && ((*expr) matches Expr::Number(k)
                && k == number_value(cs, skip_junk(cs, symbol_end(cs, lambda_type_at(cs, j))))))
        }),
    decreases old(input).remaining(), 3int,
{
    proof {
        reveal_strlit("let");
        reveal_strlit("|");
        reveal_strlit("[");
        let cs = old(input).chars();
        let j = skip_junk(cs, old(input).pos());
        lemma_skip_junk_idempotent(cs, old(input).pos());
        reveal_strlit("true");
        reveal_strlit("false");
        if symbol_at(cs, j) {
            lemma_symbol_text(cs, j);
            if token_at(cs, j, "let"@, true) {
                assert(ascii_word("let"@));
                lemma_keyword_is_symbol(cs, j, "let"@);
            }
        }
        if token_at(cs, j, "let"@, true) || text_at(cs, j, "|"@) || text_at(cs, j, "["@) {
            assert(cs[j] == cs.subrange(j, j + 1)[0]);
        }
        if symbol_at(cs, j) && ascii_lower(cs[j]) {
            if token_at(cs, j, "let"@, true) {
                assert(ascii_word("let"@));
                lemma_keyword_is_symbol(cs, j, "let"@);
            }
            if text_at(cs, j, "|"@) {
                assert(cs[j] == cs.subrange(j, j + 1)[0]);
            }
            if text_at(cs, j, "["@) {
                assert(cs[j] == cs.subrange(j, j + 1)[0]);
            }
        }
    }
    match parse_bool_expr(input) {
        Err(ParseError::Error) => {},
        r => {
            return r;
        },
    }
    match parse_number_expr(input) {
        Err(ParseError::Error) => {},
        r => {
            return r;
        },
    }
    match parse_let(input) {
        Err(ParseError::Error) => {},
        r => {
            return r;
        },
    }
    match parse_constructor_expr(input) {
        Err(ParseError::Error) => {},
        r => {
            return r;
        },
    }
    match parse_lambda(input) {
        Err(ParseError::Error) => {},
        r => {
            return r;
        },
    }
    match parse_array_expr(input) {
        Err(ParseError::Error) => {},
        r => {
            return r;
        },
    }
    parse_variable_expr(input)
}

} // verus!
