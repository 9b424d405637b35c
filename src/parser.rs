//! The parser of whole programs: a sequence of function definitions
//! `fun name(a : T, ...) -> T = e;` and data definitions
//! `data X = A | B(T, ...);`.

use vstd::prelude::*;
use crate::ast::{Ast, ConsDef, Expr, FunParam, Type};
use crate::expr_parser::parse_expr;
use crate::input::{texts, Input, ParseError};
use crate::type_parser::{
    are_bare_types, bare_type_at, bare_type_end, bare_types, bare_types_end, is_bare_type, lemma_bare_types_after_junk,
    parse_type,
};
use crate::util::{
    fail, fatal, keyword, lemma_skip_junk_idempotent, lemma_symbol_text, maybe, name_at, symbol_at, symbol_text, parse_name, parse_symbol, punct, skip_junk,
    symbol_end, text_at, token_at, number_at, number_value, digits_end,
};

verus! {

/// Parses a whole program. Stops at the first place where no definition
/// starts, returning the definitions before it, or at the first fatal
/// failure. Input that does not start (after whitespace and comments) with
/// the keyword `fun` or `data` holds no definition; in particular, input that
/// is only whitespace and comments.
pub fn parse(input: &str) -> (r: Result<Vec<Ast>, ParseError>)
    ensures
        !token_at(input@, skip_junk(input@, 0), "fun"@, true) && !token_at(input@, skip_junk(input@, 0), "data"@, true)
            ==> (r matches Ok(tls) && tls@.len() == 0),
        skip_junk(input@, 0) == input@.len() ==> (r matches Ok(tls) && tls@.len() == 0),
        token_at(input@, skip_junk(input@, 0), "fun"@, true)
            ==> (r matches Ok(tls) ==> tls@.len() > 0 && tls@[0] is FunDef),
        simple_fun_def_at(input@, skip_junk(input@, 0)) && skip_junk(input@, fun_def_end(input@, skip_junk(input@, 0)))
            == input@.len() ==> (r matches Ok(tls) && tls@.len() == 1 && tls@[0] is FunDef),
        simple_data_def_at(input@, skip_junk(input@, 0)) && skip_junk(input@, data_def_end(input@, skip_junk(input@, 0)))
            == input@.len() ==> (r matches Ok(tls) && tls@.len() == 1 && tls@[0] is DataDef),
        token_at(input@, skip_junk(input@, 0), "data"@, true)
            ==> (r matches Ok(tls) ==> tls@.len() > 0 && tls@[0] is DataDef),
{
    proof {
        reveal_strlit("fun");
        reveal_strlit("data");
        if skip_junk(input@, 0) == input@.len() {
            assert(!token_at(input@, skip_junk(input@, 0), "fun"@, true));
            assert(!token_at(input@, skip_junk(input@, 0), "data"@, true));
        }
    }
    let mut cursor = Input::new(input);
    let mut tls: Vec<Ast> = Vec::new();
    loop
        invariant
            cursor.wf(),
            cursor.chars() == input@,
            !token_at(input@, skip_junk(input@, 0), "fun"@, true) && !token_at(input@, skip_junk(input@, 0), "data"@, true)
                ==> tls@.len() == 0 && cursor.pos() == 0,
            skip_junk(input@, 0) == input@.len() ==> !token_at(input@, skip_junk(input@, 0), "fun"@, true)
                && !token_at(input@, skip_junk(input@, 0), "data"@, true),
            tls@.len() == 0 ==> cursor.pos() == 0,
            simple_fun_def_at(input@, skip_junk(input@, 0)) && skip_junk(input@, fun_def_end(input@, skip_junk(input@, 0)))
                == input@.len() ==> tls@.len() <= 1 && (tls@.len() == 1 ==> cursor.pos()
                == fun_def_end(input@, skip_junk(input@, 0))),
            simple_data_def_at(input@, skip_junk(input@, 0)) && skip_junk(input@, data_def_end(input@, skip_junk(input@, 0)))
                == input@.len() ==> tls@.len() <= 1 && (tls@.len() == 1 ==> cursor.pos()
                == data_def_end(input@, skip_junk(input@, 0))),
            token_at(input@, skip_junk(input@, 0), "fun"@, true) && tls@.len() > 0 ==> tls@[0] is FunDef,
            token_at(input@, skip_junk(input@, 0), "data"@, true) && tls@.len() > 0 ==> tls@[0] is DataDef,
        decreases cursor.remaining(),
    {
        proof {
            reveal_strlit("fun");
            reveal_strlit("data");
            lemma_skip_junk_idempotent(input@, cursor.pos());
        }
        match parse_top_level(&mut cursor) {
            Ok(tl) => tls.push(tl),
            Err(ParseError::Error) => {
                return Ok(tls);
            },
            Err(ParseError::Fatal(fs)) => {
                return Err(ParseError::Fatal(fs));
            },
        }
    }
}

/// Where the type of the parameter `name : T` at `e` starts.
pub open spec fn param_type_at(cs: Seq<char>, e: int) -> int {
    skip_junk(cs, skip_junk(cs, symbol_end(cs, e)) + 1)
}

/// Whether a parameter `name : T` with a bare type `T` starts at `e`.
pub open spec fn fun_param_at(cs: Seq<char>, e: int) -> bool {
    symbol_at(cs, e) && text_at(cs, skip_junk(cs, symbol_end(cs, e)), ":"@) && bare_type_at(cs, param_type_at(cs, e))
}

/// Where the parameter at `e` ends.
pub open spec fn fun_param_end(cs: Seq<char>, e: int) -> int {
    bare_type_end(cs, param_type_at(cs, e))
}

/// Whether `q` is the parameter written at `e`.
pub open spec fn is_fun_param(cs: Seq<char>, e: int, q: FunParam) -> bool {
    q.name@ == symbol_text(cs, e) && (q.t matches Some(t) && is_bare_type(cs, param_type_at(cs, e), t))
}

/// The starts of a comma-separated list of parameters from `p` on, closed
/// by `)`; `None` where the text is not such a list.
pub open spec fn fun_params(cs: Seq<char>, p: int) -> Option<Seq<int>>
    decreases cs.len() - p,
{
    if p < 0 || p > cs.len() {
        None
    } else {
        let e = skip_junk(cs, p);
        let c = skip_junk(cs, fun_param_end(cs, e));
        if !fun_param_at(cs, e) {
            None
        } else if text_at(cs, c, ","@) && p < c + 1 <= cs.len() {
            match fun_params(cs, c + 1) {
                Some(rest) => Some(seq![e] + rest),
                None => None,
            }
        } else if !text_at(cs, c, ","@) && text_at(cs, c, ")"@) {
            Some(seq![e])
        } else {
            None
        }
    }
}

/// Where the list of parameters from `p` ends, after its `)`.
pub open spec fn fun_params_end(cs: Seq<char>, p: int) -> int
    decreases cs.len() - p,
{
    if p < 0 || p > cs.len() {
        p
    } else {
        let e = skip_junk(cs, p);
        let c = skip_junk(cs, fun_param_end(cs, e));
        if text_at(cs, c, ","@) && p < c + 1 <= cs.len() {
            fun_params_end(cs, c + 1)
        } else {
            c + 1
        }
    }
}

/// Whether `qs` are, one for one, the parameters written at `es`.
pub open spec fn are_fun_params(cs: Seq<char>, es: Seq<int>, qs: Seq<FunParam>) -> bool {
    qs.len() == es.len() && forall|i: int| 0 <= i < es.len() ==> is_fun_param(cs, es[i], #[trigger] qs[i])
}

proof fn lemma_fun_params_after_junk(cs: Seq<char>, p: int)
    requires
        0 <= p <= cs.len(),
    ensures
        fun_params(cs, skip_junk(cs, p)) == fun_params(cs, p),
        fun_params(cs, p) is Some ==> fun_params_end(cs, skip_junk(cs, p)) == fun_params_end(cs, p),
{
    lemma_skip_junk_idempotent(cs, p);
    let e = skip_junk(cs, p);
    if fun_param_at(cs, e) {
        lemma_symbol_text(cs, e);
        lemma_skip_junk_idempotent(cs, symbol_end(cs, e));
        reveal_strlit(":");
        lemma_skip_junk_idempotent(cs, skip_junk(cs, symbol_end(cs, e)) + 1);
        let t = param_type_at(cs, e);
        lemma_symbol_text(cs, t);
        lemma_skip_junk_idempotent(cs, symbol_end(cs, t));
        lemma_skip_junk_idempotent(cs, fun_param_end(cs, e));
    }
}

/// `name : T`, one parameter of a function definition.
fn parse_fun_param(input: &mut Input) -> (r: Result<FunParam, ParseError>)
    requires
        old(input).wf(),
    ensures
        old(input).went_on(final(input)),
        r is Ok ==> final(input).pos() > old(input).pos(),
        ({
            let cs = old(input).chars();
            let e = skip_junk(cs, old(input).pos());
            fun_param_at(cs, e) ==> (r matches Ok(q) && is_fun_param(cs, e, q))
                && final(input).pos() == fun_param_end(cs, e)
        }),
{
    proof {
        reveal_strlit(":");
        let cs = old(input).chars();
        let e = skip_junk(cs, old(input).pos());
        lemma_skip_junk_idempotent(cs, old(input).pos());
        if fun_param_at(cs, e) {
            lemma_symbol_text(cs, e);
            lemma_skip_junk_idempotent(cs, symbol_end(cs, e));
        }
    }
    let name = parse_symbol(input)?;
    fatal(punct(input, ":"), "fun parameter needs :")?;
    let t = Some(fatal(parse_type(input), "fun parameter needs types")?);
    Ok(FunParam { name, t })
}

/// `(name : T, ...)`: the parameters of a function definition.
fn parse_fun_params(input: &mut Input) -> (r: Result<Vec<FunParam>, ParseError>)
    requires
        old(input).wf(),
    ensures
        old(input).went_on(final(input)),
        r is Ok ==> final(input).pos() > old(input).pos(),
        ({
            let cs = old(input).chars();
            let o = skip_junk(cs, old(input).pos());
            text_at(cs, o, "("@) && fun_params(cs, o + 1) is Some ==> (r matches Ok(ps)
                && are_fun_params(cs, fun_params(cs, o + 1)->Some_0, ps@))
                && final(input).pos() == fun_params_end(cs, o + 1)
        }),
{
    proof {
        reveal_strlit("(");
        reveal_strlit(")");
        lemma_skip_junk_idempotent(old(input).chars(), old(input).pos());
    }
    let ghost cs = old(input).chars();
    let ghost o = skip_junk(cs, old(input).pos());
    let ghost listed = text_at(cs, o, "("@) && fun_params(cs, o + 1) is Some;
    let ghost es = if listed { fun_params(cs, o + 1)->Some_0 } else { Seq::empty() };
    let ghost list_end = fun_params_end(cs, o + 1);
    punct(input, "(")?;
    proof {
        if listed {
            lemma_skip_junk_idempotent(cs, o + 1);
            let e = skip_junk(cs, o + 1);
            lemma_symbol_text(cs, e);
            if text_at(cs, e, ")"@) {
                assert(cs[e] == cs.subrange(e, e + 1)[0]);
            }
        }
    }
    if punct(input, ")").is_ok() {
        return Ok(Vec::new());
    }
    let ghost entry = old(input).pos();
    let mut ps: Vec<FunParam> = Vec::new();
    proof {
        if listed {
            lemma_fun_params_after_junk(cs, o + 1);
            assert(es.skip(0) =~= es);
            assert(es.take(0) =~= Seq::<int>::empty());
        }
    }
    loop
        invariant_except_break
            listed ==> fun_params(cs, input.pos()) == Some(es.skip(ps@.len() as int)),
            listed ==> ps@.len() < es.len(),
            listed ==> fun_params_end(cs, input.pos()) == list_end,
        invariant
            input.wf(),
            input.chars() == old(input).chars(),
            entry < input.pos(),
            entry == old(input).pos(),
            cs == old(input).chars(),
            o == skip_junk(cs, old(input).pos()),
            listed == (text_at(cs, o, "("@) && fun_params(cs, o + 1) is Some),
            listed ==> es == fun_params(cs, o + 1)->Some_0,
            list_end == fun_params_end(cs, o + 1),
            listed ==> are_fun_params(cs, es.take(ps@.len() as int), ps@),
        ensures
            listed ==> are_fun_params(cs, es, ps@) && input.pos() == list_end,
        decreases input.remaining(),
    {
        let ghost before = input.pos();
        proof {
            lemma_skip_junk_idempotent(cs, before);
        }
        ps.push(parse_fun_param(input)?);
        proof {
            if listed {
                let e = skip_junk(cs, before);
                lemma_skip_junk_idempotent(cs, input.pos());
                assert(es.skip(ps@.len() - 1)[0] == e);
                assert(es.take(ps@.len() as int) =~= es.take(ps@.len() - 1).push(e));
            }
        }
        if punct(input, ",").is_ok() {
            proof {
                reveal_strlit(",");
                if listed {
                    let e = skip_junk(cs, before);
                    let c = skip_junk(cs, fun_param_end(cs, e));
                    assert(input.pos() == c + 1);
                    assert(text_at(cs, c, ","@));
                    assert(fun_params(cs, before) == match fun_params(cs, c + 1) {
                        Some(rest) => Some(seq![e] + rest),
                        None => None::<Seq<int>>,
                    });
                    assert(es.skip(ps@.len() as int) =~= es.skip(ps@.len() - 1).drop_first());
                }
            }
            continue;
        }
        if punct(input, ")").is_ok() {
            proof {
                reveal_strlit(",");
                reveal_strlit(")");
                if listed {
                    let e = skip_junk(cs, before);
                    let c = skip_junk(cs, fun_param_end(cs, e));
                    assert(input.pos() == c + 1);
                    assert(!text_at(cs, c, ","@));
                    assert(fun_params(cs, before) == Some(seq![e]));
                    assert(es.skip(ps@.len() - 1).len() == 1);
                    assert(es.take(ps@.len() as int) =~= es);
                }
            }
            break;
        }
        return fail("list parameters must have ending ')'");
    }
    Ok(ps)
}

/// Where the name of the function definition at `j` starts.
pub open spec fn def_name_at(cs: Seq<char>, j: int) -> int {
    skip_junk(cs, j + 3)
}

/// Where the parameter list of the function definition at `j` opens.
pub open spec fn def_params_at(cs: Seq<char>, j: int) -> int {
    skip_junk(cs, symbol_end(cs, def_name_at(cs, j)))
}

/// Where the `->` of the function definition at `j` should stand.
pub open spec fn def_arrow_at(cs: Seq<char>, j: int) -> int {
    skip_junk(cs, fun_params_end(cs, def_params_at(cs, j) + 1))
}

/// Where the return type of the function definition at `j` starts.
pub open spec fn def_type_at(cs: Seq<char>, j: int) -> int {
    skip_junk(cs, def_arrow_at(cs, j) + 2)
}

/// Where the body of the function definition at `j` starts.
pub open spec fn def_body_at(cs: Seq<char>, j: int) -> int {
    skip_junk(cs, skip_junk(cs, bare_type_end(cs, def_type_at(cs, j))) + 1)
}

/// Whether `fun name(params)` starts at `j`, with simple parameters.
pub open spec fn def_head_at(cs: Seq<char>, j: int) -> bool {
    &&& token_at(cs, j, "fun"@, true)
    &&& name_at(cs, def_name_at(cs, j), false)
    &&& text_at(cs, def_params_at(cs, j), "("@)
    &&& fun_params(cs, def_params_at(cs, j) + 1) is Some
}

/// Whether `fun name(params) -> T = n;` starts at `j`, with simple
/// parameters, a bare type `T` and a number `n`.
pub open spec fn simple_fun_def_at(cs: Seq<char>, j: int) -> bool {
    &&& def_head_at(cs, j)
    &&& text_at(cs, def_arrow_at(cs, j), "->"@)
    &&& bare_type_at(cs, def_type_at(cs, j))
    &&& text_at(cs, skip_junk(cs, bare_type_end(cs, def_type_at(cs, j))), "="@)
    &&& number_at(cs, def_body_at(cs, j))
    &&& text_at(cs, skip_junk(cs, digits_end(cs, def_body_at(cs, j))), ";"@)
}

/// Where the simple function definition at `j` ends, after its `;`.
pub open spec fn fun_def_end(cs: Seq<char>, j: int) -> int {
    skip_junk(cs, digits_end(cs, def_body_at(cs, j))) + 1
}

/// The definition of a function.
fn parse_fun_def(input: &mut Input) -> (r: Result<Ast, ParseError>)
    requires
        old(input).wf(),
    ensures
        old(input).went_on(final(input)),
        r is Ok ==> final(input).pos() > old(input).pos(),
        r matches Ok(d) ==> d is FunDef,
        !token_at(old(input).chars(), skip_junk(old(input).chars(), old(input).pos()), "fun"@, true)
            ==> (r matches Err(ParseError::Error))
            && final(input).pos() == skip_junk(old(input).chars(), old(input).pos()),
        ({
            let cs = old(input).chars();
            let j = skip_junk(cs, old(input).pos());
            &&& token_at(cs, j, "fun"@, true) ==> !(r matches Err(ParseError::Error))
            &&& token_at(cs, j, "fun"@, true) && !name_at(cs, skip_junk(cs, j + 3), false)
                ==> (r matches Err(ParseError::Fatal(fs)) && texts(fs@) == seq!["fun must have a name"@])
            &&& def_head_at(cs, j) && !text_at(cs, def_arrow_at(cs, j), "->"@)
                ==> (r matches Err(ParseError::Fatal(fs)) && texts(fs@) == seq!["fun must have ->"@])
            &&& simple_fun_def_at(cs, j) ==> (r matches Ok(Ast::FunDef { name, params, return_type, expr })
                && name@ == symbol_text(cs, def_name_at(cs, j))
                && are_fun_params(cs, fun_params(cs, def_params_at(cs, j) + 1)->Some_0, params@)
                && is_bare_type(cs, def_type_at(cs, j), return_type)
                && (expr matches Expr::Number(k) && k == number_value(cs, def_body_at(cs, j))))
                && final(input).pos() == fun_def_end(cs, j)
        }),
{
    proof {
        reveal_strlit("fun");
        reveal_strlit("->");
        reveal_strlit("=");
        reveal_strlit(";");
        lemma_skip_junk_idempotent(old(input).chars(), old(input).pos());
    }
    keyword(input, "fun")?;
    let name = fatal(parse_name(input, false), "fun must have a name")?;
    let params = fatal(parse_fun_params(input), "fun must have parameters")?;
    fatal(punct(input, "->"), "fun must have ->")?;
    let return_type = fatal(parse_type(input), "fun must have type")?;
    fatal(punct(input, "="), "fun must have =")?;
    let expr = fatal(parse_expr(input), "fun must have an expr")?;
    fatal(punct(input, ";"), "fun must have an ending ';'")?;
    Ok(Ast::FunDef { name, params, return_type, expr })
}

/// `(T, ...)`: the field types of a constructor definition.
fn parse_type_params(input: &mut Input) -> (r: Result<Vec<Type>, ParseError>)
    requires
        old(input).wf(),
    ensures
        old(input).went_on(final(input)),
        r is Ok ==> final(input).pos() > old(input).pos(),
        !text_at(old(input).chars(), skip_junk(old(input).chars(), old(input).pos()), "("@)
            ==> (r matches Err(ParseError::Error))
            && final(input).pos() == skip_junk(old(input).chars(), old(input).pos()),
        ({
            let cs = old(input).chars();
            let o = skip_junk(cs, old(input).pos());
            text_at(cs, o, "("@) && bare_types(cs, o + 1, ")"@) is Some ==> (r matches Ok(ts)
                && are_bare_types(cs, bare_types(cs, o + 1, ")"@)->Some_0, ts@))
                && final(input).pos() == bare_types_end(cs, o + 1, ")"@)
        }),
{
    proof {
        reveal_strlit("(");
        reveal_strlit(")");
        lemma_skip_junk_idempotent(old(input).chars(), old(input).pos());
    }
    let ghost cs = old(input).chars();
    let ghost o = skip_junk(cs, old(input).pos());
    let ghost listed = text_at(cs, o, "("@) && bare_types(cs, o + 1, ")"@) is Some;
    let ghost es = if listed { bare_types(cs, o + 1, ")"@)->Some_0 } else { Seq::empty() };
    let ghost list_end = bare_types_end(cs, o + 1, ")"@);
    punct(input, "(")?;
    proof {
        if listed {
            lemma_skip_junk_idempotent(cs, o + 1);
            let e = skip_junk(cs, o + 1);
            lemma_symbol_text(cs, e);
            if text_at(cs, e, ")"@) {
                assert(cs[e] == cs.subrange(e, e + 1)[0]);
            }
        }
    }
    if punct(input, ")").is_ok() {
        return Ok(Vec::new());
    }
    let ghost entry = old(input).pos();
    let mut ts: Vec<Type> = Vec::new();
    proof {
        if listed {
            lemma_bare_types_after_junk(cs, o + 1, ")"@);
            assert(es.skip(0) =~= es);
            assert(es.take(0) =~= Seq::<int>::empty());
        }
    }
    loop
        invariant_except_break
            listed ==> bare_types(cs, input.pos(), ")"@) == Some(es.skip(ts@.len() as int)),
            listed ==> ts@.len() < es.len(),
            listed ==> bare_types_end(cs, input.pos(), ")"@) == list_end,
        invariant
            input.wf(),
            input.chars() == old(input).chars(),
            entry < input.pos(),
            entry == old(input).pos(),
            text_at(old(input).chars(), skip_junk(old(input).chars(), old(input).pos()), "("@),
            cs == old(input).chars(),
            o == skip_junk(cs, old(input).pos()),
            listed == (text_at(cs, o, "("@) && bare_types(cs, o + 1, ")"@) is Some),
            listed ==> es == bare_types(cs, o + 1, ")"@)->Some_0,
            list_end == bare_types_end(cs, o + 1, ")"@),
            listed ==> are_bare_types(cs, es.take(ts@.len() as int), ts@),
        ensures
            listed ==> are_bare_types(cs, es, ts@) && input.pos() == list_end,
        decreases input.remaining(),
    {
        let ghost before = input.pos();
        proof {
            lemma_skip_junk_idempotent(cs, before);
        }
        ts.push(parse_type(input)?);
        proof {
            if listed {
                let e = skip_junk(cs, before);
                lemma_skip_junk_idempotent(cs, input.pos());
                assert(es.skip(ts@.len() - 1)[0] == e);
                assert(es.take(ts@.len() as int) =~= es.take(ts@.len() - 1).push(e));
            }
        }
        if punct(input, ",").is_ok() {
            proof {
                reveal_strlit(",");
                if listed {
                    let e = skip_junk(cs, before);
                    let c = skip_junk(cs, bare_type_end(cs, e));
                    assert(input.pos() == c + 1);
                    assert(text_at(cs, c, ","@));
                    assert(bare_types(cs, before, ")"@) == match bare_types(cs, c + 1, ")"@) {
                        Some(rest) => Some(seq![e] + rest),
                        None => None::<Seq<int>>,
                    });
                    assert(es.skip(ts@.len() as int) =~= es.skip(ts@.len() - 1).drop_first());
                }
            }
            continue;
        }
        if punct(input, ")").is_ok() {
            proof {
                reveal_strlit(",");
                reveal_strlit(")");
                if listed {
                    let e = skip_junk(cs, before);
                    let c = skip_junk(cs, bare_type_end(cs, e));
                    assert(input.pos() == c + 1);
                    assert(!text_at(cs, c, ","@));
                    assert(bare_types(cs, before, ")"@) == Some(seq![e]));
                    assert(es.skip(ts@.len() - 1).len() == 1);
                    assert(es.take(ts@.len() as int) =~= es);
                }
            }
            break;
        }
        return fail("list parameters must have ending ')'");
    }
    Ok(ts)
}

/// Where the field list of the constructor definition at `e` would open.
pub open spec fn cons_fields_at(cs: Seq<char>, e: int) -> int {
    skip_junk(cs, symbol_end(cs, e))
}

/// Whether a constructor definition `A` or `A(T, ...)`, with bare field
/// types, starts at `e`.
pub open spec fn cons_def_at(cs: Seq<char>, e: int) -> bool {
    name_at(cs, e, true) && (!text_at(cs, cons_fields_at(cs, e), "("@)
        || bare_types(cs, cons_fields_at(cs, e) + 1, ")"@) is Some)
}

/// Where the constructor definition at `e` ends.
pub open spec fn cons_def_end(cs: Seq<char>, e: int) -> int {
    if text_at(cs, cons_fields_at(cs, e), "("@) {
        bare_types_end(cs, cons_fields_at(cs, e) + 1, ")"@)
    } else {
        cons_fields_at(cs, e)
    }
}

/// Whether `d` is the constructor definition written at `e`.
pub open spec fn is_cons_def(cs: Seq<char>, e: int, d: ConsDef) -> bool {
    &&& d.name@ == symbol_text(cs, e)
    &&& if text_at(cs, cons_fields_at(cs, e), "("@) {
        are_bare_types(cs, bare_types(cs, cons_fields_at(cs, e) + 1, ")"@)->Some_0, d.params@)
    } else {
        d.params@.len() == 0
    }
}

/// The starts of a `|`-separated run of constructor definitions from `p` on.
pub open spec fn cons_defs(cs: Seq<char>, p: int) -> Option<Seq<int>>
    decreases cs.len() - p,
{
    if p < 0 || p > cs.len() {
        None
    } else {
        let e = skip_junk(cs, p);
        let c = skip_junk(cs, cons_def_end(cs, e));
        if !cons_def_at(cs, e) {
            None
        } else if text_at(cs, c, "|"@) && p < c + 1 && e < c + 1 <= cs.len() {
            match cons_defs(cs, c + 1) {
                Some(rest) => Some(seq![e] + rest),
                None => None,
            }
        } else {
            Some(seq![e])
        }
    }
}

/// Where the run of constructor definitions from `p` on ends: at what
/// follows the last one.
pub open spec fn cons_defs_end(cs: Seq<char>, p: int) -> int
    decreases cs.len() - p,
{
    if p < 0 || p > cs.len() {
        p
    } else {
        let e = skip_junk(cs, p);
        let c = skip_junk(cs, cons_def_end(cs, e));
        if text_at(cs, c, "|"@) && p < c + 1 && e < c + 1 <= cs.len() {
            cons_defs_end(cs, c + 1)
        } else {
            c
        }
    }
}

proof fn lemma_cons_defs_after_junk(cs: Seq<char>, p: int)
    requires
        0 <= p <= cs.len(),
    ensures
        cons_defs(cs, skip_junk(cs, p)) == cons_defs(cs, p),
        cons_defs(cs, p) is Some ==> cons_defs_end(cs, skip_junk(cs, p)) == cons_defs_end(cs, p),
{
    lemma_skip_junk_idempotent(cs, p);
}

/// Whether `ds` are, one for one, the constructor definitions written at `es`.
pub open spec fn are_cons_defs(cs: Seq<char>, es: Seq<int>, ds: Seq<ConsDef>) -> bool {
    ds.len() == es.len() && forall|i: int| 0 <= i < es.len() ==> is_cons_def(cs, es[i], #[trigger] ds[i])
}

/// `A` or `A(T, ...)`: one constructor of a data definition.
fn parse_cons_def(input: &mut Input) -> (r: Result<ConsDef, ParseError>)
    requires
        old(input).wf(),
    ensures
        old(input).went_on(final(input)),
        r is Ok ==> final(input).pos() > old(input).pos(),
        ({
            let cs = old(input).chars();
            let e = skip_junk(cs, old(input).pos());
            &&& cons_def_at(cs, e) ==> (r matches Ok(d) && is_cons_def(cs, e, d)) && final(input).pos() == cons_def_end(cs, e)
            &&& r is Ok ==> final(input).pos() > e
        }),
{
    proof {
        lemma_skip_junk_idempotent(old(input).chars(), old(input).pos());
        let cs = old(input).chars();
        let e = skip_junk(cs, old(input).pos());
        if name_at(cs, e, true) {
            lemma_symbol_text(cs, e);
            lemma_skip_junk_idempotent(cs, symbol_end(cs, e));
        }
    }
    let name = parse_name(input, true)?;
    match maybe(parse_type_params(input))? {
        Some(params) => Ok(ConsDef { name, params }),
        None => Ok(ConsDef { name, params: Vec::new() }),
    }
}

/// `A | B(T, ...) ;`: the constructors of a data definition, up to the `;`.
fn parse_cons_defs(input: &mut Input) -> (r: Result<Vec<ConsDef>, ParseError>)
    requires
        old(input).wf(),
    ensures
        old(input).went_on(final(input)),
        ({
            let cs = old(input).chars();
            let p = old(input).pos();
            &&& !text_at(cs, skip_junk(cs, p), ";"@) && cons_defs(cs, p) is Some && text_at(cs, cons_defs_end(cs, p), ";"@)
                ==> (r matches Ok(ds) && are_cons_defs(cs, cons_defs(cs, p)->Some_0, ds@))
                && final(input).pos() == cons_defs_end(cs, p) + 1
            &&& !text_at(cs, skip_junk(cs, p), ";"@) && cons_defs(cs, p) is Some && !text_at(cs, cons_defs_end(cs, p), ";"@)
                ==> (r matches Err(ParseError::Fatal(fs)) && texts(fs@) == seq!["data definition must end with ;"@])
        }),
{
    proof {
        reveal_strlit(";");
    }
    let ghost cs = old(input).chars();
    let ghost p0 = old(input).pos();
    let ghost listed = !text_at(cs, skip_junk(cs, p0), ";"@) && cons_defs(cs, p0) is Some;
    let ghost es = if listed { cons_defs(cs, p0)->Some_0 } else { Seq::empty() };
    let ghost list_end = cons_defs_end(cs, p0);
    if punct(input, ";").is_ok() {
        return Ok(Vec::new());
    }
    let mut ps: Vec<ConsDef> = Vec::new();
    proof {
        if listed {
            lemma_cons_defs_after_junk(cs, p0);
            assert(es.skip(0) =~= es);
            assert(es.take(0) =~= Seq::<int>::empty());
        }
    }
    loop
        invariant_except_break
            listed ==> cons_defs(cs, input.pos()) == Some(es.skip(ps@.len() as int)),
            listed ==> ps@.len() < es.len(),
            listed ==> cons_defs_end(cs, input.pos()) == list_end,
        invariant
            input.wf(),
            input.chars() == old(input).chars(),
            old(input).pos() <= input.pos(),
            cs == old(input).chars(),
            p0 == old(input).pos(),
            listed == (!text_at(cs, skip_junk(cs, p0), ";"@) && cons_defs(cs, p0) is Some),
            listed ==> es == cons_defs(cs, p0)->Some_0,
            list_end == cons_defs_end(cs, p0),
            listed ==> are_cons_defs(cs, es.take(ps@.len() as int), ps@),
        ensures
            listed ==> are_cons_defs(cs, es, ps@) && input.pos() == list_end + 1 && text_at(cs, list_end, ";"@),
        decreases input.remaining(),
    {
        let ghost before = input.pos();
        proof {
            lemma_skip_junk_idempotent(cs, before);
        }
        ps.push(fatal(parse_cons_def(input), "data must have valid constructor definitions")?);
        proof {
            if listed {
                let e = skip_junk(cs, before);
                lemma_skip_junk_idempotent(cs, input.pos());
                assert(es.skip(ps@.len() - 1)[0] == e);
                assert(es.take(ps@.len() as int) =~= es.take(ps@.len() - 1).push(e));
            }
        }
        if punct(input, "|").is_ok() {
            proof {
                reveal_strlit("|");
                if listed {
                    let e = skip_junk(cs, before);
                    let c = skip_junk(cs, cons_def_end(cs, e));
                    assert(input.pos() == c + 1);
                    assert(text_at(cs, c, "|"@));
                    assert(cons_defs(cs, before) == match cons_defs(cs, c + 1) {
                        Some(rest) => Some(seq![e] + rest),
                        None => None::<Seq<int>>,
                    });
                    assert(es.skip(ps@.len() as int) =~= es.skip(ps@.len() - 1).drop_first());
                }
            }
            continue;
        }
        proof {
            reveal_strlit("|");
            reveal_strlit(";");
            if listed {
                let e = skip_junk(cs, before);
                let c = skip_junk(cs, cons_def_end(cs, e));
                assert(input.pos() == c);
                assert(!text_at(cs, c, "|"@));
                assert(cons_defs(cs, before) == Some(seq![e]));
                assert(es.skip(ps@.len() - 1).len() == 1);
                assert(es.take(ps@.len() as int) =~= es);
                assert(list_end == c);
            }
        }
        if punct(input, ";").is_ok() {
            break;
        }
        return fail("data definition must end with ;");
    }
    Ok(ps)
}

/// Where the constructors of the data definition at `j` start.
pub open spec fn data_cons_at(cs: Seq<char>, j: int) -> int {
    skip_junk(cs, symbol_end(cs, skip_junk(cs, j + 4))) + 1
}

/// Whether `data X = A | B(T, ...) ...` starts at `j`, with simple
/// constructor definitions, whether or not a `;` ends them.
pub open spec fn data_head_at(cs: Seq<char>, j: int) -> bool {
    &&& token_at(cs, j, "data"@, true)
    &&& name_at(cs, skip_junk(cs, j + 4), true)
    &&& text_at(cs, skip_junk(cs, symbol_end(cs, skip_junk(cs, j + 4))), "="@)
    &&& !text_at(cs, skip_junk(cs, data_cons_at(cs, j)), ";"@)
    &&& cons_defs(cs, data_cons_at(cs, j)) is Some
}

/// Whether a whole simple data definition, ended by `;`, starts at `j`.
pub open spec fn simple_data_def_at(cs: Seq<char>, j: int) -> bool {
    data_head_at(cs, j) && text_at(cs, cons_defs_end(cs, data_cons_at(cs, j)), ";"@)
}

/// Where the simple data definition at `j` ends, after its `;`.
pub open spec fn data_def_end(cs: Seq<char>, j: int) -> int {
    cons_defs_end(cs, data_cons_at(cs, j)) + 1
}

/// The definition of a data type.
fn parse_data_def(input: &mut Input) -> (r: Result<Ast, ParseError>)
    requires
        old(input).wf(),
    ensures
        old(input).went_on(final(input)),
        r is Ok ==> final(input).pos() > old(input).pos(),
        r matches Ok(d) ==> d is DataDef,
        !token_at(old(input).chars(), skip_junk(old(input).chars(), old(input).pos()), "data"@, true)
            ==> (r matches Err(ParseError::Error))
            && final(input).pos() == skip_junk(old(input).chars(), old(input).pos()),
        ({
            let cs = old(input).chars();
            let j = skip_junk(cs, old(input).pos());
            let k = skip_junk(cs, j + 4);
            &&& token_at(cs, j, "data"@, true) ==> !(r matches Err(ParseError::Error))
            &&& token_at(cs, j, "data"@, true) && !name_at(cs, k, true)
                ==> (r matches Err(ParseError::Fatal(fs)) && texts(fs@) == seq!["data definition must have a name"@])
            &&& token_at(cs, j, "data"@, true) && name_at(cs, k, true) && !text_at(cs, skip_junk(cs, symbol_end(cs, k)), "="@)
                ==> (r matches Err(ParseError::Fatal(fs)) && texts(fs@) == seq!["data definition must have a ="@])
            &&& data_head_at(cs, j) && !text_at(cs, cons_defs_end(cs, data_cons_at(cs, j)), ";"@)
                ==> (r matches Err(ParseError::Fatal(fs)) && texts(fs@)
                == seq!["data definition must end with ;"@, "data definition must have data defs"@])
            &&& simple_data_def_at(cs, j) ==> (r matches Ok(Ast::DataDef { name, cons_defs: ds })
                && name@ == symbol_text(cs, k) && are_cons_defs(cs, cons_defs(cs, data_cons_at(cs, j))->Some_0, ds@))
                && final(input).pos() == data_def_end(cs, j)
        }),
{
    proof {
        reveal_strlit("data");
        reveal_strlit("=");
        lemma_skip_junk_idempotent(old(input).chars(), old(input).pos());
    }
    keyword(input, "data")?;
    let name = fatal(parse_name(input, true), "data definition must have a name")?;
    fatal(punct(input, "="), "data definition must have a =")?;
    let cons_defs = fatal(parse_cons_defs(input), "data definition must have data defs")?;
    Ok(Ast::DataDef { name, cons_defs })
}

/// One definition: a function definition, else a data definition.
fn parse_top_level(input: &mut Input) -> (r: Result<Ast, ParseError>)
    requires
        old(input).wf(),
    ensures
        old(input).went_on(final(input)),
        r is Ok ==> final(input).pos() > old(input).pos(),
        !token_at(old(input).chars(), skip_junk(old(input).chars(), old(input).pos()), "fun"@, true)
            && !token_at(old(input).chars(), skip_junk(old(input).chars(), old(input).pos()), "data"@, true)
            ==> (r matches Err(ParseError::Error))
            && final(input).pos() == skip_junk(old(input).chars(), old(input).pos()),
        ({
            let cs = old(input).chars();
            let j = skip_junk(cs, old(input).pos());
            &&& token_at(cs, j, "fun"@, true) ==> !(r matches Err(ParseError::Error)) && (r matches Ok(d) ==> d is FunDef)
            &&& simple_fun_def_at(cs, j) ==> (r matches Ok(d) && d is FunDef) && final(input).pos() == fun_def_end(cs, j)
            &&& simple_data_def_at(cs, j) ==> (r matches Ok(d) && d is DataDef) && final(input).pos() == data_def_end(cs, j)
            &&& token_at(cs, j, "data"@, true) ==> !(r matches Err(ParseError::Error))
                && (r matches Ok(d) ==> d is DataDef)
        }),
{
    proof {
        reveal_strlit("fun");
        reveal_strlit("data");
        let cs = old(input).chars();
        let j = skip_junk(cs, old(input).pos());
        lemma_skip_junk_idempotent(cs, old(input).pos());
        if token_at(cs, j, "data"@, true) && token_at(cs, j, "fun"@, true) {
            assert(cs[j] == cs.subrange(j, j + 4)[0]);
            assert(cs[j] == cs.subrange(j, j + 3)[0]);
        }
    }
    match parse_fun_def(input) {
        Err(ParseError::Error) => {},
        r => {
            return r;
        },
    }
    parse_data_def(input)
}

} // verus!
