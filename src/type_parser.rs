//! The parser of types: `a` (generic), `A` (concrete), `[T]`,
//! `fun (T, ...) -> T` and `A<T, ...>`.

use vstd::prelude::*;
use crate::ast::Type;
use crate::input::{texts, Input, ParseError};
use crate::chars::lowercase;
use crate::util::{
    ascii_word, fail, fatal, keyword, lemma_keyword_is_symbol, lemma_symbol_text, lemma_skip_junk_idempotent, name_at, parse_junk, parse_name,
    punct, skip_junk, symbol_end, symbol_text, text_at, token_at,
};

verus! {

/// Whether a type written as a bare name starts at `e`: a generic (lower
/// case, other than `fun`) or a concrete type not followed by `<`.
pub open spec fn bare_type_at(cs: Seq<char>, e: int) -> bool {
    (name_at(cs, e, false) && symbol_text(cs, e) != "fun"@) || (name_at(cs, e, true) && !lowercase(cs[e])
        && !text_at(cs, skip_junk(cs, symbol_end(cs, e)), "<"@))
}

/// Whether the bare type at `e` is generic.
pub open spec fn bare_generic_at(cs: Seq<char>, e: int) -> bool {
    name_at(cs, e, false) && symbol_text(cs, e) != "fun"@
}

/// Where parsing the bare type at `e` leaves the cursor.
pub open spec fn bare_type_end(cs: Seq<char>, e: int) -> int {
    if bare_generic_at(cs, e) {
        symbol_end(cs, e)
    } else {
        skip_junk(cs, symbol_end(cs, e))
    }
}

/// Whether `t` is the bare type written at `e`.
pub open spec fn is_bare_type(cs: Seq<char>, e: int, t: Type) -> bool {
    if bare_generic_at(cs, e) {
        t matches Type::Generic(n) && n@ == symbol_text(cs, e)
    } else {
        t matches Type::Concrete(n) && n@ == symbol_text(cs, e)
    }
}

/// The starts of a comma-separated list of bare types from `p` on, closed
/// by `close`; `None` where the text is not such a list.
pub open spec fn bare_types(cs: Seq<char>, p: int, close: Seq<char>) -> Option<Seq<int>>
    decreases cs.len() - p,
{
    if p < 0 || p > cs.len() {
        None
    } else {
        let e = skip_junk(cs, p);
        let c = skip_junk(cs, bare_type_end(cs, e));
        if !bare_type_at(cs, e) {
            None
        } else if text_at(cs, c, ","@) && p < c + 1 <= cs.len() {
            match bare_types(cs, c + 1, close) {
                Some(rest) => Some(seq![e] + rest),
                None => None,
            }
        } else if !text_at(cs, c, ","@) && text_at(cs, c, close) {
            Some(seq![e])
        } else {
            None
        }
    }
}

/// Where the list of bare types from `p` ends, after its closing text.
pub open spec fn bare_types_end(cs: Seq<char>, p: int, close: Seq<char>) -> int
    decreases cs.len() - p,
{
    if p < 0 || p > cs.len() {
        p
    } else {
        let e = skip_junk(cs, p);
        let c = skip_junk(cs, bare_type_end(cs, e));
        if text_at(cs, c, ","@) && p < c + 1 <= cs.len() {
            bare_types_end(cs, c + 1, close)
        } else {
            c + close.len()
        }
    }
}

/// Where the parameter list of the function type at `j` opens.
pub open spec fn fun_params_at(cs: Seq<char>, j: int) -> int {
    skip_junk(cs, j + 3)
}

/// Where the output type of the function type at `j` starts.
pub open spec fn fun_output_at(cs: Seq<char>, j: int) -> int {
    skip_junk(cs, skip_junk(cs, bare_types_end(cs, fun_params_at(cs, j) + 1, ")"@)) + 2)
}

/// Whether `fun (T, ...) -> U` starts at `j`, with bare types throughout.
pub open spec fn bare_fun_type_at(cs: Seq<char>, j: int) -> bool {
    let o = fun_params_at(cs, j);
    &&& token_at(cs, j, "fun"@, true)
    &&& text_at(cs, o, "("@)
    &&& bare_types(cs, o + 1, ")"@) is Some
    &&& text_at(cs, skip_junk(cs, bare_types_end(cs, o + 1, ")"@)), "->"@)
    &&& bare_type_at(cs, fun_output_at(cs, j))
}

pub proof fn lemma_bare_types_after_junk(cs: Seq<char>, p: int, close: Seq<char>)
    requires
        0 <= p <= cs.len(),
    ensures
        bare_types(cs, skip_junk(cs, p), close) == bare_types(cs, p, close),
        bare_types(cs, p, close) is Some ==> bare_types_end(cs, skip_junk(cs, p), close) == bare_types_end(cs, p, close),
{
    lemma_skip_junk_idempotent(cs, p);
    let e = skip_junk(cs, p);
    if bare_type_at(cs, e) {
        lemma_symbol_text(cs, e);
        lemma_skip_junk_idempotent(cs, symbol_end(cs, e));
        lemma_skip_junk_idempotent(cs, bare_type_end(cs, e));
    }
}

/// Whether `ts` are, one for one, the bare types written at `es`.
pub open spec fn are_bare_types(cs: Seq<char>, es: Seq<int>, ts: Seq<Type>) -> bool {
    ts.len() == es.len() && forall|i: int| 0 <= i < es.len() ==> is_bare_type(cs, #[trigger] es[i], ts[i])
}

fn parse_generic_type(input: &mut Input) -> (r: Result<Type, ParseError>)
    requires
        old(input).wf(),
    ensures
        old(input).went_on(final(input)),
        r is Ok ==> final(input).pos() > old(input).pos(),
        ({
            let cs = old(input).chars();
            let j = skip_junk(cs, old(input).pos());
            if name_at(cs, j, false) {
                (r matches Ok(Type::Generic(s)) && s@ == symbol_text(cs, j))
                    && old(input).moved_to(final(input), symbol_end(cs, j))
            } else {
                (r matches Err(ParseError::Error)) && old(input).moved_to(final(input), old(input).pos())
            }
        }),
{
    match parse_name(input, false) {
        Ok(sym) => Ok(Type::Generic(sym)),
        Err(e) => Err(e),
    }
}

fn parse_concrete_type(input: &mut Input) -> (r: Result<Type, ParseError>)
    requires
        old(input).wf(),
    ensures
        old(input).went_on(final(input)),
        r is Ok ==> final(input).pos() > old(input).pos(),
        ({
            let cs = old(input).chars();
            let j = skip_junk(cs, old(input).pos());
            if name_at(cs, j, true) {
                (r matches Ok(Type::Concrete(s)) && s@ == symbol_text(cs, j))
                    && old(input).moved_to(final(input), symbol_end(cs, j))
            } else {
                (r matches Err(ParseError::Error)) && old(input).moved_to(final(input), old(input).pos())
            }
        }),
{
    match parse_name(input, true) {
        Ok(sym) => Ok(Type::Concrete(sym)),
        Err(e) => Err(e),
    }
}

/// `(T, ...)`: the parameter types of a function type.
fn parse_type_list(input: &mut Input) -> (r: Result<Vec<Type>, ParseError>)
    requires
        old(input).wf(),
    ensures
        old(input).went_on(final(input)),
        r is Ok ==> final(input).pos() > old(input).pos(),
        !text_at(old(input).chars(), skip_junk(old(input).chars(), old(input).pos()), "("@)
            ==> (r matches Err(ParseError::Fatal(fs)) && texts(fs@) == seq!["fun type must have opening '('"@]),
        ({
            let cs = old(input).chars();
            let o = skip_junk(cs, old(input).pos());
            text_at(cs, o, "("@) && bare_types(cs, o + 1, ")"@) is Some ==> (r matches Ok(ts)
                && are_bare_types(cs, bare_types(cs, o + 1, ")"@)->Some_0, ts@))
                && final(input).pos() == bare_types_end(cs, o + 1, ")"@)
        }),
    decreases old(input).remaining(), 1int,
{
    proof {
        reveal_strlit("(");
        reveal_strlit(")");
        lemma_skip_junk_idempotent(old(input).chars(), old(input).pos());
    }
    let ghost cs = old(input).chars();
    let ghost o = skip_junk(cs, old(input).pos());
    let ghost listed = text_at(cs, o, "("@) && bare_types(cs, o + 1, ")"@) is Some;
    let ghost es = if listed { bare_types(cs, o + 1, ")"@)->Some_0 } else { Seq::empty() };
    let ghost list_end = bare_types_end(cs, o + 1, ")"@);
    fatal(punct(input, "("), "fun type must have opening '('")?;
    proof {
        if listed {
            lemma_skip_junk_idempotent(cs, o + 1);
            let e = skip_junk(cs, o + 1);
            lemma_symbol_text(cs, e);
            if text_at(cs, e, ")"@) {
                assert(cs[e] == cs.subrange(e, e + 1)[0]);
            }
        }
    }
    if punct(input, ")").is_ok() {
        return Ok(Vec::new());
    }
    let ghost entry = old(input).pos();
    let mut ts: Vec<Type> = Vec::new();
    proof {
        if listed {
            lemma_bare_types_after_junk(cs, o + 1, ")"@);
            assert(es.skip(0) =~= es);
            assert(es.take(0) =~= Seq::<int>::empty());
        }
    }
    loop
        invariant_except_break
            listed ==> bare_types(cs, input.pos(), ")"@) == Some(es.skip(ts@.len() as int)),
            listed ==> ts@.len() < es.len(),
            listed ==> bare_types_end(cs, input.pos(), ")"@) == list_end,
        invariant
            input.wf(),
            input.chars() == old(input).chars(),
            entry < input.pos(),
            entry == old(input).pos(),
            text_at(old(input).chars(), skip_junk(old(input).chars(), old(input).pos()), "("@),
            cs == old(input).chars(),
            o == skip_junk(cs, old(input).pos()),
            listed == (text_at(cs, o, "("@) && bare_types(cs, o + 1, ")"@) is Some),
            listed ==> es == bare_types(cs, o + 1, ")"@)->Some_0,
            list_end == bare_types_end(cs, o + 1, ")"@),
            listed ==> are_bare_types(cs, es.take(ts@.len() as int), ts@),
        ensures
            listed ==> are_bare_types(cs, es, ts@) && input.pos() == list_end,
        decreases input.remaining(),
    {
        let ghost before = input.pos();
        proof {
            lemma_skip_junk_idempotent(cs, before);
        }
        ts.push(parse_type(input)?);
        proof {
            if listed {
                let e = skip_junk(cs, before);
                lemma_skip_junk_idempotent(cs, input.pos());
                assert(es.skip(ts@.len() - 1)[0] == e);
                assert(es.take(ts@.len() as int) =~= es.take(ts@.len() - 1).push(e));
            }
        }
        if punct(input, ",").is_ok() {
            proof {
                reveal_strlit(",");
                if listed {
                    let e = skip_junk(cs, before);
                    let c = skip_junk(cs, bare_type_end(cs, e));
                    assert(input.pos() == c + 1);
                    assert(text_at(cs, c, ","@));
                    assert(bare_types(cs, before, ")"@) == match bare_types(cs, c + 1, ")"@) {
                        Some(rest) => Some(seq![e] + rest),
                        None => None::<Seq<int>>,
                    });
                    assert(es.skip(ts@.len() as int) =~= es.skip(ts@.len() - 1).drop_first());
                }
            }
            continue;
        }
        if punct(input, ")").is_ok() {
            proof {
                reveal_strlit(",");
                reveal_strlit(")");
                if listed {
                    let e = skip_junk(cs, before);
                    let c = skip_junk(cs, bare_type_end(cs, e));
                    assert(input.pos() == c + 1);
                    assert(!text_at(cs, c, ","@));
                    assert(bare_types(cs, before, ")"@) == Some(seq![e]));
                    assert(es.skip(ts@.len() - 1).len() == 1);
                    assert(es.take(ts@.len() as int) =~= es);
                }
            }
            break;
        }
        return fail("fun type parameters must have ending ')'");
    }
    Ok(ts)
}

/// `fun (T, ...) -> T`.
fn parse_fun_type(input: &mut Input) -> (r: Result<Type, ParseError>)
    requires
        old(input).wf(),
    ensures
        old(input).went_on(final(input)),
        r is Ok ==> final(input).pos() > old(input).pos(),
        r matches Ok(t) ==> t is Fun,
        ({
            let cs = old(input).chars();
            let j = skip_junk(cs, old(input).pos());
            &&& !token_at(cs, j, "fun"@, true) ==> (r matches Err(ParseError::Error))
                && old(input).moved_to(final(input), j)
            &&& bare_fun_type_at(cs, j) ==> (r matches Ok(Type::Fun { input, output })
                && are_bare_types(cs, bare_types(cs, fun_params_at(cs, j) + 1, ")"@)->Some_0, input@)
                && is_bare_type(cs, fun_output_at(cs, j), *output))
            &&& token_at(cs, j, "fun"@, true) ==> !(r matches Err(ParseError::Error))
            &&& token_at(cs, j, "fun"@, true) && !text_at(cs, skip_junk(cs, j + 3), "("@)
                ==> (r matches Err(ParseError::Fatal(fs))
                && texts(fs@) == seq!["fun type must have opening '('"@, "fun type must have param list"@])
        }),
    decreases old(input).remaining(), 2int,
{
    proof {
        reveal_strlit("fun");
        reveal_strlit("->");
        lemma_skip_junk_idempotent(old(input).chars(), old(input).pos());
    }
    parse_junk(input)?;
    keyword(input, "fun")?;
    let i = fatal(parse_type_list(input), "fun type must have param list")?;
    fatal(punct(input, "->"), "fun type must have '->'")?;
    let output = Box::new(fatal(parse_type(input), "fun type must have output type")?);
    Ok(Type::Fun { input: i, output })
}

/// `[T]`.
fn parse_array_type(input: &mut Input) -> (r: Result<Type, ParseError>)
    requires
        old(input).wf(),
    ensures
        old(input).went_on(final(input)),
        r is Ok ==> final(input).pos() > old(input).pos(),
        r matches Ok(t) ==> t is Array,
        ({
            let cs = old(input).chars();
            let j = skip_junk(cs, old(input).pos());
            !text_at(cs, j, "["@) ==> (r matches Err(ParseError::Error))
                && old(input).moved_to(final(input), j)
        }),
    decreases old(input).remaining(), 2int,
{
    proof {
        reveal_strlit("[");
        lemma_skip_junk_idempotent(old(input).chars(), old(input).pos());
    }
    parse_junk(input)?;
    punct(input, "[")?;
    let t = Box::new(fatal(parse_type(input), "array type must have type")?);
    fatal(punct(input, "]"), "array type must have closing ']'")?;
    Ok(Type::Array(t))
}

/// Parses a type. A function type is tried first, then a generic, a
/// concrete and an array type; a concrete type followed by `<` takes the
/// parameter list `T, ... >` and becomes an index type. Fails with `Error`
/// where no type starts.
pub fn parse_type(input: &mut Input) -> (r: Result<Type, ParseError>)
    requires
        old(input).wf(),
    ensures
        old(input).went_on(final(input)),
        r is Ok ==> final(input).pos() > old(input).pos(),
        ({
            let cs = old(input).chars();
            let j = skip_junk(cs, old(input).pos());
            &&& name_at(cs, j, false) && symbol_text(cs, j) != "fun"@ ==> (r matches Ok(Type::Generic(s))
                && s@ == symbol_text(cs, j)) && final(input).pos() == symbol_end(cs, j)
            &&& name_at(cs, j, true) && !lowercase(cs[j]) && !text_at(cs, skip_junk(cs, symbol_end(cs, j)), "<"@)
                ==> (r matches Ok(Type::Concrete(s)) && s@ == symbol_text(cs, j))
                && final(input).pos() == skip_junk(cs, symbol_end(cs, j))
            &&& name_at(cs, j, true) && !lowercase(cs[j]) && text_at(cs, skip_junk(cs, symbol_end(cs, j)), "<"@)
                ==> (r matches Ok(t) ==> (t matches Type::Index { name, params } && name@ == symbol_text(cs, j)
                && params@.len() > 0))
            &&& name_at(cs, j, true) && !lowercase(cs[j]) && text_at(cs, skip_junk(cs, symbol_end(cs, j)), "<"@)
                && bare_types(cs, skip_junk(cs, symbol_end(cs, j)) + 1, ">"@) is Some
                ==> (r matches Ok(Type::Index { name, params }) && name@ == symbol_text(cs, j)
                && are_bare_types(cs, bare_types(cs, skip_junk(cs, symbol_end(cs, j)) + 1, ">"@)->Some_0, params@))
                && final(input).pos() == bare_types_end(cs, skip_junk(cs, symbol_end(cs, j)) + 1, ">"@)
            &&& bare_fun_type_at(cs, j) ==> (r matches Ok(Type::Fun { input, output })
                && are_bare_types(cs, bare_types(cs, fun_params_at(cs, j) + 1, ")"@)->Some_0, input@)
                && is_bare_type(cs, fun_output_at(cs, j), *output))
            &&& token_at(cs, j, "fun"@, true) ==> !(r matches Err(ParseError::Error)) && (r matches Ok(t) ==> t is Fun)
            &&& token_at(cs, j, "fun"@, true) && !text_at(cs, skip_junk(cs, j + 3), "("@)
                ==> (r matches Err(ParseError::Fatal(fs))
                && texts(fs@) == seq!["fun type must have opening '('"@, "fun type must have param list"@])
        }),
    decreases old(input).remaining(), 3int,
{
    proof {
        reveal_strlit("fun");
        let cs = old(input).chars();
        let j = skip_junk(cs, old(input).pos());
        lemma_skip_junk_idempotent(cs, old(input).pos());
        if name_at(cs, j, false) && token_at(cs, j, "fun"@, true) {
            assert(ascii_word("fun"@));
            lemma_keyword_is_symbol(cs, j, "fun"@);
        }
        if name_at(cs, j, true) && token_at(cs, j, "fun"@, true) {
            assert(cs[j] == cs.subrange(j, j + 3)[0]);
        }
    }
    let mut t: Option<Type> = None;
    match parse_fun_type(input) {
        Ok(v) => {
            t = Some(v);
        },
        Err(ParseError::Fatal(fs)) => {
            return Err(ParseError::Fatal(fs));
        },
        Err(ParseError::Error) => {},
    }
    if t.is_none() {
        if let Ok(v) = parse_generic_type(input) {
            t = Some(v);
        }
    }
    if t.is_none() {
        if let Ok(v) = parse_concrete_type(input) {
            t = Some(v);
        }
    }
    if t.is_none() {
        match parse_array_type(input) {
            Ok(v) => {
                t = Some(v);
            },
            Err(ParseError::Fatal(fs)) => {
                return Err(ParseError::Fatal(fs));
            },
            Err(ParseError::Error) => {},
        }
    }
    let name = match t {
        Some(Type::Concrete(name)) => name,
        Some(t) => {
            return Ok(t);
        },
        None => {
            return Err(ParseError::Error);
        },
    };
    proof {
        reveal_strlit("<");
    }
    if punct(input, "<").is_err() {
        return Ok(Type::Concrete(name));
    }
    let ghost entry = old(input).pos();
    let ghost cs = old(input).chars();
    let ghost j = skip_junk(cs, old(input).pos());
    let ghost lt = skip_junk(cs, symbol_end(cs, j));
    let ghost listed = name_at(cs, j, true) && !lowercase(cs[j]) && text_at(cs, lt, "<"@)
        && bare_types(cs, lt + 1, ">"@) is Some;
    let ghost es = if listed { bare_types(cs, lt + 1, ">"@)->Some_0 } else { Seq::empty() };
    let ghost list_end = bare_types_end(cs, lt + 1, ">"@);
    let mut params: Vec<Type> = Vec::new();
    proof {
        reveal_strlit(">");
        if listed {
            assert(es.skip(0) =~= es);
            assert(es.take(0) =~= Seq::<int>::empty());
        }
    }
    loop
        invariant_except_break
            listed ==> bare_types(cs, input.pos(), ">"@) == Some(es.skip(params@.len() as int)),
            listed ==> params@.len() < es.len(),
            listed ==> bare_types_end(cs, input.pos(), ">"@) == list_end,
        invariant
            input.wf(),
            input.chars() == old(input).chars(),
            entry < input.pos(),
            entry == old(input).pos(),
            cs == old(input).chars(),
            j == skip_junk(cs, old(input).pos()),
            !(name_at(cs, j, false) && symbol_text(cs, j) != "fun"@),
            !(name_at(cs, j, true) && !lowercase(cs[j]) && !text_at(cs, skip_junk(cs, symbol_end(cs, j)), "<"@)),
            !token_at(cs, j, "fun"@, true),
            name_at(cs, j, true) && !lowercase(cs[j]) ==> name@ == symbol_text(cs, j),
            lt == skip_junk(cs, symbol_end(cs, j)),
            listed == (name_at(cs, j, true) && !lowercase(cs[j]) && text_at(cs, lt, "<"@)
                && bare_types(cs, lt + 1, ">"@) is Some),
            listed ==> es == bare_types(cs, lt + 1, ">"@)->Some_0,
            list_end == bare_types_end(cs, lt + 1, ">"@),
            listed ==> are_bare_types(cs, es.take(params@.len() as int), params@),
        ensures
            params@.len() > 0,
            listed ==> are_bare_types(cs, es, params@) && input.pos() == list_end,
        decreases input.remaining(),
    {
        let ghost before = input.pos();
        proof {
            lemma_skip_junk_idempotent(cs, before);
        }
        params.push(parse_type(input)?);
        proof {
            if listed {
                let e = skip_junk(cs, before);
                lemma_skip_junk_idempotent(cs, input.pos());
                assert(es.skip(params@.len() - 1)[0] == e);
                assert(es.take(params@.len() as int) =~= es.take(params@.len() - 1).push(e));
            }
        }
        if punct(input, ",").is_ok() {
            proof {
                reveal_strlit(",");
                if listed {
                    let e = skip_junk(cs, before);
                    let c = skip_junk(cs, bare_type_end(cs, e));
                    assert(input.pos() == c + 1);
                    assert(text_at(cs, c, ","@));
                    assert(bare_types(cs, before, ">"@) == match bare_types(cs, c + 1, ">"@) {
                        Some(rest) => Some(seq![e] + rest),
                        None => None::<Seq<int>>,
                    });
                    assert(es.skip(params@.len() as int) =~= es.skip(params@.len() - 1).drop_first());
                }
            }
            continue;
        }
        if punct(input, ">").is_ok() {
            proof {
                reveal_strlit(",");
                reveal_strlit(">");
                if listed {
                    let e = skip_junk(cs, before);
                    let c = skip_junk(cs, bare_type_end(cs, e));
                    assert(input.pos() == c + 1);
                    assert(!text_at(cs, c, ","@));
                    assert(bare_types(cs, before, ">"@) == Some(seq![e]));
                    assert(es.skip(params@.len() - 1).len() == 1);
                    assert(es.take(params@.len() as int) =~= es);
                }
            }
            break;
        }
        return fail("index type parameters must have ending '>'");
    }
    Ok(Type::Index { name, params })
}

} // verus!
