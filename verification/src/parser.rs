use vstd::prelude::*;
use crate::ast::{LispExpr, TermV, terms_view, names_view};
use crate::lexer::{Token, TokenV, tokens_view};

verus! {

/// Tokens left from position `i` on.
pub open spec fn rem(ts: Seq<TokenV>, i: int) -> int {
    if 0 <= i <= ts.len() {
        ts.len() - i
    } else {
        0
    }
}

/// The next position after a sub-parse: the returned position when it made
/// progress, and the following position otherwise. A successful sub-parse
/// always makes progress, so the second case never arises; it keeps the
/// recursion well founded.
pub open spec fn advance(i: int, j: int) -> int {
    if j > i {
        j
    } else {
        i + 1
    }
}

/// One parsed term in front of the rest of a parsing outcome.
pub open spec fn parse_cons(t: TermV, rest: Result<(Seq<TermV>, int), Seq<char>>) -> Result<
    (Seq<TermV>, int),
    Seq<char>,
> {
    match rest {
        Ok((ts, j)) => Ok((seq![t] + ts, j)),
        Err(e) => Err(e),
    }
}

/// One expression starting at `i`: an atom, a reader marker applied to the
/// expression after it, or a parenthesized form.
pub open spec fn parse_expr_spec(ts: Seq<TokenV>, i: int) -> Result<(TermV, int), Seq<char>>
    decreases rem(ts, i), 0int,
{
    if i < 0 || i >= ts.len() {
        Err("Unexpected end of input"@)
    } else {
        match ts[i] {
            TokenV::LeftParen => parse_list_spec(ts, i + 1),
            TokenV::Number(n) => Ok((TermV::Number(n), i + 1)),
            TokenV::Symbol(s) => Ok((TermV::Symbol(s), i + 1)),
            TokenV::String(s) => Ok((TermV::String(s), i + 1)),
            TokenV::Bool(b) => Ok((TermV::Bool(b), i + 1)),
            TokenV::Nil => Ok((TermV::Nil, i + 1)),
            TokenV::Quote => {
                if i + 1 >= ts.len() {
                    Err("Expected expression after quote"@)
                } else {
                    match parse_expr_spec(ts, i + 1) {
                        Ok((e, j)) => Ok((TermV::Quote(Box::new(e)), j)),
                        Err(m) => Err(m),
                    }
                }
            },
            TokenV::Quasiquote => match parse_expr_spec(ts, i + 1) {
                Ok((e, j)) => Ok((TermV::Quasiquote(Box::new(e)), j)),
                Err(m) => Err(m),
            },
            TokenV::Unquote => match parse_expr_spec(ts, i + 1) {
                Ok((e, j)) => Ok((TermV::Unquote(Box::new(e)), j)),
                Err(m) => Err(m),
            },
            TokenV::Splice => match parse_expr_spec(ts, i + 1) {
                Ok((e, j)) => Ok((TermV::Splice(Box::new(e)), j)),
                Err(m) => Err(m),
            },
            TokenV::RightParen => Err("Unexpected ')' - missing opening parenthesis"@),
        }
    }
}

/// A parenthesized form, after its opening parenthesis: a special form when
/// its head says so, otherwise a plain List of expressions.
pub open spec fn parse_list_spec(ts: Seq<TokenV>, j: int) -> Result<(TermV, int), Seq<char>>
    decreases rem(ts, j), 3int,
{
    if 0 <= j < ts.len() && ts[j] is Symbol {
        let h = ts[j]->Symbol_0;
        if h == "defmacro"@ {
            parse_defmacro_spec(ts, j)
        } else if h == "quote"@ {
            parse_wrap_spec(ts, j, 0)
        } else if h == "quasiquote"@ {
            parse_wrap_spec(ts, j, 1)
        } else if h == "unquote"@ {
            parse_wrap_spec(ts, j, 2)
        } else if h == "unquote-splicing"@ {
            parse_wrap_spec(ts, j, 3)
        } else {
            match parse_elems_spec(ts, j) {
                Ok((es, j2)) => Ok((TermV::List(es), j2)),
                Err(m) => Err(m),
            }
        }
    } else {
        match parse_elems_spec(ts, j) {
            Ok((es, j2)) => Ok((TermV::List(es), j2)),
            Err(m) => Err(m),
        }
    }
}

/// The quote-family wrapper that a long form builds.
pub open spec fn wrap_kind(kind: int, e: TermV) -> TermV {
    if kind == 0 {
        TermV::Quote(Box::new(e))
    } else if kind == 1 {
        TermV::Quasiquote(Box::new(e))
    } else if kind == 2 {
        TermV::Unquote(Box::new(e))
    } else {
        TermV::Splice(Box::new(e))
    }
}

/// The complaint when a long form is not closed.
pub open spec fn wrap_close_err(kind: int) -> Seq<char> {
    if kind == 0 {
        "Expected ')' after quote expression"@
    } else if kind == 1 {
        "Expected ')' after quasiquote expression"@
    } else if kind == 2 {
        "Expected ')' after unquote expression"@
    } else {
        "Expected ')' after unquote-splicing expression"@
    }
}

/// A long quote form: the head word at `j`, one expression, and the closing
/// parenthesis.
pub open spec fn parse_wrap_spec(ts: Seq<TokenV>, j: int, kind: int) -> Result<
    (TermV, int),
    Seq<char>,
>
    decreases rem(ts, j), 2int,
{
    if j < 0 || j >= ts.len() {
        Err(wrap_close_err(kind))
    } else {
        match parse_expr_spec(ts, j + 1) {
            Err(m) => Err(m),
            Ok((e, j2)) => {
                if 0 <= j2 < ts.len() && ts[j2] is RightParen {
                    Ok((wrap_kind(kind, e), j2 + 1))
                } else {
                    Err(wrap_close_err(kind))
                }
            },
        }
    }
}

/// A macro definition: the `defmacro` word at `j`, a name, a parameter
/// list, exactly one body expression, and the closing parenthesis.
pub open spec fn parse_defmacro_spec(ts: Seq<TokenV>, j: int) -> Result<(TermV, int), Seq<char>>
    decreases rem(ts, j), 2int,
{
    if !(0 <= j && j + 1 < ts.len() && ts[j + 1] is Symbol) {
        Err("Missing macro name after 'defmacro'"@)
    } else {
        let name = ts[j + 1]->Symbol_0;
        if !(j + 2 < ts.len() && ts[j + 2] is LeftParen) {
            Err("Missing parameter list for macro definition"@)
        } else {
            match parse_params_spec(ts, j + 3) {
                Err(m) => Err(m),
                Ok((params, jp)) => {
                    if jp >= ts.len() || ts[jp] is RightParen {
                        Err("Missing macro body"@)
                    } else {
                        match parse_expr_spec(ts, advance(j, jp)) {
                            Err(m) => Err(m),
                            Ok((body, jb)) => {
                                if 0 <= jb < ts.len() && ts[jb] is RightParen {
                                    Ok(
                                        (
                                            TermV::Macro {
                                                name,
                                                parameters: params,
                                                body: Box::new(body),
                                            },
                                            jb + 1,
                                        ),
                                    )
                                } else {
                                    Err("Expected ')' after macro definition"@)
                                }
                            },
                        }
                    }
                },
            }
        }
    }
}

/// A parameter list: symbols up to the closing parenthesis.
pub open spec fn parse_params_spec(ts: Seq<TokenV>, k: int) -> Result<
    (Seq<Seq<char>>, int),
    Seq<char>,
>
    decreases rem(ts, k),
{
    if k < 0 || k >= ts.len() {
        Err("Unclosed parameter list - missing ')'"@)
    } else {
        match ts[k] {
            TokenV::RightParen => Ok((Seq::empty(), k + 1)),
            TokenV::Symbol(s) => match parse_params_spec(ts, k + 1) {
                Ok((ps, k2)) => Ok((seq![s] + ps, k2)),
                Err(m) => Err(m),
            },
            _ => Err("Expected symbol in parameter list"@),
        }
    }
}

/// List elements up to the closing parenthesis.
pub open spec fn parse_elems_spec(ts: Seq<TokenV>, j: int) -> Result<(Seq<TermV>, int), Seq<char>>
    decreases rem(ts, j), 1int,
{
    if j < 0 || j >= ts.len() {
        Err("Unclosed list - missing ')'"@)
    } else if ts[j] is RightParen {
        Ok((Seq::empty(), j + 1))
    } else {
        match parse_expr_spec(ts, j) {
            Err(m) => Err(m),
            Ok((t, j2)) => parse_cons(t, parse_elems_spec(ts, advance(j, j2))),
        }
    }
}

/// The whole program: expressions until the tokens run out.
pub open spec fn parse_program_spec(ts: Seq<TokenV>, i: int) -> Result<(Seq<TermV>, int), Seq<char>>
    decreases rem(ts, i), 1int,
{
    if i < 0 || i >= ts.len() {
        Ok((Seq::empty(), if i < 0 { 0 } else { i }))
    } else {
        match parse_expr_spec(ts, i) {
            Err(m) => Err(m),
            Ok((t, j)) => parse_cons(t, parse_program_spec(ts, advance(i, j))),
        }
    }
}

// ---------------------------------------------------------------------------
// The parser, executable
// ---------------------------------------------------------------------------

fn parse_expr_exec(ts: &Vec<Token>, i: usize) -> (r: Result<(LispExpr, usize), String>)
    ensures
        match r {
            Ok((e, j)) => parse_expr_spec(tokens_view(ts@), i as int) matches Ok((tv, sj)) && e@
                == tv && j as int == sj,
            Err(m) => parse_expr_spec(tokens_view(ts@), i as int) matches Err(sm) && m@ == sm,
        },
    decreases rem(tokens_view(ts@), i as int), 0int,
{
    let ghost tv = tokens_view(ts@);
    if i >= ts.len() {
        return Err("Unexpected end of input".to_owned());
    }
    proof {
        assert(tv[i as int] == ts@[i as int]@);
    }
    match &ts[i] {
        Token::LeftParen => parse_list_exec(ts, i + 1),
        Token::Number(n) => Ok((LispExpr::Number(n.clone()), i + 1)),
        Token::Symbol(s) => Ok((LispExpr::Symbol(s.clone()), i + 1)),
        Token::String(s) => Ok((LispExpr::String(s.clone()), i + 1)),
        Token::Bool(b) => Ok((LispExpr::Bool(*b), i + 1)),
        Token::Nil => Ok((LispExpr::Nil, i + 1)),
        Token::Quote => {
            if i + 1 >= ts.len() {
                Err("Expected expression after quote".to_owned())
            } else {
                match parse_expr_exec(ts, i + 1) {
                    Ok((e, j)) => Ok((LispExpr::Quote(Box::new(e)), j)),
                    Err(m) => Err(m),
                }
            }
        },
        Token::Quasiquote => {
            match parse_expr_exec(ts, i + 1) {
                Ok((e, j)) => Ok((LispExpr::Quasiquote(Box::new(e)), j)),
                Err(m) => Err(m),
            }
        },
        Token::Unquote => {
            match parse_expr_exec(ts, i + 1) {
                Ok((e, j)) => Ok((LispExpr::Unquote(Box::new(e)), j)),
                Err(m) => Err(m),
            }
        },
        Token::Splice => {
            match parse_expr_exec(ts, i + 1) {
                Ok((e, j)) => Ok((LispExpr::Splice(Box::new(e)), j)),
                Err(m) => Err(m),
            }
        },
        Token::RightParen => Err("Unexpected ')' - missing opening parenthesis".to_owned()),
    }
}

fn parse_list_exec(ts: &Vec<Token>, j: usize) -> (r: Result<(LispExpr, usize), String>)
    ensures
        match r {
            Ok((e, j2)) => parse_list_spec(tokens_view(ts@), j as int) matches Ok((tv, sj)) && e@
                == tv && j2 as int == sj,
            Err(m) => parse_list_spec(tokens_view(ts@), j as int) matches Err(sm) && m@ == sm,
        },
    decreases rem(tokens_view(ts@), j as int), 3int,
{
    let ghost tv = tokens_view(ts@);
    let mut special: usize = 9;
    if j < ts.len() {
        proof {
            assert(tv[j as int] == ts@[j as int]@);
        }
        match &ts[j] {
            Token::Symbol(h) => {
                if *h == "defmacro".to_owned() {
                    special = 8;
                } else if *h == "quote".to_owned() {
                    special = 0;
                } else if *h == "quasiquote".to_owned() {
                    special = 1;
                } else if *h == "unquote".to_owned() {
                    special = 2;
                } else if *h == "unquote-splicing".to_owned() {
                    special = 3;
                }
            },
            _ => {},
        }
    }
    if special == 8 {
        parse_defmacro_exec(ts, j)
    } else if special <= 3 {
        parse_wrap_exec(ts, j, special)
    } else {
        match parse_elems_exec(ts, j) {
            Ok((es, j2)) => {
                proof {
                    assert((LispExpr::List(es))@ == TermV::List(terms_view(es@)));
                }
                Ok((LispExpr::List(es), j2))
            },
            Err(m) => Err(m),
        }
    }
}

fn parse_wrap_exec(ts: &Vec<Token>, j: usize, kind: usize) -> (r: Result<
    (LispExpr, usize),
    String,
>)
    requires
        kind <= 3,
        j < ts.len(),
    ensures
        match r {
            Ok((e, j2)) => parse_wrap_spec(tokens_view(ts@), j as int, kind as int)
                matches Ok((tv, sj)) && e@ == tv && j2 as int == sj,
            Err(m) => parse_wrap_spec(tokens_view(ts@), j as int, kind as int) matches Err(sm)
                && m@ == sm,
        },
    decreases rem(tokens_view(ts@), j as int), 2int,
{
    let ghost tv = tokens_view(ts@);
    match parse_expr_exec(ts, j + 1) {
        Err(m) => Err(m),
        Ok((e, j2)) => {
            let closed = j2 < ts.len() && matches!(&ts[j2], Token::RightParen);
            proof {
                if j2 < ts.len() {
                    assert(tv[j2 as int] == ts@[j2 as int]@);
                }
            }
            if closed {
                let wrapped = if kind == 0 {
                    LispExpr::Quote(Box::new(e))
                } else if kind == 1 {
                    LispExpr::Quasiquote(Box::new(e))
                } else if kind == 2 {
                    LispExpr::Unquote(Box::new(e))
                } else {
                    LispExpr::Splice(Box::new(e))
                };
                Ok((wrapped, j2 + 1))
            } else if kind == 0 {
                Err("Expected ')' after quote expression".to_owned())
            } else if kind == 1 {
                Err("Expected ')' after quasiquote expression".to_owned())
            } else if kind == 2 {
                Err("Expected ')' after unquote expression".to_owned())
            } else {
                Err("Expected ')' after unquote-splicing expression".to_owned())
            }
        },
    }
}

fn parse_defmacro_exec(ts: &Vec<Token>, j: usize) -> (r: Result<(LispExpr, usize), String>)
    requires
        j < ts.len(),
    ensures
        match r {
            Ok((e, j2)) => parse_defmacro_spec(tokens_view(ts@), j as int) matches Ok((tv, sj))
                && e@ == tv && j2 as int == sj,
            Err(m) => parse_defmacro_spec(tokens_view(ts@), j as int) matches Err(sm) && m@ == sm,
        },
    decreases rem(tokens_view(ts@), j as int), 2int,
{
    let ghost tv = tokens_view(ts@);
    if j + 1 >= ts.len() {
        return Err("Missing macro name after 'defmacro'".to_owned());
    }
    proof {
        assert(tv[j as int + 1] == ts@[j as int + 1]@);
    }
    let name: String = match &ts[j + 1] {
        Token::Symbol(s) => s.clone(),
        _ => {
            return Err("Missing macro name after 'defmacro'".to_owned());
        },
    };
    let lparen = j + 2 < ts.len() && matches!(&ts[j + 2], Token::LeftParen);
    proof {
        if j + 2 < ts.len() {
            assert(tv[j as int + 2] == ts@[j as int + 2]@);
        }
    }
    if !lparen {
        return Err("Missing parameter list for macro definition".to_owned());
    }
    match parse_params_exec(ts, j + 3) {
        Err(m) => Err(m),
        Ok((params, jp)) => {
            let body_missing = jp >= ts.len() || matches!(&ts[jp], Token::RightParen);
            proof {
                if jp < ts.len() {
                    assert(tv[jp as int] == ts@[jp as int]@);
                }
            }
            if body_missing {
                return Err("Missing macro body".to_owned());
            }
            let next = if jp > j {
                jp
            } else {
                j + 1
            };
            match parse_expr_exec(ts, next) {
                Err(m) => Err(m),
                Ok((body, jb)) => {
                    let closed = jb < ts.len() && matches!(&ts[jb], Token::RightParen);
                    proof {
                        if jb < ts.len() {
                            assert(tv[jb as int] == ts@[jb as int]@);
                        }
                    }
                    if closed {
                        let m = LispExpr::Macro {
                            name,
                            parameters: params,
                            body: Box::new(body),
                        };
                        proof {
                            assert(m@ == parse_defmacro_spec(tv, j as int)->Ok_0.0);
                        }
                        Ok((m, jb + 1))
                    } else {
                        Err("Expected ')' after macro definition".to_owned())
                    }
                },
            }
        },
    }
}

fn parse_params_exec(ts: &Vec<Token>, k: usize) -> (r: Result<(Vec<String>, usize), String>)
    ensures
        match r {
            Ok((ps, k2)) => parse_params_spec(tokens_view(ts@), k as int) matches Ok((pv, sk))
                && names_view(ps@) == pv && k2 as int == sk,
            Err(m) => parse_params_spec(tokens_view(ts@), k as int) matches Err(sm) && m@ == sm,
        },
    decreases rem(tokens_view(ts@), k as int),
{
    let ghost tv = tokens_view(ts@);
    if k >= ts.len() {
        return Err("Unclosed parameter list - missing ')'".to_owned());
    }
    proof {
        assert(tv[k as int] == ts@[k as int]@);
    }
    match &ts[k] {
        Token::RightParen => {
            let ps: Vec<String> = Vec::new();
            proof {
                assert(names_view(ps@) =~= Seq::<Seq<char>>::empty());
            }
            Ok((ps, k + 1))
        },
        Token::Symbol(s) => {
            match parse_params_exec(ts, k + 1) {
                Ok((mut ps, k2)) => {
                    ps.insert(0, s.clone());
                    proof {
                        assert(names_view(ps@) =~= seq![ps@[0]@] + names_view(ps@.drop_first()));
                    }
                    Ok((ps, k2))
                },
                Err(m) => Err(m),
            }
        },
        _ => Err("Expected symbol in parameter list".to_owned()),
    }
}

fn parse_elems_exec(ts: &Vec<Token>, j: usize) -> (r: Result<(Vec<LispExpr>, usize), String>)
    ensures
        match r {
            Ok((es, j2)) => parse_elems_spec(tokens_view(ts@), j as int) matches Ok((ev, sj))
                && terms_view(es@) == ev && j2 as int == sj,
            Err(m) => parse_elems_spec(tokens_view(ts@), j as int) matches Err(sm) && m@ == sm,
        },
    decreases rem(tokens_view(ts@), j as int), 1int,
{
    let ghost tv = tokens_view(ts@);
    if j >= ts.len() {
        return Err("Unclosed list - missing ')'".to_owned());
    }
    proof {
        assert(tv[j as int] == ts@[j as int]@);
    }
    let closing = matches!(&ts[j], Token::RightParen);
    if closing {
        let es: Vec<LispExpr> = Vec::new();
        proof {
            assert(terms_view(es@) =~= Seq::<TermV>::empty());
        }
        return Ok((es, j + 1));
    }
    match parse_expr_exec(ts, j) {
        Err(m) => Err(m),
        Ok((t, j2)) => {
            let next = if j2 > j {
                j2
            } else {
                j + 1
            };
            match parse_elems_exec(ts, next) {
                Err(m) => Err(m),
                Ok((mut es, j3)) => {
                    es.insert(0, t);
                    proof {
                        assert(terms_view(es@) =~= seq![es@[0]@] + terms_view(es@.drop_first()));
                    }
                    Ok((es, j3))
                },
            }
        },
    }
}

fn parse_program_exec(ts: &Vec<Token>, i: usize) -> (r: Result<Vec<LispExpr>, String>)
    ensures
        match r {
            Ok(es) => parse_program_spec(tokens_view(ts@), i as int) matches Ok((ev, _)) &&
                terms_view(es@) == ev,
            Err(m) => parse_program_spec(tokens_view(ts@), i as int) matches Err(sm) && m@ == sm,
        },
    decreases rem(tokens_view(ts@), i as int), 1int,
{
    let ghost tv = tokens_view(ts@);
    if i >= ts.len() {
        let es: Vec<LispExpr> = Vec::new();
        proof {
            assert(terms_view(es@) =~= Seq::<TermV>::empty());
        }
        return Ok(es);
    }
    match parse_expr_exec(ts, i) {
        Err(m) => Err(m),
        Ok((t, j)) => {
            let next = if j > i {
                j
            } else {
                i + 1
            };
            match parse_program_exec(ts, next) {
                Err(m) => Err(m),
                Ok(mut es) => {
                    es.insert(0, t);
                    proof {
                        assert(terms_view(es@) =~= seq![es@[0]@] + terms_view(es@.drop_first()));
                    }
                    Ok(es)
                },
            }
        },
    }
}

/// Turn tokens into the program's terms, or report the first syntax error.
pub fn parse(tokens: Vec<Token>) -> (r: Result<Vec<LispExpr>, String>)
    ensures
        match r {
            Ok(es) => parse_program_spec(tokens_view(tokens@), 0) matches Ok((ev, _))
                && terms_view(es@) == ev,
            Err(m) => parse_program_spec(tokens_view(tokens@), 0) matches Err(sm) && m@ == sm,
        },
{
    parse_program_exec(&tokens, 0)
}

} // verus!
