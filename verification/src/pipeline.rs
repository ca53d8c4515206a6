use vstd::prelude::*;
use crate::ast::{LispExpr, TermV, terms_view};
use crate::compiler::{compile_program_spec, compile_to_rust};
use crate::ir::{parse_ir_program, ser_program_spec, serialize_program, deserialize_program};
use crate::lexer::{lex_spec, lex_err_text, tokenize};
use crate::macro_expander::{ErrV, MacroExpander, StV, err_text, expand_spec, expands_away};
use crate::parser::{parse, parse_program_spec};
use crate::text::{dec_digits, usize_to_string};
use crate::transform::{ASTTransform, TransformRegistry};
use crate::validator::{
    ASTValidator, CompositeValidator, ComplexityLimitsValidator, FFIRestrictionsValidator,
    ResourceBoundsValidator, TypeSafetyValidator, ValErrV, collected_errors, cl_validate_spec,
    errs_view, ffi_validate_spec, rb_validate_spec, ts_validate_spec, val_err_text,
};

verus! {

/// The errors that the four stock validators raise on one term, in their
/// stock order: type shapes, resource bounds, FFI restrictions, and the
/// complexity limit of fifty.
pub open spec fn stock_errors(t: TermV) -> Seq<ValErrV> {
    (match ts_validate_spec(Map::empty(), t) {
        Ok(()) => Seq::empty(),
        Err(e) => seq![e],
    }) + (match rb_validate_spec(t) {
        Ok(()) => Seq::empty(),
        Err(e) => seq![e],
    }) + (match ffi_validate_spec(Seq::empty(), t) {
        Ok(()) => Seq::empty(),
        Err(e) => seq![e],
    }) + (match cl_validate_spec(50, 0, t) {
        Ok(()) => Seq::empty(),
        Err(e) => seq![e],
    })
}

/// The message reported when a term breaks validation rules.
pub open spec fn validation_failure_text(es: Seq<ValErrV>) -> Seq<char> {
    "Validation failed with "@ + dec_digits(es.len() as int) + " error(s):\n"@
        + failure_lines(es)
}

/// One indented line per error, separated by line breaks.
pub open spec fn failure_lines(es: Seq<ValErrV>) -> Seq<char>
    decreases es.len(),
{
    if es.len() == 0 {
        Seq::empty()
    } else if es.len() == 1 {
        "  - "@ + val_err_text(es[0])
    } else {
        "  - "@ + val_err_text(es[0]) + "\n"@ + failure_lines(es.drop_first())
    }
}

/// The complaint of the first term that breaks validation, if any does.
pub open spec fn first_validation_failure(ts: Seq<TermV>) -> Option<Seq<char>>
    decreases ts.len(),
{
    if ts.len() == 0 {
        None
    } else if stock_errors(ts[0]).len() > 0 {
        Some(validation_failure_text(stock_errors(ts[0])))
    } else {
        first_validation_failure(ts.drop_first())
    }
}

/// Each top-level term expanded in source order under one running
/// expander; a term whose definition or call expanded away to Nil is
/// pruned, and every other term — a literal Nil included — survives.
pub open spec fn expand_terms_spec(st: StV, maxd: int, ts: Seq<TermV>) -> Result<
    Seq<TermV>,
    ErrV,
>
    decreases ts.len(),
{
    if ts.len() == 0 {
        Ok(Seq::empty())
    } else {
        match expand_spec(st, maxd, 0, ts[0]) {
            (Ok(r), st2) => match expand_terms_spec(st2, maxd, ts.drop_first()) {
                Ok(rest) => Ok(
                    if r is Nil && expands_away(ts[0], st.macros) {
                        rest
                    } else {
                        seq![r] + rest
                    },
                ),
                Err(e) => Err(e),
            },
            (Err(e), _) => Err(e),
        }
    }
}

/// What the pipeline after parsing yields: validation when asked for, then
/// expansion under a fresh expander with the stock depth bound, then
/// lowering.
pub open spec fn finish_spec(ts: Seq<TermV>, validate_safety: bool) -> Result<
    Seq<char>,
    Seq<char>,
> {
    let gate = if validate_safety {
        first_validation_failure(ts)
    } else {
        None
    };
    match gate {
        Some(m) => Err(m),
        None => match expand_terms_spec(StV { macros: Map::empty(), counter: 0 }, 100, ts) {
            Err(e) => Err("Macro expansion error: "@ + err_text(e)),
            Ok(es) => compile_program_spec(es),
        },
    }
}

/// What the pipeline after parsing yields on the way to the IR: the same
/// gate and expansion, then serialization instead of lowering.
pub open spec fn finish_ir_spec(ts: Seq<TermV>, validate_safety: bool) -> Result<
    Seq<char>,
    Seq<char>,
> {
    let gate = if validate_safety {
        first_validation_failure(ts)
    } else {
        None
    };
    match gate {
        Some(m) => Err(m),
        None => match expand_terms_spec(StV { macros: Map::empty(), counter: 0 }, 100, ts) {
            Err(e) => Err("Macro expansion error: "@ + err_text(e)),
            Ok(es) => Ok(ser_program_spec(es)),
        },
    }
}

/// What one translation unit yields from source text, with no transforms in
/// the way.
pub open spec fn compile_source_spec(source: Seq<char>, validate_safety: bool) -> Result<
    Seq<char>,
    Seq<char>,
> {
    match lex_spec(source, 0) {
        Err(e) => Err(lex_err_text(e)),
        Ok(tokens) => match parse_program_spec(tokens, 0) {
            Err(m) => Err(m),
            Ok((ts, _)) => finish_spec(ts, validate_safety),
        },
    }
}

// ---------------------------------------------------------------------------
// Executable pipeline
// ---------------------------------------------------------------------------

/// Run the four stock validators over every term; the first term that
/// breaks a rule fails the whole unit with all of that term's complaints.
pub fn validate_ast(ast: &Vec<LispExpr>) -> (r: Result<(), String>)
    ensures
        match r {
            Ok(()) => first_validation_failure(terms_view(ast@)) is None,
            Err(m) => first_validation_failure(terms_view(ast@)) matches Some(sm) && m@ == sm,
        },
{
    let composite = CompositeValidator::new().add_validator(
        ASTValidator::TypeSafety(TypeSafetyValidator::new()),
    ).add_validator(ASTValidator::ResourceBounds(ResourceBoundsValidator::new())).add_validator(
        ASTValidator::FFIRestrictions(FFIRestrictionsValidator::new()),
    ).add_validator(ASTValidator::ComplexityLimits(ComplexityLimitsValidator::new()));
    let ghost tv = terms_view(ast@);
    let mut i: usize = 0;
    while i < ast.len()
        invariant
            i <= ast.len(),
            tv == terms_view(ast@),
            composite.wf(),
            errs_view_of_stock(composite),
            forall|k: int| 0 <= k < i ==> stock_errors(#[trigger] tv[k]).len() == 0,
            forall|k: int| 0 <= k < i ==> first_validation_failure(#[trigger] tv.skip(k))
                == first_validation_failure(tv.skip(k + 1)),
        decreases ast.len() - i,
    {
        proof {
            assert(tv[i as int] == ast@[i as int]@);
        }
        match composite.validate_all(&ast[i]) {
            Ok(()) => {
                proof {
                    lemma_stock_collected(composite, tv[i as int]);
                    assert(stock_errors(tv[i as int]).len() == 0);
                    assert(tv.skip(i as int)[0] == tv[i as int]);
                    assert(tv.skip(i as int).drop_first() =~= tv.skip(i as int + 1));
                }
            },
            Err(errors) => {
                proof {
                    lemma_stock_collected(composite, tv[i as int]);
                    assert(tv.skip(i as int)[0] == tv[i as int]);
                    assert(first_validation_failure(tv) == first_validation_failure(
                        tv.skip(i as int),
                    )) by {
                        lemma_first_failure_chain(tv, i as int);
                    }
                }
                let mut msg = "Validation failed with ".to_owned();
                let n = usize_to_string(errors.len());
                msg.append(n.as_str());
                msg.append(" error(s):\n");
                let mut k: usize = 0;
                let ghost esv = errs_view(errors@);
                while k < errors.len()
                    invariant
                        k <= errors.len(),
                        esv == errs_view(errors@),
                        esv.len() > 0,
                        msg@ == "Validation failed with "@ + dec_digits(esv.len() as int)
                            + " error(s):\n"@ + lines_prefix(esv, k as int),
                    decreases errors.len() - k,
                {
                    proof {
                        assert(esv[k as int] == errors@[k as int]@);
                    }
                    msg.append("  - ");
                    let line = errors[k].render();
                    msg.append(line.as_str());
                    if k + 1 < errors.len() {
                        msg.append("\n");
                    }
                    proof {
                        assert(msg@ =~= "Validation failed with "@ + dec_digits(
                            esv.len() as int,
                        ) + " error(s):\n"@ + lines_prefix(esv, k as int + 1));
                    }
                    k += 1;
                }
                proof {
                    lemma_lines_prefix_all(esv);
                    assert(msg@ =~= validation_failure_text(stock_errors(tv[i as int])));
                }
                return Err(msg);
            },
        }
        i += 1;
    }
    proof {
        if tv.len() > 0 {
            lemma_first_failure_chain(tv, tv.len() as int);
            assert(tv.skip(tv.len() as int).len() == 0);
        }
    }
    Ok(())
}

/// The first `k` error lines, with a break after each that another follows.
pub open spec fn lines_prefix(es: Seq<ValErrV>, k: int) -> Seq<char>
    decreases k,
{
    if k <= 0 {
        Seq::empty()
    } else {
        lines_prefix(es, k - 1) + "  - "@ + val_err_text(es[k - 1]) + (if k < es.len() {
            "\n"@
        } else {
            Seq::empty()
        })
    }
}

proof fn lemma_lines_prefix_all(es: Seq<ValErrV>)
    ensures
        lines_prefix(es, es.len() as int) =~= failure_lines(es),
    decreases es.len(),
{
    if es.len() > 0 {
        lemma_lines_prefix_all(es.drop_first());
        lemma_lines_prefix_shift(es, es.len() as int - 1);
    }
}

proof fn lemma_lines_prefix_shift(es: Seq<ValErrV>, k: int)
    requires
        es.len() > 0,
        0 <= k <= es.len() - 1,
    ensures
        lines_prefix(es, k + 1) =~= "  - "@ + val_err_text(es[0]) + (if es.len() > 1 {
            "\n"@
        } else {
            Seq::empty()
        }) + lines_prefix(es.drop_first(), k),
    decreases k,
{
    let head = "  - "@ + val_err_text(es[0]) + (if es.len() > 1 {
        "\n"@
    } else {
        Seq::<char>::empty()
    });
    if k == 0 {
        assert(lines_prefix(es, 1) == lines_prefix(es, 0) + "  - "@ + val_err_text(es[0]) + (
        if 1 < es.len() {
            "\n"@
        } else {
            Seq::<char>::empty()
        }));
        assert(lines_prefix(es.drop_first(), 0) == Seq::<char>::empty());
        assert(lines_prefix(es, 1) =~= head + lines_prefix(es.drop_first(), 0));
    } else {
        lemma_lines_prefix_shift(es, k - 1);
        assert(es.drop_first()[k - 1] == es[k]);
        assert(lines_prefix(es, k + 1) == lines_prefix(es, k) + "  - "@ + val_err_text(es[k]) + (
        if k + 1 < es.len() {
            "\n"@
        } else {
            Seq::<char>::empty()
        }));
        assert(lines_prefix(es.drop_first(), k) == lines_prefix(es.drop_first(), k - 1) + "  - "@
            + val_err_text(es.drop_first()[k - 1]) + (if k < es.drop_first().len() {
            "\n"@
        } else {
            Seq::<char>::empty()
        }));
        assert(lines_prefix(es, k + 1) =~= head + lines_prefix(es.drop_first(), k));
    }
}

/// The stock composite collects exactly the stock errors.
pub open spec fn errs_view_of_stock(c: CompositeValidator) -> bool {
    &&& c.spec_validators().len() == 4
    &&& c.spec_validators()[0] matches ASTValidator::TypeSafety(ts) && ts.env() == Map::<
        Seq<char>,
        crate::validator::InferredType,
    >::empty()
    &&& c.spec_validators()[1] is ResourceBounds
    &&& c.spec_validators()[2] matches ASTValidator::FFIRestrictions(f) && f.allowed() == Seq::<
        Seq<char>,
    >::empty()
    &&& c.spec_validators()[3] matches ASTValidator::ComplexityLimits(cl) && cl.max_nesting()
        == 50
}

proof fn lemma_stock_collected(c: CompositeValidator, t: TermV)
    requires
        errs_view_of_stock(c),
    ensures
        collected_errors(c.spec_validators(), t) == stock_errors(t),
{
    let vs = c.spec_validators();
    let v0 = seq![vs[0]];
    let v1 = seq![vs[0], vs[1]];
    let v2 = seq![vs[0], vs[1], vs[2]];
    assert(v0.drop_last() =~= Seq::<ASTValidator>::empty());
    assert(v1.drop_last() =~= v0);
    assert(v2.drop_last() =~= v1);
    assert(vs.drop_last() =~= v2);
    assert(collected_errors(Seq::<ASTValidator>::empty(), t) =~= Seq::<ValErrV>::empty());
    assert(crate::validator::av_error(vs[0], t) == (match ts_validate_spec(Map::empty(), t) {
        Ok(()) => None::<ValErrV>,
        Err(e) => Some(e),
    }));
    assert(crate::validator::av_error(vs[2], t) == (match ffi_validate_spec(
        Seq::<Seq<char>>::empty(),
        t,
    ) {
        Ok(()) => None::<ValErrV>,
        Err(e) => Some(e),
    }));
    assert(collected_errors(v0, t) =~= (match ts_validate_spec(Map::empty(), t) {
        Ok(()) => Seq::<ValErrV>::empty(),
        Err(e) => seq![e],
    }));
    assert(collected_errors(v1, t) =~= collected_errors(v0, t) + (match rb_validate_spec(t) {
        Ok(()) => Seq::<ValErrV>::empty(),
        Err(e) => seq![e],
    }));
    assert(collected_errors(v2, t) =~= collected_errors(v1, t) + (match ffi_validate_spec(
        Seq::<Seq<char>>::empty(),
        t,
    ) {
        Ok(()) => Seq::<ValErrV>::empty(),
        Err(e) => seq![e],
    }));
    assert(collected_errors(vs, t) =~= collected_errors(v2, t) + (match cl_validate_spec(
        50,
        0,
        t,
    ) {
        Ok(()) => Seq::<ValErrV>::empty(),
        Err(e) => seq![e],
    }));
    assert(collected_errors(vs, t) =~= stock_errors(t));
}

proof fn lemma_first_failure_chain(ts: Seq<TermV>, i: int)
    requires
        0 <= i <= ts.len(),
        forall|k: int| 0 <= k < i ==> first_validation_failure(#[trigger] ts.skip(k))
            == first_validation_failure(ts.skip(k + 1)),
    ensures
        first_validation_failure(ts) == first_validation_failure(ts.skip(i)),
    decreases i,
{
    if i > 0 {
        lemma_first_failure_chain(ts, i - 1);
        assert(ts.skip(0) =~= ts);
    } else {
        assert(ts.skip(0) =~= ts);
    }
}

/// Expand every top-level term in source order under one fresh expander,
/// pruning the Nil remnants of macro definitions.
fn expand_terms(terms: Vec<LispExpr>) -> (r: Result<Vec<LispExpr>, String>)
    ensures
        match r {
            Ok(es) => expand_terms_spec(
                StV { macros: Map::empty(), counter: 0 },
                100,
                terms_view(terms@),
            ) matches Ok(sv) && terms_view(es@) == sv,
            Err(m) => expand_terms_spec(
                StV { macros: Map::empty(), counter: 0 },
                100,
                terms_view(terms@),
            ) matches Err(ev) && m@ == "Macro expansion error: "@ + err_text(ev),
        },
{
    let mut expander = MacroExpander::new();
    proof {
        assert(terms_view(terms@).skip(0) =~= terms_view(terms@));
    }
    expand_terms_from(&mut expander, &terms, 0)
}

fn expand_terms_from(expander: &mut MacroExpander, terms: &Vec<LispExpr>, start: usize) -> (r:
    Result<Vec<LispExpr>, String>)
    requires
        start <= terms.len(),
        old(expander).wf(),
        old(expander).spec_max_depth() == 100,
    ensures
        match r {
            Ok(es) => expand_terms_spec(old(expander).model(), 100, terms_view(terms@).skip(
                start as int,
            )) matches Ok(sv) && terms_view(es@) == sv,
            Err(m) => expand_terms_spec(old(expander).model(), 100, terms_view(terms@).skip(
                start as int,
            )) matches Err(ev) && m@ == "Macro expansion error: "@ + err_text(ev),
        },
    decreases terms.len() - start,
{
    let ghost tv = terms_view(terms@).skip(start as int);
    if start == terms.len() {
        let r: Vec<LispExpr> = Vec::new();
        proof {
            assert(tv.len() == 0);
            assert(terms_view(r@) =~= Seq::<TermV>::empty());
        }
        return Ok(r);
    }
    proof {
        assert(tv[0] == terms@[start as int]@);
        assert(tv.drop_first() =~= terms_view(terms@).skip(start as int + 1));
    }
    let ghost st0 = expander.model();
    let term_away: bool;
    match &terms[start] {
        LispExpr::Macro { .. } => {
            term_away = true;
            proof {
                assert(expands_away(tv[0], st0.macros));
            }
        },
        LispExpr::MacroCall { .. } => {
            term_away = true;
            proof {
                assert(expands_away(tv[0], st0.macros));
            }
        },
        LispExpr::List(inner) => {
            proof {
                assert(tv[0] == TermV::List(terms_view(inner@)));
            }
            if inner.len() > 0 {
                proof {
                    assert(terms_view(inner@)[0] == inner@[0]@);
                }
                match &inner[0] {
                    LispExpr::Symbol(h) => {
                        term_away = expander.has_registered(h);
                        proof {
                            assert(term_away == expands_away(tv[0], st0.macros));
                        }
                    },
                    _ => {
                        term_away = false;
                        proof {
                            assert(!expands_away(tv[0], st0.macros));
                        }
                    },
                }
            } else {
                term_away = false;
                proof {
                    assert(!expands_away(tv[0], st0.macros));
                }
            }
        },
        _ => {
            term_away = false;
            proof {
                assert(!expands_away(tv[0], st0.macros));
            }
        },
    }
    match expander.expand_all(terms[start].deep_clone()) {
        Err(e) => {
            let mut m = "Macro expansion error: ".to_owned();
            let text = e.message();
            m.append(text.as_str());
            Err(m)
        },
        Ok(expanded) => {
            match expand_terms_from(expander, terms, start + 1) {
                Err(m) => Err(m),
                Ok(mut rest) => {
                    let is_nil = matches!(expanded, LispExpr::Nil);
                    if !(is_nil && term_away) {
                        rest.insert(0, expanded);
                        proof {
                            assert(terms_view(rest@) =~= seq![rest@[0]@] + terms_view(
                                rest@.drop_first(),
                            ));
                        }
                    }
                    Ok(rest)
                },
            }
        },
    }
}

/// Validation when asked for, then expansion, then lowering.
pub fn finish_compilation(terms: Vec<LispExpr>, validate_safety: bool) -> (r: Result<
    String,
    String,
>)
    ensures
        match r {
            Ok(code) => finish_spec(terms_view(terms@), validate_safety) matches Ok(sc) && code@
                == sc,
            Err(m) => finish_spec(terms_view(terms@), validate_safety) matches Err(sm) && m@
                == sm,
        },
{
    if validate_safety {
        match validate_ast(&terms) {
            Ok(()) => {},
            Err(m) => {
                return Err(m);
            },
        }
    }
    match expand_terms(terms) {
        Err(m) => Err(m),
        Ok(expanded) => compile_to_rust(&expanded),
    }
}

/// Validation when asked for, then expansion, then serialization to the IR.
pub fn finish_to_ir(terms: Vec<LispExpr>, validate_safety: bool) -> (r: Result<String, String>)
    ensures
        match r {
            Ok(ir) => finish_ir_spec(terms_view(terms@), validate_safety) matches Ok(sc) && ir@
                == sc,
            Err(m) => finish_ir_spec(terms_view(terms@), validate_safety) matches Err(sm) && m@
                == sm,
        },
{
    if validate_safety {
        match validate_ast(&terms) {
            Ok(()) => {},
            Err(m) => {
                return Err(m);
            },
        }
    }
    match expand_terms(terms) {
        Err(m) => Err(m),
        Ok(expanded) => Ok(serialize_program(&expanded)),
    }
}


/// Run the registered transforms over each term, in order; with none
/// registered the terms come through unchanged.
fn apply_transforms<T: ASTTransform>(
    registry: &mut TransformRegistry<T>,
    ast: &Vec<LispExpr>,
) -> (r: Result<Vec<LispExpr>, String>)
    ensures
        old(registry).spec_count() == 0 ==> (r matches Ok(ts) && terms_view(ts@) == terms_view(
            ast@,
        )),
{
    let ghost parsed = terms_view(ast@);
    let zero_transforms = registry.count() == 0;
    let mut transformed: Vec<LispExpr> = Vec::new();
    let mut i: usize = 0;
    while i < ast.len()
        invariant
            i <= ast.len(),
            parsed == terms_view(ast@),
            transformed@.len() == i,
            registry.spec_count() == old(registry).spec_count(),
            zero_transforms == (old(registry).spec_count() == 0),
            zero_transforms ==> forall|k: int| 0 <= k < i ==> transformed@[k]@ == #[trigger] parsed[k],
        decreases ast.len() - i,
    {
        let mut expr = ast[i].deep_clone();
        match registry.apply_all(&mut expr) {
            Ok(()) => {},
            Err(e) => {
                proof {
                    assert(!zero_transforms);
                }
                let mut m = "Transform error: ".to_owned();
                let text = e.render();
                m.append(text.as_str());
                return Err(m);
            },
        }
        proof {
            assert(parsed[i as int] == ast@[i as int]@);
        }
        transformed.push(expr);
        i += 1;
    }
    proof {
        if zero_transforms {
            assert(terms_view(transformed@) =~= parsed);
        }
    }
    Ok(transformed)
}

/// One whole translation unit: lex, parse, apply the given transforms in
/// order, validate when asked to, expand, and lower. With no transforms
/// registered the result is exactly what `compile_source_spec` says; a
/// transform may rewrite the tree first, and the rest of the pipeline then
/// runs on what it left behind.
pub fn compile_lisp<T: ASTTransform>(
    source: &str,
    mut registry: TransformRegistry<T>,
    validate_safety: bool,
) -> (r: Result<String, String>)
    ensures
        registry.spec_count() == 0 ==> (match r {
            Ok(code) => compile_source_spec(source@, validate_safety) matches Ok(sc) && code@
                == sc,
            Err(m) => compile_source_spec(source@, validate_safety) matches Err(sm) && m@ == sm,
        }),
{
    let tokens = match tokenize(source) {
        Ok(ts) => ts,
        Err(m) => {
            return Err(m);
        },
    };
    let ast = match parse(tokens) {
        Ok(es) => es,
        Err(m) => {
            return Err(m);
        },
    };
    let transformed = match apply_transforms(&mut registry, &ast) {
        Ok(ts) => ts,
        Err(m) => {
            return Err(m);
        },
    };
    finish_compilation(transformed, validate_safety)
}

/// One translation unit down to the IR instead of host text.
pub fn compile_to_ir<T: ASTTransform>(
    source: &str,
    mut registry: TransformRegistry<T>,
    validate_safety: bool,
) -> (r: Result<String, String>)
    ensures
        registry.spec_count() == 0 ==> (match r {
            Ok(ir) => (match lex_spec(source@, 0) {
                Err(e) => Err(lex_err_text(e)),
                Ok(tokens) => match parse_program_spec(tokens, 0) {
                    Err(m) => Err(m),
                    Ok((ts, _)) => finish_ir_spec(ts, validate_safety),
                },
            }) matches Ok::<Seq<char>, Seq<char>>(sc) && ir@ == sc,
            Err(m) => (match lex_spec(source@, 0) {
                Err(e) => Err(lex_err_text(e)),
                Ok(tokens) => match parse_program_spec(tokens, 0) {
                    Err(m2) => Err(m2),
                    Ok((ts, _)) => finish_ir_spec(ts, validate_safety),
                },
            }) matches Err::<Seq<char>, Seq<char>>(sm) && m@ == sm,
        }),
{
    let tokens = match tokenize(source) {
        Ok(ts) => ts,
        Err(m) => {
            return Err(m);
        },
    };
    let ast = match parse(tokens) {
        Ok(es) => es,
        Err(m) => {
            return Err(m);
        },
    };
    let transformed = match apply_transforms(&mut registry, &ast) {
        Ok(ts) => ts,
        Err(m) => {
            return Err(m);
        },
    };
    finish_to_ir(transformed, validate_safety)
}

/// One translation unit read back from the IR: validate when asked to,
/// then lower. Transforms and expansion were already applied when the IR
/// was made.
pub fn compile_from_ir(json_source: &str, validate_safety: bool) -> (r: Result<String, String>)
    ensures
        match parse_ir_program(json_source@) {
            Some((ts, end)) => end == json_source@.len() ==> (match r {
                Ok(code) => (match (if validate_safety {
                    first_validation_failure(ts)
                } else {
                    None
                }) {
                    Some(m) => Err(m),
                    None => compile_program_spec(ts),
                }) matches Ok::<Seq<char>, Seq<char>>(sc) && code@ == sc,
                Err(m) => (match (if validate_safety {
                    first_validation_failure(ts)
                } else {
                    None
                }) {
                    Some(m2) => Err(m2),
                    None => compile_program_spec(ts),
                }) matches Err::<Seq<char>, Seq<char>>(sm) && m@ == sm,
            }),
            None => r is Err,
        },
{
    let ast = match deserialize_program(json_source) {
        Ok(es) => es,
        Err(m) => {
            return Err(m);
        },
    };
    if validate_safety {
        match validate_ast(&ast) {
            Ok(()) => {},
            Err(m) => {
                return Err(m);
            },
        }
    }
    compile_to_rust(&ast)
}

} // verus!
