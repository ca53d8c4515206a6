use vstd::prelude::*;
use crate::ast::{LispExpr, TermV, terms_view};
use crate::macro_expander::{term_size, seq_size, lemma_seq_size_first};
use crate::text::{dec_digits, usize_to_string};

verus! {

/// The string-literal text with every quote escaped.
pub open spec fn escape_dquote(s: Seq<char>) -> Seq<char>
    decreases s.len(),
{
    if s.len() == 0 {
        Seq::empty()
    } else if s.last() == '"' {
        escape_dquote(s.drop_last()) + seq!['\\', '"']
    } else {
        escape_dquote(s.drop_last()) + seq![s.last()]
    }
}

/// Texts joined by a separator.
pub open spec fn join_texts(parts: Seq<Seq<char>>, sep: Seq<char>) -> Seq<char>
    decreases parts.len(),
{
    if parts.len() == 0 {
        Seq::empty()
    } else if parts.len() == 1 {
        parts[0]
    } else {
        parts[0] + sep + join_texts(parts.drop_first(), sep)
    }
}

/// What the lowerer emits for one fully expanded term, or why it cannot.
pub open spec fn compile_expr_spec(t: TermV) -> Result<Seq<char>, Seq<char>>
    decreases term_size(t), 0int,
{
    match t {
        TermV::Number(s) => Ok(s),
        TermV::String(s) => Ok("\""@ + escape_dquote(s) + "\""@),
        TermV::Bool(b) => Ok(if b { "true"@ } else { "false"@ }),
        TermV::Nil => Ok("()"@),
        TermV::Symbol(s) => {
            if s == "pi"@ {
                Ok("std::f64::consts::PI"@)
            } else if s == "e"@ {
                Ok("std::f64::consts::E"@)
            } else {
                Err("Unknown symbol: "@ + s)
            }
        },
        TermV::List(es) => compile_list_spec(es),
        TermV::Macro { name, .. } => Err(
            "Macro definitions are not yet supported in code generation: "@ + name,
        ),
        TermV::MacroCall { name, .. } => Err(
            "Macro calls are not yet supported in code generation: "@ + name,
        ),
        TermV::Quote(_) => Err("Quote expressions are not yet supported in code generation"@),
        TermV::Quasiquote(_) => Err(
            "Quasiquote expressions are not yet supported in code generation"@,
        ),
        TermV::Unquote(_) => Err("Unquote expressions are not yet supported in code generation"@),
        TermV::Splice(_) => Err("Splice expressions are not yet supported in code generation"@),
        TermV::Gensym(n) => Ok("generated_symbol_"@ + n),
    }
}

/// The texts of the compiled arguments, or the first complaint.
pub open spec fn compile_args_spec(args: Seq<TermV>) -> Result<Seq<Seq<char>>, Seq<char>>
    decreases seq_size(args), 2int,
    via compile_args_spec_dec
{
    if args.len() == 0 {
        Ok(Seq::empty())
    } else {
        match compile_expr_spec(args[0]) {
            Err(m) => Err(m),
            Ok(c) => match compile_args_spec(args.drop_first()) {
                Ok(cs) => Ok(seq![c] + cs),
                Err(m) => Err(m),
            },
        }
    }
}

#[via_fn]
proof fn compile_args_spec_dec(args: Seq<TermV>) {
    if args.len() > 0 {
        lemma_seq_size_first(args);
    }
}

/// A successful compilation yields one text per argument.
pub proof fn lemma_compile_args_len(args: Seq<TermV>)
    ensures
        compile_args_spec(args) matches Ok(cs) ==> cs.len() == args.len(),
    decreases args.len(),
{
    if args.len() > 0 {
        lemma_compile_args_len(args.drop_first());
    }
}

/// What one `let` binding pair contributes to the emitted block.
pub open spec fn compile_bindings_spec(bs: Seq<TermV>) -> Result<Seq<char>, Seq<char>>
    decreases seq_size(bs), 2int,
    via compile_bindings_spec_dec
{
    if bs.len() == 0 {
        Ok(Seq::empty())
    } else {
        match bs[0] {
            TermV::List(pair) => {
                if pair.len() == 2 {
                    match pair[0] {
                        TermV::Symbol(v) => match compile_expr_spec(pair[1]) {
                            Err(m) => Err(m),
                            Ok(val) => match compile_bindings_spec(bs.drop_first()) {
                                Err(m) => Err(m),
                                Ok(rest) => Ok(
                                    " let "@ + v + " = "@ + val + ";"@ + rest,
                                ),
                            },
                        },
                        _ => Err("Variable name must be a symbol"@),
                    }
                } else {
                    Err("Each binding must be a list of [variable, value]"@)
                }
            },
            _ => Err("Each binding must be a list of [variable, value]"@),
        }
    }
}

#[via_fn]
proof fn compile_bindings_spec_dec(bs: Seq<TermV>) {
    if bs.len() > 0 {
        lemma_seq_size_first(bs);
        match bs[0] {
            TermV::List(pair) => {
                if pair.len() == 2 {
                    lemma_seq_size_first(pair);
                    lemma_seq_size_first(pair.drop_first());
                    assert(pair.drop_first()[0] == pair[1]);
                }
            },
            _ => {},
        }
    }
}

/// What the lowerer emits for a List: arithmetic and comparison chains,
/// `if`, `let`, `list`, and nothing else.
pub open spec fn compile_list_spec(es: Seq<TermV>) -> Result<Seq<char>, Seq<char>>
    decreases seq_size(es), 1int,
    via compile_list_spec_dec
{
    if es.len() == 0 {
        Ok("vec![]"@)
    } else {
        match es[0] {
            TermV::Symbol(h) => {
                if h == "+"@ || h == "-"@ || h == "*"@ || h == "/"@ {
                    compile_arith_spec(h, es.skip(1))
                } else if h == "="@ {
                    compile_cmp_spec("=="@, es.skip(1))
                } else if h == "<"@ {
                    compile_cmp_spec("<"@, es.skip(1))
                } else if h == ">"@ {
                    compile_cmp_spec(">"@, es.skip(1))
                } else if h == "<="@ {
                    compile_cmp_spec("<="@, es.skip(1))
                } else if h == ">="@ {
                    compile_cmp_spec(">="@, es.skip(1))
                } else if h == "if"@ {
                    compile_if_spec(es.skip(1))
                } else if h == "let"@ {
                    compile_let_spec(es.skip(1))
                } else if h == "list"@ {
                    match compile_args_spec(es.skip(1)) {
                        Err(m) => Err(m),
                        Ok(cs) => Ok("vec!["@ + join_texts(cs, ", "@) + "]"@),
                    }
                } else {
                    Err("Unknown function: "@ + h)
                }
            },
            _ => Err("First element of list must be a symbol"@),
        }
    }
}

#[via_fn]
proof fn compile_list_spec_dec(es: Seq<TermV>) {
    if es.len() > 0 {
        lemma_seq_size_first(es);
        assert(seq_size(es.skip(1)) < seq_size(es));
    }
}

/// An arithmetic chain: one operand stands alone (a lone minus negates),
/// several are joined by the operator inside parentheses.
pub open spec fn compile_arith_spec(op: Seq<char>, args: Seq<TermV>) -> Result<
    Seq<char>,
    Seq<char>,
>
    decreases seq_size(args), 3int,
{
    if args.len() == 0 {
        Err("Arithmetic operation '"@ + op + "' requires at least one argument"@)
    } else {
        match compile_args_spec(args) {
            Err(m) => Err(m),
            Ok(cs) => {
                if cs.len() == 1 {
                    if op == "-"@ {
                        Ok("-("@ + cs[0] + ")"@)
                    } else {
                        Ok(cs[0])
                    }
                } else {
                    Ok("("@ + join_texts(cs, " "@ + op + " "@) + ")"@)
                }
            },
        }
    }
}

/// A comparison of exactly two operands.
pub open spec fn compile_cmp_spec(op: Seq<char>, args: Seq<TermV>) -> Result<Seq<char>, Seq<char>>
    decreases seq_size(args), 3int,
{
    if args.len() != 2 {
        Err("Comparison operation '"@ + op + "' requires exactly 2 arguments"@)
    } else {
        match compile_args_spec(args) {
            Err(m) => Err(m),
            Ok(cs) => Ok("("@ + cs[0] + " "@ + op + " "@ + cs[1] + ")"@),
        }
    }
}

/// A conditional of exactly three parts.
pub open spec fn compile_if_spec(args: Seq<TermV>) -> Result<Seq<char>, Seq<char>>
    decreases seq_size(args), 3int,
{
    if args.len() != 3 {
        Err("'if' requires exactly 3 arguments: condition, then-expr, else-expr"@)
    } else {
        match compile_args_spec(args) {
            Err(m) => Err(m),
            Ok(cs) => Ok(
                "if "@ + cs[0] + " { "@ + cs[1] + " } else { "@ + cs[2] + " }"@,
            ),
        }
    }
}

/// A `let` block: a list of binding pairs, then the body.
pub open spec fn compile_let_spec(args: Seq<TermV>) -> Result<Seq<char>, Seq<char>>
    decreases seq_size(args), 3int,
    via compile_let_spec_dec
{
    if args.len() != 2 {
        Err("'let' requires exactly 2 arguments: bindings and body"@)
    } else {
        match args[0] {
            TermV::List(bs) => match compile_bindings_spec(bs) {
                Err(m) => Err(m),
                Ok(binds) => match compile_expr_spec(args[1]) {
                    Err(m) => Err(m),
                    Ok(body) => Ok("{"@ + binds + " "@ + body + " }"@),
                },
            },
            _ => Err("First argument to 'let' must be a list of bindings"@),
        }
    }
}

#[via_fn]
proof fn compile_let_spec_dec(args: Seq<TermV>) {
    if args.len() == 2 {
        lemma_seq_size_first(args);
        lemma_seq_size_first(args.drop_first());
        assert(args.drop_first()[0] == args[1]);
        match args[0] {
            TermV::List(bs) => {
                assert(term_size(args[0]) == 1 + seq_size(bs));
            },
            _ => {},
        }
    }
}

/// What the lowerer emits for a whole program: a main function printing
/// each compiled expression, or the first complaint.
pub open spec fn compile_program_spec(es: Seq<TermV>) -> Result<Seq<char>, Seq<char>> {
    match compile_args_spec(es) {
        Err(m) => Err(m),
        Ok(cs) => Ok("fn main() {\n"@ + print_lines(cs) + "}\n"@),
    }
}

/// One printing statement per compiled expression.
pub open spec fn print_lines(cs: Seq<Seq<char>>) -> Seq<char>
    decreases cs.len(),
{
    if cs.len() == 0 {
        Seq::empty()
    } else {
        "    println!(\"{:?}\", "@ + cs[0] + ");\n"@ + print_lines(cs.drop_first())
    }
}


// ---------------------------------------------------------------------------
// The lowerer, executable
// ---------------------------------------------------------------------------

/// The lowerer's working state: a counter for naming fresh temporaries.
pub struct RustCompiler {
    variable_counter: usize,
}

impl RustCompiler {
    /// How many temporaries have been named.
    pub closed spec fn spec_counter(&self) -> int {
        self.variable_counter as int
    }

    /// A fresh lowerer.
    pub fn new() -> (r: RustCompiler)
        ensures
            r.spec_counter() == 0,
    {
        RustCompiler { variable_counter: 0 }
    }

    /// The next temporary variable name; each call yields a new one until
    /// the counter reaches the machine limit.
    pub fn next_temp_var(&mut self) -> (r: String)
        requires
            old(self).spec_counter() < usize::MAX,
        ensures
            r@ == "temp_"@ + dec_digits(old(self).spec_counter()),
            final(self).spec_counter() == old(self).spec_counter() + 1,
    {
        let mut v = "temp_".to_owned();
        let d = usize_to_string(self.variable_counter);
        v.append(d.as_str());
        self.variable_counter = self.variable_counter + 1;
        v
    }
}

fn escape_dquote_exec(s: &String) -> (r: String)
    ensures
        r@ == escape_dquote(s@),
{
    let chars = crate::text::str_to_chars(s.as_str());
    let mut out: Vec<char> = Vec::new();
    let mut i: usize = 0;
    while i < chars.len()
        invariant
            i <= chars.len(),
            chars@ == s@,
            out@ == escape_dquote(s@.take(i as int)),
        decreases chars.len() - i,
    {
        proof {
            assert(s@.take(i as int + 1).drop_last() =~= s@.take(i as int));
            assert(s@.take(i as int + 1).last() == s@[i as int]);
        }
        if chars[i] == '"' {
            out.push('\\');
            out.push('"');
            proof {
                assert(out@ =~= escape_dquote(s@.take(i as int + 1)));
            }
        } else {
            out.push(chars[i]);
            proof {
                assert(out@ =~= escape_dquote(s@.take(i as int + 1)));
            }
        }
        i += 1;
    }
    proof {
        assert(s@.take(s@.len() as int) =~= s@);
    }
    crate::text::chars_to_string(&out)
}

/// The compiled texts joined by a separator.
fn join_exec(parts: &Vec<String>, start: usize, sep: &str) -> (r: String)
    requires
        start <= parts.len(),
    ensures
        r@ == join_texts(crate::ast::names_view(parts@).skip(start as int), sep@),
    decreases parts.len() - start,
{
    let ghost pv = crate::ast::names_view(parts@).skip(start as int);
    if start == parts.len() {
        let r = String::new();
        proof {
            assert(pv.len() == 0);
        }
        r
    } else {
        proof {
            assert(pv[0] == parts@[start as int]@);
            assert(pv.drop_first() =~= crate::ast::names_view(parts@).skip(start as int + 1));
        }
        let mut r = parts[start].clone();
        if start + 1 < parts.len() {
            r.append(sep);
            let rest = join_exec(parts, start + 1, sep);
            r.append(rest.as_str());
            proof {
                assert(r@ =~= join_texts(pv, sep@));
            }
        } else {
            proof {
                assert(pv.len() == 1);
            }
        }
        r
    }
}

fn compile_expr_exec(t: &LispExpr) -> (r: Result<String, String>)
    ensures
        match r {
            Ok(c) => compile_expr_spec(t@) matches Ok(sc) && c@ == sc,
            Err(m) => compile_expr_spec(t@) matches Err(sm) && m@ == sm,
        },
    decreases term_size(t@), 0int,
{
    match t {
        LispExpr::Number(s) => Ok(s.clone()),
        LispExpr::String(s) => {
            let mut r = "\"".to_owned();
            let esc = escape_dquote_exec(s);
            r.append(esc.as_str());
            r.append("\"");
            proof {
                assert(r@ =~= "\""@ + escape_dquote(s@) + "\""@);
            }
            Ok(r)
        },
        LispExpr::Bool(b) => {
            if *b {
                Ok("true".to_owned())
            } else {
                Ok("false".to_owned())
            }
        },
        LispExpr::Nil => Ok("()".to_owned()),
        LispExpr::Symbol(s) => {
            if *s == "pi".to_owned() {
                Ok("std::f64::consts::PI".to_owned())
            } else if *s == "e".to_owned() {
                Ok("std::f64::consts::E".to_owned())
            } else {
                let mut m = "Unknown symbol: ".to_owned();
                m.append(s.as_str());
                Err(m)
            }
        },
        LispExpr::List(es) => {
            proof {
                assert(terms_view(es@).skip(0) =~= terms_view(es@));
            }
            compile_list_exec(es)
        },
        LispExpr::Macro { name, .. } => {
            let mut m = "Macro definitions are not yet supported in code generation: ".to_owned();
            m.append(name.as_str());
            Err(m)
        },
        LispExpr::MacroCall { name, .. } => {
            let mut m = "Macro calls are not yet supported in code generation: ".to_owned();
            m.append(name.as_str());
            Err(m)
        },
        LispExpr::Quote(_) => Err(
            "Quote expressions are not yet supported in code generation".to_owned(),
        ),
        LispExpr::Quasiquote(_) => Err(
            "Quasiquote expressions are not yet supported in code generation".to_owned(),
        ),
        LispExpr::Unquote(_) => Err(
            "Unquote expressions are not yet supported in code generation".to_owned(),
        ),
        LispExpr::Splice(_) => Err(
            "Splice expressions are not yet supported in code generation".to_owned(),
        ),
        LispExpr::Gensym(n) => {
            let mut r = "generated_symbol_".to_owned();
            r.append(n.as_str());
            Ok(r)
        },
    }
}

/// Compile the terms from `start` on.
fn compile_args_exec(es: &Vec<LispExpr>, start: usize) -> (r: Result<Vec<String>, String>)
    requires
        start <= es.len(),
    ensures
        match r {
            Ok(cs) => compile_args_spec(terms_view(es@).skip(start as int)) matches Ok(sv)
                && crate::ast::names_view(cs@) == sv,
            Err(m) => compile_args_spec(terms_view(es@).skip(start as int)) matches Err(sm) && m@
                == sm,
        },
    decreases seq_size(terms_view(es@).skip(start as int)), 2int,
{
    let ghost tv = terms_view(es@).skip(start as int);
    if start == es.len() {
        let r: Vec<String> = Vec::new();
        proof {
            assert(tv.len() == 0);
            assert(crate::ast::names_view(r@) =~= Seq::<Seq<char>>::empty());
        }
        Ok(r)
    } else {
        proof {
            lemma_seq_size_first(tv);
            assert(tv[0] == es@[start as int]@);
            assert(tv.drop_first() =~= terms_view(es@).skip(start as int + 1));
        }
        match compile_expr_exec(&es[start]) {
            Err(m) => Err(m),
            Ok(c) => {
                match compile_args_exec(es, start + 1) {
                    Err(m) => Err(m),
                    Ok(mut cs) => {
                        cs.insert(0, c);
                        proof {
                            assert(crate::ast::names_view(cs@) =~= seq![cs@[0]@]
                                + crate::ast::names_view(cs@.drop_first()));
                        }
                        Ok(cs)
                    },
                }
            },
        }
    }
}

fn compile_bindings_exec(bs: &Vec<LispExpr>, start: usize) -> (r: Result<String, String>)
    requires
        start <= bs.len(),
    ensures
        match r {
            Ok(c) => compile_bindings_spec(terms_view(bs@).skip(start as int)) matches Ok(sc)
                && c@ == sc,
            Err(m) => compile_bindings_spec(terms_view(bs@).skip(start as int)) matches Err(sm)
                && m@ == sm,
        },
    decreases seq_size(terms_view(bs@).skip(start as int)), 2int,
{
    let ghost tv = terms_view(bs@).skip(start as int);
    if start == bs.len() {
        let r = String::new();
        proof {
            assert(tv.len() == 0);
        }
        return Ok(r);
    }
    proof {
        lemma_seq_size_first(tv);
        assert(tv[0] == bs@[start as int]@);
        assert(tv.drop_first() =~= terms_view(bs@).skip(start as int + 1));
    }
    match &bs[start] {
        LispExpr::List(pair) => {
            proof {
                assert(tv[0] == TermV::List(terms_view(pair@)));
            }
            if pair.len() == 2 {
                proof {
                    assert(terms_view(pair@)[0] == pair@[0]@);
                    assert(terms_view(pair@)[1] == pair@[1]@);
                    lemma_seq_size_first(terms_view(pair@));
                    lemma_seq_size_first(terms_view(pair@).drop_first());
                    assert(terms_view(pair@).drop_first()[0] == terms_view(pair@)[1]);
                }
                match &pair[0] {
                    LispExpr::Symbol(v) => {
                        match compile_expr_exec(&pair[1]) {
                            Err(m) => Err(m),
                            Ok(val) => {
                                match compile_bindings_exec(bs, start + 1) {
                                    Err(m) => Err(m),
                                    Ok(rest) => {
                                        let mut c = " let ".to_owned();
                                        c.append(v.as_str());
                                        c.append(" = ");
                                        c.append(val.as_str());
                                        c.append(";");
                                        c.append(rest.as_str());
                                        proof {
                                            assert(c@ =~= compile_bindings_spec(tv)->Ok_0);
                                        }
                                        Ok(c)
                                    },
                                }
                            },
                        }
                    },
                    _ => Err("Variable name must be a symbol".to_owned()),
                }
            } else {
                Err("Each binding must be a list of [variable, value]".to_owned())
            }
        },
        _ => Err("Each binding must be a list of [variable, value]".to_owned()),
    }
}

fn compile_list_exec(es: &Vec<LispExpr>) -> (r: Result<String, String>)
    ensures
        match r {
            Ok(c) => compile_list_spec(terms_view(es@)) matches Ok(sc) && c@ == sc,
            Err(m) => compile_list_spec(terms_view(es@)) matches Err(sm) && m@ == sm,
        },
    decreases seq_size(terms_view(es@)), 1int,
{
    let ghost tv = terms_view(es@);
    if es.len() == 0 {
        return Ok("vec![]".to_owned());
    }
    proof {
        assert(tv[0] == es@[0]@);
        lemma_seq_size_first(tv);
        assert(tv.drop_first() =~= tv.skip(1));
    }
    match &es[0] {
        LispExpr::Symbol(h) => {
            if *h == "+".to_owned() || *h == "-".to_owned() || *h == "*".to_owned() || *h
                == "/".to_owned() {
                compile_arith_exec(h, es)
            } else if *h == "=".to_owned() {
                compile_cmp_exec("==", es)
            } else if *h == "<".to_owned() {
                compile_cmp_exec("<", es)
            } else if *h == ">".to_owned() {
                compile_cmp_exec(">", es)
            } else if *h == "<=".to_owned() {
                compile_cmp_exec("<=", es)
            } else if *h == ">=".to_owned() {
                compile_cmp_exec(">=", es)
            } else if *h == "if".to_owned() {
                compile_if_exec(es)
            } else if *h == "let".to_owned() {
                compile_let_exec(es)
            } else if *h == "list".to_owned() {
                match compile_args_exec(es, 1) {
                    Err(m) => Err(m),
                    Ok(cs) => {
                        let mut c = "vec![".to_owned();
                        let j = join_exec(&cs, 0, ", ");
                        c.append(j.as_str());
                        c.append("]");
                        proof {
                            assert(crate::ast::names_view(cs@).skip(0) =~= crate::ast::names_view(
                                cs@,
                            ));
                            assert(c@ =~= compile_list_spec(tv)->Ok_0);
                        }
                        Ok(c)
                    },
                }
            } else {
                let mut m = "Unknown function: ".to_owned();
                m.append(h.as_str());
                Err(m)
            }
        },
        _ => Err("First element of list must be a symbol".to_owned()),
    }
}

fn compile_arith_exec(op: &String, es: &Vec<LispExpr>) -> (r: Result<String, String>)
    requires
        es.len() >= 1,
    ensures
        match r {
            Ok(c) => compile_arith_spec(op@, terms_view(es@).skip(1)) matches Ok(sc) && c@ == sc,
            Err(m) => compile_arith_spec(op@, terms_view(es@).skip(1)) matches Err(sm) && m@
                == sm,
        },
    decreases seq_size(terms_view(es@).skip(1)), 3int,
{
    let ghost args = terms_view(es@).skip(1);
    if es.len() == 1 {
        proof {
            assert(args.len() == 0);
        }
        let mut m = "Arithmetic operation '".to_owned();
        m.append(op.as_str());
        m.append("' requires at least one argument");
        return Err(m);
    }
    match compile_args_exec(es, 1) {
        Err(m) => Err(m),
        Ok(cs) => {
            proof {
                lemma_compile_args_len(args);
                assert(crate::ast::names_view(cs@).len() == args.len());
            }
            if cs.len() == 1 {
                if *op == "-".to_owned() {
                    let mut c = "-(".to_owned();
                    c.append(cs[0].as_str());
                    c.append(")");
                    proof {
                        assert(crate::ast::names_view(cs@)[0] == cs@[0]@);
                        assert(c@ =~= compile_arith_spec(op@, args)->Ok_0);
                    }
                    Ok(c)
                } else {
                    proof {
                        assert(crate::ast::names_view(cs@)[0] == cs@[0]@);
                    }
                    Ok(cs[0].clone())
                }
            } else {
                let mut sep = " ".to_owned();
                sep.append(op.as_str());
                sep.append(" ");
                let mut c = "(".to_owned();
                let j = join_exec(&cs, 0, sep.as_str());
                c.append(j.as_str());
                c.append(")");
                proof {
                    assert(crate::ast::names_view(cs@).skip(0) =~= crate::ast::names_view(cs@));
                    assert(sep@ =~= " "@ + op@ + " "@);
                    assert(c@ =~= compile_arith_spec(op@, args)->Ok_0);
                }
                Ok(c)
            }
        },
    }
}

fn compile_cmp_exec(op: &str, es: &Vec<LispExpr>) -> (r: Result<String, String>)
    requires
        es.len() >= 1,
    ensures
        match r {
            Ok(c) => compile_cmp_spec(op@, terms_view(es@).skip(1)) matches Ok(sc) && c@ == sc,
            Err(m) => compile_cmp_spec(op@, terms_view(es@).skip(1)) matches Err(sm) && m@ == sm,
        },
    decreases seq_size(terms_view(es@).skip(1)), 3int,
{
    let ghost args = terms_view(es@).skip(1);
    if es.len() != 3 {
        let mut m = "Comparison operation '".to_owned();
        m.append(op);
        m.append("' requires exactly 2 arguments");
        return Err(m);
    }
    match compile_args_exec(es, 1) {
        Err(m) => Err(m),
        Ok(cs) => {
            proof {
                lemma_compile_args_len(args);
                assert(crate::ast::names_view(cs@).len() == args.len());
                assert(crate::ast::names_view(cs@)[0] == cs@[0]@);
                assert(crate::ast::names_view(cs@)[1] == cs@[1]@);
            }
            let mut c = "(".to_owned();
            c.append(cs[0].as_str());
            c.append(" ");
            c.append(op);
            c.append(" ");
            c.append(cs[1].as_str());
            c.append(")");
            proof {
                assert(c@ =~= compile_cmp_spec(op@, args)->Ok_0);
            }
            Ok(c)
        },
    }
}

fn compile_if_exec(es: &Vec<LispExpr>) -> (r: Result<String, String>)
    requires
        es.len() >= 1,
    ensures
        match r {
            Ok(c) => compile_if_spec(terms_view(es@).skip(1)) matches Ok(sc) && c@ == sc,
            Err(m) => compile_if_spec(terms_view(es@).skip(1)) matches Err(sm) && m@ == sm,
        },
    decreases seq_size(terms_view(es@).skip(1)), 3int,
{
    let ghost args = terms_view(es@).skip(1);
    if es.len() != 4 {
        return Err("'if' requires exactly 3 arguments: condition, then-expr, else-expr".to_owned());
    }
    match compile_args_exec(es, 1) {
        Err(m) => Err(m),
        Ok(cs) => {
            proof {
                lemma_compile_args_len(args);
                assert(crate::ast::names_view(cs@).len() == args.len());
                assert(crate::ast::names_view(cs@)[0] == cs@[0]@);
                assert(crate::ast::names_view(cs@)[1] == cs@[1]@);
                assert(crate::ast::names_view(cs@)[2] == cs@[2]@);
            }
            let mut c = "if ".to_owned();
            c.append(cs[0].as_str());
            c.append(" { ");
            c.append(cs[1].as_str());
            c.append(" } else { ");
            c.append(cs[2].as_str());
            c.append(" }");
            proof {
                assert(c@ =~= compile_if_spec(args)->Ok_0);
            }
            Ok(c)
        },
    }
}

fn compile_let_exec(es: &Vec<LispExpr>) -> (r: Result<String, String>)
    requires
        es.len() >= 1,
    ensures
        match r {
            Ok(c) => compile_let_spec(terms_view(es@).skip(1)) matches Ok(sc) && c@ == sc,
            Err(m) => compile_let_spec(terms_view(es@).skip(1)) matches Err(sm) && m@ == sm,
        },
    decreases seq_size(terms_view(es@).skip(1)), 3int,
{
    let ghost args = terms_view(es@).skip(1);
    if es.len() != 3 {
        return Err("'let' requires exactly 2 arguments: bindings and body".to_owned());
    }
    proof {
        assert(args[0] == es@[1]@);
        assert(args[1] == es@[2]@);
        lemma_seq_size_first(args);
        lemma_seq_size_first(args.drop_first());
        assert(args.drop_first()[0] == args[1]);
    }
    match &es[1] {
        LispExpr::List(bs) => {
            proof {
                assert(args[0] == TermV::List(terms_view(bs@)));
                assert(terms_view(bs@).skip(0) =~= terms_view(bs@));
                assert(term_size(args[0]) == 1 + seq_size(terms_view(bs@)));
            }
            match compile_bindings_exec(bs, 0) {
                Err(m) => Err(m),
                Ok(binds) => {
                    match compile_expr_exec(&es[2]) {
                        Err(m) => Err(m),
                        Ok(body) => {
                            let mut c = "{".to_owned();
                            c.append(binds.as_str());
                            c.append(" ");
                            c.append(body.as_str());
                            c.append(" }");
                            proof {
                                assert(c@ =~= compile_let_spec(args)->Ok_0);
                            }
                            Ok(c)
                        },
                    }
                },
            }
        },
        _ => Err("First argument to 'let' must be a list of bindings".to_owned()),
    }
}

/// Lower a fully expanded program to host-language text: a main function
/// that prints each compiled expression. Fails with the first term the
/// lowerer cannot take, and says why.
pub fn compile_to_rust(expressions: &Vec<LispExpr>) -> (r: Result<String, String>)
    ensures
        match r {
            Ok(c) => compile_program_spec(terms_view(expressions@)) matches Ok(sc) && c@ == sc,
            Err(m) => compile_program_spec(terms_view(expressions@)) matches Err(sm) && m@ == sm,
        },
{
    proof {
        assert(terms_view(expressions@).skip(0) =~= terms_view(expressions@));
    }
    match compile_args_exec(expressions, 0) {
        Err(m) => Err(m),
        Ok(cs) => {
            let mut out = "fn main() {
".to_owned();
            let ghost pre = out@;
            let mut i: usize = 0;
            while i < cs.len()
                invariant
                    i <= cs.len(),
                    out@ == pre + print_prefix(crate::ast::names_view(cs@), i as int),
                decreases cs.len() - i,
            {
                proof {
                    assert(crate::ast::names_view(cs@)[i as int] == cs@[i as int]@);
                }
                out.append("    println!(\"{:?}\", ");
                out.append(cs[i].as_str());
                out.append(");\n");
                proof {
                    lemma_print_prefix_step(crate::ast::names_view(cs@), i as int);
                    assert(out@ =~= pre + print_prefix(crate::ast::names_view(cs@), i as int + 1));
                }
                i += 1;
            }
            out.append("}
");
            proof {
                lemma_print_prefix_all(crate::ast::names_view(cs@));
                assert(out@ =~= compile_program_spec(terms_view(expressions@))->Ok_0);
            }
            Ok(out)
        },
    }
}

/// The first `i` printing statements.
pub open spec fn print_prefix(cs: Seq<Seq<char>>, i: int) -> Seq<char>
    decreases i,
{
    if i <= 0 {
        Seq::empty()
    } else {
        print_prefix(cs, i - 1) + "    println!(\"{:?}\", "@ + cs[i - 1] + ");\n"@
    }
}

proof fn lemma_print_prefix_step(cs: Seq<Seq<char>>, i: int)
    requires
        0 <= i,
    ensures
        print_prefix(cs, i + 1) == print_prefix(cs, i) + "    println!(\"{:?}\", "@ + cs[i]
            + ");\n"@,
{
}

proof fn lemma_print_prefix_all(cs: Seq<Seq<char>>)
    ensures
        print_prefix(cs, cs.len() as int) =~= print_lines(cs),
    decreases cs.len(),
{
    if cs.len() > 0 {
        lemma_print_prefix_all(cs.drop_first());
        assert(print_lines(cs) == "    println!(\"{:?}\", "@ + cs[0] + ");\n"@ + print_lines(
            cs.drop_first(),
        ));
        lemma_print_prefix_shift(cs, cs.len() as int - 1);
        assert(print_prefix(cs, cs.len() as int) =~= print_lines(cs));
    }
}

proof fn lemma_print_prefix_shift(cs: Seq<Seq<char>>, i: int)
    requires
        0 <= i <= cs.len() - 1,
        cs.len() > 0,
    ensures
        print_prefix(cs, i + 1) =~= "    println!(\"{:?}\", "@ + cs[0] + ");\n"@ + print_prefix(
            cs.drop_first(),
            i,
        ),
    decreases i,
{
    let pre = "    println!(\"{:?}\", "@;
    let suf = ");\n"@;
    if i == 0 {
        assert(print_prefix(cs, 1) == print_prefix(cs, 0) + pre + cs[0] + suf);
        assert(print_prefix(cs.drop_first(), 0) == Seq::<char>::empty());
        assert(print_prefix(cs, 1) =~= pre + cs[0] + suf + print_prefix(cs.drop_first(), 0));
    } else {
        lemma_print_prefix_shift(cs, i - 1);
        assert(cs.drop_first()[i - 1] == cs[i]);
        assert(print_prefix(cs, i + 1) == print_prefix(cs, i) + pre + cs[i] + suf);
        assert(print_prefix(cs.drop_first(), i) == print_prefix(cs.drop_first(), i - 1) + pre
            + cs.drop_first()[i - 1] + suf);
        assert(print_prefix(cs, i + 1) =~= pre + cs[0] + suf + print_prefix(cs.drop_first(), i));
    }
}

} // verus!
