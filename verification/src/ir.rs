use vstd::prelude::*;
use crate::ast::{LispExpr, TermV, is_number_text, names_view, terms_view};
use crate::text::{chars_to_string, str_to_chars};

verus! {

// ---------------------------------------------------------------------------
// The stable IR format: one tagged object per variant
// ---------------------------------------------------------------------------

pub open spec fn hex_digit(v: int) -> char {
    if v == 0 { '0' }
    else if v == 1 { '1' }
    else if v == 2 { '2' }
    else if v == 3 { '3' }
    else if v == 4 { '4' }
    else if v == 5 { '5' }
    else if v == 6 { '6' }
    else if v == 7 { '7' }
    else if v == 8 { '8' }
    else if v == 9 { '9' }
    else if v == 10 { 'a' }
    else if v == 11 { 'b' }
    else if v == 12 { 'c' }
    else if v == 13 { 'd' }
    else if v == 14 { 'e' }
    else { 'f' }
}

/// How one character stands in IR string text: quotes, backslashes and the
/// common control characters get short escapes, other control characters a
/// hexadecimal escape, everything else stands as itself.
pub open spec fn esc_char(c: char) -> Seq<char> {
    if c == '"' {
        "\\\""@
    } else if c == '\\' {
        "\\\\"@
    } else if c == '\n' {
        "\\n"@
    } else if c == '\t' {
        "\\t"@
    } else if c == '\r' {
        "\\r"@
    } else if (c as u32) < 32 {
        "\\u00"@ + seq![
            hex_digit(((c as u32) / 16) as int),
            hex_digit(((c as u32) % 16) as int),
        ]
    } else {
        seq![c]
    }
}

pub open spec fn escape_ir(s: Seq<char>) -> Seq<char>
    decreases s.len(),
{
    if s.len() == 0 {
        Seq::empty()
    } else {
        escape_ir(s.drop_last()) + esc_char(s.last())
    }
}

/// A name or string in the IR: quoted and escaped.
pub open spec fn jstr(s: Seq<char>) -> Seq<char> {
    "\""@ + escape_ir(s) + "\""@
}

/// The IR text of one term.
pub open spec fn ser_spec(t: TermV) -> Seq<char>
    decreases crate::macro_expander::term_size(t), 0int,
{
    match t {
        TermV::Number(s) => "{\"Number\":"@ + s + "}"@,
        TermV::Symbol(s) => "{\"Symbol\":"@ + jstr(s) + "}"@,
        TermV::String(s) => "{\"String\":"@ + jstr(s) + "}"@,
        TermV::Bool(b) => if b {
            "{\"Bool\":true}"@
        } else {
            "{\"Bool\":false}"@
        },
        TermV::Nil => "\"Nil\""@,
        TermV::List(es) => "{\"List\":["@ + ser_items(es) + "]}"@,
        TermV::Macro { name, parameters, body } => "{\"Macro\":{\"name\":"@ + jstr(name)
            + ",\"parameters\":["@ + ser_names(parameters) + "],\"body\":"@ + ser_spec(*body)
            + "}}"@,
        TermV::MacroCall { name, args } => "{\"MacroCall\":{\"name\":"@ + jstr(name)
            + ",\"args\":["@ + ser_items(args) + "]}}"@,
        TermV::Quote(e) => "{\"Quote\":"@ + ser_spec(*e) + "}"@,
        TermV::Quasiquote(e) => "{\"Quasiquote\":"@ + ser_spec(*e) + "}"@,
        TermV::Unquote(e) => "{\"Unquote\":"@ + ser_spec(*e) + "}"@,
        TermV::Splice(e) => "{\"Splice\":"@ + ser_spec(*e) + "}"@,
        TermV::Gensym(s) => "{\"Gensym\":"@ + jstr(s) + "}"@,
    }
}

/// The IR texts of the terms, joined by commas.
pub open spec fn ser_items(es: Seq<TermV>) -> Seq<char>
    decreases crate::macro_expander::seq_size(es), 1int,
    via ser_items_dec
{
    if es.len() == 0 {
        Seq::empty()
    } else if es.len() == 1 {
        ser_spec(es[0])
    } else {
        ser_spec(es[0]) + ","@ + ser_items(es.drop_first())
    }
}

#[via_fn]
proof fn ser_items_dec(es: Seq<TermV>) {
    if es.len() > 0 {
        crate::macro_expander::lemma_seq_size_first(es);
    }
}

/// The IR texts of the names, joined by commas.
pub open spec fn ser_names(ps: Seq<Seq<char>>) -> Seq<char>
    decreases ps.len(),
{
    if ps.len() == 0 {
        Seq::empty()
    } else if ps.len() == 1 {
        jstr(ps[0])
    } else {
        jstr(ps[0]) + ","@ + ser_names(ps.drop_first())
    }
}

/// The IR text of a whole program: its terms in one array.
pub open spec fn ser_program_spec(es: Seq<TermV>) -> Seq<char> {
    "["@ + ser_items(es) + "]"@
}

// ---------------------------------------------------------------------------
// The serializer
// ---------------------------------------------------------------------------

fn hex_digit_exec(v: u32) -> (c: char)
    requires
        v < 16,
    ensures
        c == hex_digit(v as int),
{
    match v {
        0 => '0',
        1 => '1',
        2 => '2',
        3 => '3',
        4 => '4',
        5 => '5',
        6 => '6',
        7 => '7',
        8 => '8',
        9 => '9',
        10 => 'a',
        11 => 'b',
        12 => 'c',
        13 => 'd',
        14 => 'e',
        _ => 'f',
    }
}

fn escape_ir_exec(s: &String) -> (r: String)
    ensures
        r@ == escape_ir(s@),
{
    let chars = str_to_chars(s.as_str());
    let mut out: Vec<char> = Vec::new();
    let mut i: usize = 0;
    while i < chars.len()
        invariant
            i <= chars.len(),
            chars@ == s@,
            out@ == escape_ir(s@.take(i as int)),
        decreases chars.len() - i,
    {
        proof {
            assert(s@.take(i as int + 1).drop_last() =~= s@.take(i as int));
            assert(s@.take(i as int + 1).last() == s@[i as int]);
            reveal_strlit("\\\"");
            reveal_strlit("\\\\");
            reveal_strlit("\\n");
            reveal_strlit("\\t");
            reveal_strlit("\\r");
            reveal_strlit("\\u00");
        }
        let c = chars[i];
        let u = c as u32;
        if c == '"' {
            out.push('\\');
            out.push('"');
        } else if c == '\\' {
            out.push('\\');
            out.push('\\');
        } else if c == '\n' {
            out.push('\\');
            out.push('n');
        } else if c == '\t' {
            out.push('\\');
            out.push('t');
        } else if c == '\r' {
            out.push('\\');
            out.push('r');
        } else {
            if u < 32 {
                out.push('\\');
                out.push('u');
                out.push('0');
                out.push('0');
                out.push(hex_digit_exec(u / 16));
                out.push(hex_digit_exec(u % 16));
            } else {
                out.push(c);
            }
        }
        proof {
            assert(out@ =~= escape_ir(s@.take(i as int + 1)));
        }
        i += 1;
    }
    proof {
        assert(s@.take(s@.len() as int) =~= s@);
    }
    chars_to_string(&out)
}

fn append_jstr(out: &mut String, s: &String)
    ensures
        final(out)@ == old(out)@ + jstr(s@),
{
    out.append("\"");
    let esc = escape_ir_exec(s);
    out.append(esc.as_str());
    out.append("\"");
    proof {
        assert(out@ =~= old(out)@ + jstr(s@));
    }
}

fn append_ser(out: &mut String, t: &LispExpr)
    ensures
        final(out)@ == old(out)@ + ser_spec(t@),
    decreases crate::macro_expander::term_size(t@), 0int,
{
    match t {
        LispExpr::Number(s) => {
            out.append("{\"Number\":");
            out.append(s.as_str());
            out.append("}");
            proof {
                assert(out@ =~= old(out)@ + ser_spec(t@));
            }
        },
        LispExpr::Symbol(s) => {
            out.append("{\"Symbol\":");
            append_jstr(out, s);
            out.append("}");
            proof {
                assert(out@ =~= old(out)@ + ser_spec(t@));
            }
        },
        LispExpr::String(s) => {
            out.append("{\"String\":");
            append_jstr(out, s);
            out.append("}");
            proof {
                assert(out@ =~= old(out)@ + ser_spec(t@));
            }
        },
        LispExpr::Bool(b) => {
            if *b {
                out.append("{\"Bool\":true}");
            } else {
                out.append("{\"Bool\":false}");
            }
        },
        LispExpr::Nil => {
            out.append("\"Nil\"");
        },
        LispExpr::List(es) => {
            out.append("{\"List\":[");
            proof {
                assert(terms_view(es@).skip(0) =~= terms_view(es@));
            }
            append_ser_items(out, es, 0);
            out.append("]}");
            proof {
                assert(out@ =~= old(out)@ + ser_spec(t@));
            }
        },
        LispExpr::Macro { name, parameters, body } => {
            out.append("{\"Macro\":{\"name\":");
            append_jstr(out, name);
            out.append(",\"parameters\":[");
            proof {
                assert(names_view(parameters@).skip(0) =~= names_view(parameters@));
            }
            append_ser_names(out, parameters, 0);
            out.append("],\"body\":");
            append_ser(out, body);
            out.append("}}");
            proof {
                assert(out@ =~= old(out)@ + ser_spec(t@));
            }
        },
        LispExpr::MacroCall { name, args } => {
            out.append("{\"MacroCall\":{\"name\":");
            append_jstr(out, name);
            out.append(",\"args\":[");
            proof {
                assert(terms_view(args@).skip(0) =~= terms_view(args@));
            }
            append_ser_items(out, args, 0);
            out.append("]}}");
            proof {
                assert(out@ =~= old(out)@ + ser_spec(t@));
            }
        },
        LispExpr::Quote(e) => {
            out.append("{\"Quote\":");
            append_ser(out, e);
            out.append("}");
            proof {
                assert(out@ =~= old(out)@ + ser_spec(t@));
            }
        },
        LispExpr::Quasiquote(e) => {
            out.append("{\"Quasiquote\":");
            append_ser(out, e);
            out.append("}");
            proof {
                assert(out@ =~= old(out)@ + ser_spec(t@));
            }
        },
        LispExpr::Unquote(e) => {
            out.append("{\"Unquote\":");
            append_ser(out, e);
            out.append("}");
            proof {
                assert(out@ =~= old(out)@ + ser_spec(t@));
            }
        },
        LispExpr::Splice(e) => {
            out.append("{\"Splice\":");
            append_ser(out, e);
            out.append("}");
            proof {
                assert(out@ =~= old(out)@ + ser_spec(t@));
            }
        },
        LispExpr::Gensym(s) => {
            out.append("{\"Gensym\":");
            append_jstr(out, s);
            out.append("}");
            proof {
                assert(out@ =~= old(out)@ + ser_spec(t@));
            }
        },
    }
}

fn append_ser_items(out: &mut String, es: &Vec<LispExpr>, start: usize)
    requires
        start <= es.len(),
    ensures
        final(out)@ == old(out)@ + ser_items(terms_view(es@).skip(start as int)),
    decreases crate::macro_expander::seq_size(terms_view(es@).skip(start as int)), 1int,
{
    let ghost tv = terms_view(es@).skip(start as int);
    if start == es.len() {
        proof {
            assert(tv.len() == 0);
            assert(out@ =~= old(out)@ + ser_items(tv));
        }
    } else {
        proof {
            crate::macro_expander::lemma_seq_size_first(tv);
            assert(tv[0] == es@[start as int]@);
            assert(tv.drop_first() =~= terms_view(es@).skip(start as int + 1));
        }
        append_ser(out, &es[start]);
        if start + 1 < es.len() {
            out.append(",");
            append_ser_items(out, es, start + 1);
            proof {
                assert(out@ =~= old(out)@ + ser_items(tv));
            }
        } else {
            proof {
                assert(tv.len() == 1);
                assert(out@ =~= old(out)@ + ser_items(tv));
            }
        }
    }
}

fn append_ser_names(out: &mut String, ps: &Vec<String>, start: usize)
    requires
        start <= ps.len(),
    ensures
        final(out)@ == old(out)@ + ser_names(names_view(ps@).skip(start as int)),
    decreases ps.len() - start,
{
    let ghost pv = names_view(ps@).skip(start as int);
    if start == ps.len() {
        proof {
            assert(pv.len() == 0);
            assert(out@ =~= old(out)@ + ser_names(pv));
        }
    } else {
        proof {
            assert(pv[0] == ps@[start as int]@);
            assert(pv.drop_first() =~= names_view(ps@).skip(start as int + 1));
        }
        append_jstr(out, &ps[start]);
        if start + 1 < ps.len() {
            out.append(",");
            append_ser_names(out, ps, start + 1);
            proof {
                assert(out@ =~= old(out)@ + ser_names(pv));
            }
        } else {
            proof {
                assert(pv.len() == 1);
                assert(out@ =~= old(out)@ + ser_names(pv));
            }
        }
    }
}

/// The IR text of one term.
pub fn serialize_expr(t: &LispExpr) -> (r: String)
    ensures
        r@ == ser_spec(t@),
{
    let mut out = String::new();
    append_ser(&mut out, t);
    out
}

/// The IR text of a whole program: its terms in one array.
pub fn serialize_program(es: &Vec<LispExpr>) -> (r: String)
    ensures
        r@ == ser_program_spec(terms_view(es@)),
{
    let mut out = "[".to_owned();
    proof {
        assert(terms_view(es@).skip(0) =~= terms_view(es@));
    }
    append_ser_items(&mut out, es, 0);
    out.append("]");
    proof {
        assert(out@ =~= ser_program_spec(terms_view(es@)));
    }
    out
}



// ---------------------------------------------------------------------------
// The deserializer
// ---------------------------------------------------------------------------

/// Characters left from position `i` on.
pub open spec fn left(s: Seq<char>, i: int) -> int {
    if 0 <= i <= s.len() {
        s.len() - i
    } else {
        0
    }
}

/// The next position after a sub-parse; a successful sub-parse always makes
/// progress, so the fallback keeps the recursion well founded and nothing
/// more.
pub open spec fn adv(i: int, j: int) -> int {
    if j > i {
        j
    } else {
        i + 1
    }
}

/// Whether the literal stands at position `i`.
pub open spec fn match_at(s: Seq<char>, i: int, lit: Seq<char>) -> bool {
    0 <= i && i + lit.len() <= s.len() && s.subrange(i, i + lit.len()) == lit
}

pub open spec fn hex_val(c: char) -> Option<int> {
    if '0' <= c && c <= '9' {
        Some(((c as u32) as int) - 48)
    } else if 'a' <= c && c <= 'f' {
        Some(((c as u32) as int) - 87)
    } else {
        None
    }
}

/// The characters of an IR string body from `k` on, up to the closing
/// quote, unescaped; only the escapes the serializer emits are accepted.
pub open spec fn parse_jchars(s: Seq<char>, k: int) -> Option<(Seq<char>, int)>
    decreases left(s, k), 0int,
{
    if !(0 <= k < s.len()) {
        None
    } else if s[k] == '"' {
        Some((Seq::empty(), k + 1))
    } else if s[k] == '\\' {
        if k + 1 >= s.len() {
            None
        } else {
            let e = s[k + 1];
            if e == 'n' || e == 't' || e == 'r' || e == '\\' || e == '"' {
                let c = if e == 'n' { '\n' } else if e == 't' { '\t' }
                    else if e == 'r' { '\r' } else { e };
                match parse_jchars(s, k + 2) {
                    Some((rest, end)) => Some((seq![c] + rest, end)),
                    None => None,
                }
            } else if e == 'u' {
                if k + 5 < s.len() && s[k + 2] == '0' && s[k + 3] == '0' {
                    match (hex_val(s[k + 4]), hex_val(s[k + 5])) {
                        (Some(h1), Some(h2)) => {
                            let v = h1 * 16 + h2;
                            if v < 32 && v != 9 && v != 10 && v != 13 {
                                let c = ((v as u8) as char);
                                match parse_jchars(s, k + 6) {
                                    Some((rest, end)) => Some((seq![c] + rest, end)),
                                    None => None,
                                }
                            } else {
                                None
                            }
                        },
                        _ => None,
                    }
                } else {
                    None
                }
            } else {
                None
            }
        }
    } else if (s[k] as u32) >= 32 {
        match parse_jchars(s, k + 1) {
            Some((rest, end)) => Some((seq![s[k]] + rest, end)),
            None => None,
        }
    } else {
        None
    }
}

/// An IR string at position `i`: a quote, its body, a quote.
pub open spec fn parse_jstring(s: Seq<char>, i: int) -> Option<(Seq<char>, int)>
    decreases left(s, i), 1int,
{
    if 0 <= i < s.len() && s[i] == '"' {
        parse_jchars(s, i + 1)
    } else {
        None
    }
}

/// Position of the first closing brace at or after `k`.
pub open spec fn find_rbrace(s: Seq<char>, k: int) -> int
    decreases left(s, k),
{
    if 0 <= k < s.len() && s[k] != '}' {
        find_rbrace(s, k + 1)
    } else {
        k
    }
}

/// One term of IR text at position `i`, and the position after it. Only
/// the exact text the serializer emits is accepted.
pub open spec fn parse_ir(s: Seq<char>, i: int) -> Option<(TermV, int)>
    decreases left(s, i), 5int,
{
    if !(0 <= i < s.len()) {
        None
    } else if s[i] == '"' {
        if match_at(s, i, "\"Nil\""@) {
            Some((TermV::Nil, i + "\"Nil\""@.len()))
        } else {
            None
        }
    } else if s[i] == '{' {
        match parse_jstring(s, i + 1) {
            None => None,
            Some((tag, j0)) => {
                let j = adv(i, j0);
                if tag == "Number"@ {
                    if j < s.len() && s[j] == ':' {
                        let e = find_rbrace(s, j + 1);
                        let txt = s.subrange(j + 1, e);
                        if e < s.len() && is_number_text(txt) {
                            Some((TermV::Number(txt), e + 1))
                        } else {
                            None
                        }
                    } else {
                        None
                    }
                } else if tag == "Symbol"@ || tag == "String"@ || tag == "Gensym"@ {
                    if j < s.len() && s[j] == ':' {
                        match parse_jstring(s, adv(i, j + 1)) {
                            None => None,
                            Some((txt, k0)) => {
                                let k = adv(i, k0);
                                if k < s.len() && s[k] == '}' {
                                    let t = if tag == "Symbol"@ {
                                        TermV::Symbol(txt)
                                    } else if tag == "String"@ {
                                        TermV::String(txt)
                                    } else {
                                        TermV::Gensym(txt)
                                    };
                                    Some((t, k + 1))
                                } else {
                                    None
                                }
                            },
                        }
                    } else {
                        None
                    }
                } else if tag == "Bool"@ {
                    if match_at(s, j, ":true}"@) {
                        Some((TermV::Bool(true), j + ":true}"@.len()))
                    } else if match_at(s, j, ":false}"@) {
                        Some((TermV::Bool(false), j + ":false}"@.len()))
                    } else {
                        None
                    }
                } else if tag == "List"@ {
                    if j + 1 < s.len() && s[j] == ':' && s[j + 1] == '[' {
                        if j + 3 < s.len() && s[j + 2] == ']' && s[j + 3] == '}' {
                            Some((TermV::List(Seq::empty()), j + 4))
                        } else {
                            match parse_items(s, adv(i, j + 2)) {
                                None => None,
                                Some((es, k0)) => {
                                    let k = adv(i, k0);
                                    if k < s.len() && s[k] == '}' {
                                        Some((TermV::List(es), k + 1))
                                    } else {
                                        None
                                    }
                                },
                            }
                        }
                    } else {
                        None
                    }
                } else if tag == "Quote"@ || tag == "Quasiquote"@ || tag == "Unquote"@ || tag
                    == "Splice"@ {
                    if j < s.len() && s[j] == ':' {
                        match parse_ir(s, adv(i, j + 1)) {
                            None => None,
                            Some((e, k0)) => {
                                let k = adv(i, k0);
                                if k < s.len() && s[k] == '}' {
                                    let t = if tag == "Quote"@ {
                                        TermV::Quote(Box::new(e))
                                    } else if tag == "Quasiquote"@ {
                                        TermV::Quasiquote(Box::new(e))
                                    } else if tag == "Unquote"@ {
                                        TermV::Unquote(Box::new(e))
                                    } else {
                                        TermV::Splice(Box::new(e))
                                    };
                                    Some((t, k + 1))
                                } else {
                                    None
                                }
                            },
                        }
                    } else {
                        None
                    }
                } else if tag == "Macro"@ {
                    if match_at(s, j, ":{\"name\":"@) {
                        match parse_jstring(s, adv(i, j + ":{\"name\":"@.len())) {
                            None => None,
                            Some((name, k1)) => {
                                if match_at(s, adv(i, k1), ",\"parameters\":["@) {
                                    let k2 = adv(i, k1) + ",\"parameters\":["@.len();
                                    let after = if 0 <= k2 < s.len() && s[k2] == ']' {
                                        Some((Seq::<Seq<char>>::empty(), k2 + 1))
                                    } else {
                                        parse_names(s, adv(i, k2))
                                    };
                                    match after {
                                        None => None,
                                        Some((params, k3)) => {
                                            if match_at(s, adv(i, k3), ",\"body\":"@) {
                                                match parse_ir(
                                                    s,
                                                    adv(i, adv(i, k3) + ",\"body\":"@.len()),
                                                ) {
                                                    None => None,
                                                    Some((body, k4)) => {
                                                        if match_at(s, adv(i, k4), "}}"@) {
                                                            Some(
                                                                (
                                                                    TermV::Macro {
                                                                        name,
                                                                        parameters: params,
                                                                        body: Box::new(body),
                                                                    },
                                                                    adv(i, k4) + 2,
                                                                ),
                                                            )
                                                        } else {
                                                            None
                                                        }
                                                    },
                                                }
                                            } else {
                                                None
                                            }
                                        },
                                    }
                                } else {
                                    None
                                }
                            },
                        }
                    } else {
                        None
                    }
                } else if tag == "MacroCall"@ {
                    if match_at(s, j, ":{\"name\":"@) {
                        match parse_jstring(s, adv(i, j + ":{\"name\":"@.len())) {
                            None => None,
                            Some((name, k1)) => {
                                if match_at(s, adv(i, k1), ",\"args\":["@) {
                                    let k2 = adv(i, k1) + ",\"args\":["@.len();
                                    let after = if 0 <= k2 < s.len() && s[k2] == ']' {
                                        Some((Seq::<TermV>::empty(), k2 + 1))
                                    } else {
                                        parse_items(s, adv(i, k2))
                                    };
                                    match after {
                                        None => None,
                                        Some((args, k3)) => {
                                            if match_at(s, adv(i, k3), "}}"@) {
                                                Some(
                                                    (
                                                        TermV::MacroCall { name, args },
                                                        adv(i, k3) + 2,
                                                    ),
                                                )
                                            } else {
                                                None
                                            }
                                        },
                                    }
                                } else {
                                    None
                                }
                            },
                        }
                    } else {
                        None
                    }
                } else {
                    None
                }
            },
        }
    } else {
        None
    }
}

/// Array elements: terms separated by commas, up to the closing bracket.
pub open spec fn parse_items(s: Seq<char>, m: int) -> Option<(Seq<TermV>, int)>
    decreases left(s, m), 6int,
{
    if !(0 <= m < s.len()) {
        None
    } else {
        match parse_ir(s, m) {
        None => None,
        Some((t, k0)) => {
            let k = adv(m, k0);
            if k < s.len() && s[k] == ',' {
                match parse_items(s, adv(m, k + 1)) {
                    None => None,
                    Some((ts, end)) => Some((seq![t] + ts, end)),
                }
            } else if k < s.len() && s[k] == ']' {
                Some((seq![t], k + 1))
            } else {
                None
            }
        },
        }
    }
}

/// Array elements: names separated by commas, up to the closing bracket.
pub open spec fn parse_names(s: Seq<char>, m: int) -> Option<(Seq<Seq<char>>, int)>
    decreases left(s, m), 6int,
{
    if !(0 <= m < s.len()) {
        None
    } else {
        match parse_jstring(s, m) {
        None => None,
        Some((p, k0)) => {
            let k = adv(m, k0);
            if k < s.len() && s[k] == ',' {
                match parse_names(s, adv(m, k + 1)) {
                    None => None,
                    Some((ps, end)) => Some((seq![p] + ps, end)),
                }
            } else if k < s.len() && s[k] == ']' {
                Some((seq![p], k + 1))
            } else {
                None
            }
        },
        }
    }
}

/// A whole program in the IR: one array of terms.
pub open spec fn parse_ir_program(s: Seq<char>) -> Option<(Seq<TermV>, int)> {
    if s.len() >= 2 && s[0] == '[' {
        if s.len() >= 2 && s[1] == ']' {
            Some((Seq::empty(), 2))
        } else {
            parse_items(s, 1)
        }
    } else {
        None
    }
}


// ---------------------------------------------------------------------------
// The deserializer, executable
// ---------------------------------------------------------------------------

/// The position after the literal, when it stands at `i`.
fn eat_lit(v: &Vec<char>, i: usize, lit: &str) -> (r: Option<usize>)
    ensures
        match r {
            Some(j) => match_at(v@, i as int, lit@) && j as int == i + lit@.len() && j <= v.len(),
            None => !match_at(v@, i as int, lit@),
        },
{
    let pc = str_to_chars(lit);
    if i > v.len() || pc.len() > v.len() - i {
        return None;
    }
    let mut k: usize = 0;
    while k < pc.len()
        invariant
            k <= pc.len(),
            i + pc.len() <= v.len(),
            pc@ == lit@,
            forall|q: int| 0 <= q < k ==> v@[i + q] == pc@[q],
        decreases pc.len() - k,
    {
        if v[i + k] != pc[k] {
            proof {
                assert(v@.subrange(i as int, i + lit@.len())[k as int] != lit@[k as int]);
            }
            return None;
        }
        k += 1;
    }
    proof {
        assert(v@.subrange(i as int, i + lit@.len()) =~= lit@);
    }
    Some(i + pc.len())
}

fn hex_val_exec(c: char) -> (r: Option<u32>)
    ensures
        match r {
            Some(h) => hex_val(c) == Some(h as int) && h < 16,
            None => hex_val(c) is None,
        },
{
    let u = c as u32;
    if '0' <= c && c <= '9' {
        Some(u - 48)
    } else if 'a' <= c && c <= 'f' {
        Some(u - 87)
    } else {
        None
    }
}

fn jchars_exec(v: &Vec<char>, k: usize) -> (r: Option<(Vec<char>, usize)>)
    ensures
        match r {
            Some((cs, end)) => parse_jchars(v@, k as int) matches Some((sv, se)) && cs@ == sv
                && end as int == se && k < end <= v.len(),
            None => parse_jchars(v@, k as int) is None,
        },
    decreases v.len() - k,
{
    if k >= v.len() {
        return None;
    }
    let c = v[k];
    if c == '"' {
        let cs: Vec<char> = Vec::new();
        return Some((cs, k + 1));
    }
    if c == '\\' {
        if k + 1 >= v.len() {
            return None;
        }
        let e = v[k + 1];
        if e == 'n' || e == 't' || e == 'r' || e == '\\' || e == '"' {
            let decoded = if e == 'n' {
                '\n'
            } else if e == 't' {
                '\t'
            } else if e == 'r' {
                '\r'
            } else {
                e
            };
            match jchars_exec(v, k + 2) {
                None => None,
                Some((mut rest, end)) => {
                    rest.insert(0, decoded);
                    proof {
                        assert(rest@ =~= seq![decoded] + rest@.drop_first());
                    }
                    Some((rest, end))
                },
            }
        } else if e == 'u' {
            if v.len() - k > 5 && v[k + 2] == '0' && v[k + 3] == '0' {
                let h1 = hex_val_exec(v[k + 4]);
                let h2 = hex_val_exec(v[k + 5]);
                match (h1, h2) {
                    (Some(a), Some(b)) => {
                        let val = a * 16 + b;
                        if val < 32 && val != 9 && val != 10 && val != 13 {
                            let decoded = (val as u8) as char;
                            proof {
                                assert(decoded == (((a * 16 + b) as int) as u8) as char);
                            }
                            match jchars_exec(v, k + 6) {
                                None => None,
                                Some((mut rest, end)) => {
                                    rest.insert(0, decoded);
                                    proof {
                                        assert(rest@ =~= seq![decoded] + rest@.drop_first());
                                    }
                                    Some((rest, end))
                                },
                            }
                        } else {
                            None
                        }
                    },
                    _ => None,
                }
            } else {
                None
            }
        } else {
            None
        }
    } else {
        let u = c as u32;
        if u >= 32 {
            match jchars_exec(v, k + 1) {
                None => None,
                Some((mut rest, end)) => {
                    rest.insert(0, c);
                    proof {
                        assert(rest@ =~= seq![c] + rest@.drop_first());
                    }
                    Some((rest, end))
                },
            }
        } else {
            None
        }
    }
}

fn jstring_exec(v: &Vec<char>, i: usize) -> (r: Option<(String, usize)>)
    ensures
        match r {
            Some((txt, end)) => parse_jstring(v@, i as int) matches Some((sv, se)) && txt@ == sv
                && end as int == se && i < end <= v.len(),
            None => parse_jstring(v@, i as int) is None,
        },
    decreases v.len() - i,
{
    if i < v.len() && v[i] == '"' {
        match jchars_exec(v, i + 1) {
            None => None,
            Some((cs, end)) => Some((chars_to_string(&cs), end)),
        }
    } else {
        None
    }
}

fn find_rbrace_exec(v: &Vec<char>, k: usize) -> (r: usize)
    requires
        k <= v.len(),
    ensures
        r as int == find_rbrace(v@, k as int),
        k <= r <= v.len(),
    decreases v.len() - k,
{
    if k < v.len() && v[k] != '}' {
        find_rbrace_exec(v, k + 1)
    } else {
        k
    }
}

proof fn lemma_digits_end_shift(s: Seq<char>, off: int, j: int)
    requires
        0 <= off,
        0 <= j,
        off + j <= s.len(),
    ensures
        crate::ast::digits_end(s.skip(off), j) == crate::ast::digits_end(s, off + j) - off,
    decreases s.len() - off - j,
{
    let t = s.skip(off);
    if j < t.len() && crate::ast::is_digit_char(t[j]) {
        assert(t[j] == s[off + j]);
        lemma_digits_end_shift(s, off, j + 1);
    } else {
        if off + j < s.len() {
            assert(t[j] == s[off + j]);
        }
    }
}

/// Whether the characters hold canonical number text.
fn check_number_text(t: &Vec<char>) -> (r: bool)
    ensures
        r == is_number_text(t@),
{
    let off: usize = if t.len() > 0 && t[0] == '-' {
        1
    } else {
        0
    };
    let ghost u = if off == 1 {
        t@.skip(1)
    } else {
        t@
    };
    proof {
        if off == 0 {
            assert(t@.skip(0) =~= t@);
        }
        assert(is_number_text(t@) == crate::ast::is_unsigned_number_text(u));
    }
    if off >= t.len() {
        proof {
            assert(u.len() == 0);
        }
        return false;
    }
    let c0 = t[off];
    proof {
        assert(u[0] == t@[off as int]);
    }
    if !('0' <= c0 && c0 <= '9') {
        return false;
    }
    if c0 == '0' && off + 1 < t.len() {
        let c1 = t[off + 1];
        proof {
            assert(u[1] == t@[off as int + 1]);
        }
        if c1 != '.' {
            return false;
        }
    }
    let mut d: usize = off;
    while d < t.len() && '0' <= t[d] && t[d] <= '9'
        invariant
            off <= d <= t.len(),
            crate::ast::digits_end(t@, off as int) == crate::ast::digits_end(t@, d as int),
        decreases t.len() - d,
    {
        d += 1;
    }
    proof {
        assert(crate::ast::digits_end(t@, d as int) == d);
        lemma_digits_end_shift(t@, off as int, 0);
        assert(crate::ast::digits_end(u, 0) == d - off);
    }
    if d == t.len() {
        return true;
    }
    proof {
        assert(u[(d - off) as int] == t@[d as int]);
    }
    if t[d] != '.' {
        return false;
    }
    if d + 1 >= t.len() {
        return false;
    }
    let mut e: usize = d + 1;
    while e < t.len() && '0' <= t[e] && t[e] <= '9'
        invariant
            d + 1 <= e <= t.len(),
            crate::ast::digits_end(t@, d as int + 1) == crate::ast::digits_end(t@, e as int),
        decreases t.len() - e,
    {
        e += 1;
    }
    proof {
        assert(crate::ast::digits_end(t@, e as int) == e);
        lemma_digits_end_shift(t@, off as int, (d - off) as int + 1);
        assert(crate::ast::digits_end(u, (d - off) as int + 1) == e - off);
    }
    e == t.len()
}


/// Copy `v[a..b]`.
fn copy_range(v: &Vec<char>, a: usize, b: usize) -> (r: Vec<char>)
    requires
        a <= b <= v.len(),
    ensures
        r@ == v@.subrange(a as int, b as int),
{
    let mut out: Vec<char> = Vec::new();
    let mut i: usize = a;
    while i < b
        invariant
            a <= i <= b <= v.len(),
            out@.len() == i - a,
            forall|k: int| 0 <= k < i - a ==> out@[k] == v@[a + k],
        decreases b - i,
    {
        out.push(v[i]);
        i += 1;
    }
    proof {
        assert(out@ =~= v@.subrange(a as int, b as int));
    }
    out
}

#[verifier::rlimit(100)]
#[verifier::spinoff_prover]
fn parse_ir_exec(v: &Vec<char>, i: usize) -> (r: Option<(LispExpr, usize)>)
    ensures
        match r {
            Some((e, end)) => parse_ir(v@, i as int) matches Some((tv, se)) && e@ == tv
                && end as int == se,
            None => parse_ir(v@, i as int) is None,
        },
    decreases left(v@, i as int), 5int,
{
    if i >= v.len() {
        return None;
    }
    let c = v[i];
    if c == '"' {
        match eat_lit(v, i, "\"Nil\"") {
            Some(j) => {
                proof {
                    crate::text::reveal_strlit_nil_tag();
                }
                Some((LispExpr::Nil, j))
            },
            None => None,
        }
    } else if c == '{' {
        match jstring_exec(v, i + 1) {
            None => None,
            Some((tag, j0)) => {
                let j = if j0 > i {
                    j0
                } else {
                    i + 1
                };
                if tag == "Number".to_owned() {
                    if j < v.len() && v[j] == ':' {
                        let e = find_rbrace_exec(v, j + 1);
                        let txt = copy_range(v, j + 1, e);
                        if e < v.len() && check_number_text(&txt) {
                            Some((LispExpr::Number(chars_to_string(&txt)), e + 1))
                        } else {
                            None
                        }
                    } else {
                        None
                    }
                } else if tag == "Symbol".to_owned() || tag == "String".to_owned() || tag
                    == "Gensym".to_owned() {
                    if j < v.len() && v[j] == ':' {
                        let jn = if j + 1 > i {
                            j + 1
                        } else {
                            i + 1
                        };
                        match jstring_exec(v, jn) {
                            None => None,
                            Some((txt, k0)) => {
                                let k = if k0 > i {
                                    k0
                                } else {
                                    i + 1
                                };
                                if k < v.len() && v[k] == '}' {
                                    let t = if tag == "Symbol".to_owned() {
                                        LispExpr::Symbol(txt)
                                    } else if tag == "String".to_owned() {
                                        LispExpr::String(txt)
                                    } else {
                                        LispExpr::Gensym(txt)
                                    };
                                    Some((t, k + 1))
                                } else {
                                    None
                                }
                            },
                        }
                    } else {
                        None
                    }
                } else if tag == "Bool".to_owned() {
                    match eat_lit(v, j, ":true}") {
                        Some(j2) => {
                            proof {
                                crate::text::reveal_strlit_bool_tags();
                            }
                            Some((LispExpr::Bool(true), j2))
                        },
                        None => {
                            match eat_lit(v, j, ":false}") {
                                Some(j2) => {
                                    proof {
                                        crate::text::reveal_strlit_bool_tags();
                                    }
                                    Some((LispExpr::Bool(false), j2))
                                },
                                None => None,
                            }
                        },
                    }
                } else if tag == "List".to_owned() {
                    if j < v.len() && v.len() - j > 1 && v[j] == ':' && v[j + 1] == '[' {
                        if v.len() - j > 3 && v[j + 2] == ']' && v[j + 3] == '}' {
                            let es: Vec<LispExpr> = Vec::new();
                            proof {
                                assert(terms_view(es@) =~= Seq::<TermV>::empty());
                            }
                            Some((LispExpr::List(es), j + 4))
                        } else {
                            let jm = if j + 2 > i {
                                j + 2
                            } else {
                                i + 1
                            };
                            match parse_items_exec(v, jm) {
                                None => None,
                                Some((es, k0)) => {
                                    let k = if k0 > i {
                                        k0
                                    } else {
                                        i + 1
                                    };
                                    if k < v.len() && v[k] == '}' {
                                        Some((LispExpr::List(es), k + 1))
                                    } else {
                                        None
                                    }
                                },
                            }
                        }
                    } else {
                        None
                    }
                } else if tag == "Quote".to_owned() || tag == "Quasiquote".to_owned() || tag
                    == "Unquote".to_owned() || tag == "Splice".to_owned() {
                    if j < v.len() && v[j] == ':' {
                        let jn = if j + 1 > i {
                            j + 1
                        } else {
                            i + 1
                        };
                        match parse_ir_exec(v, jn) {
                            None => None,
                            Some((e, k0)) => {
                                let k = if k0 > i {
                                    k0
                                } else {
                                    i + 1
                                };
                                if k < v.len() && v[k] == '}' {
                                    let t = if tag == "Quote".to_owned() {
                                        LispExpr::Quote(Box::new(e))
                                    } else if tag == "Quasiquote".to_owned() {
                                        LispExpr::Quasiquote(Box::new(e))
                                    } else if tag == "Unquote".to_owned() {
                                        LispExpr::Unquote(Box::new(e))
                                    } else {
                                        LispExpr::Splice(Box::new(e))
                                    };
                                    Some((t, k + 1))
                                } else {
                                    None
                                }
                            },
                        }
                    } else {
                        None
                    }
                } else if tag == "Macro".to_owned() {
                    match eat_lit(v, j, ":{\"name\":") {
                        None => None,
                        Some(jn0) => {
                            let jn = if jn0 > i {
                                jn0
                            } else {
                                i + 1
                            };
                            proof {
                                crate::text::reveal_strlit_macro_markers();
                            }
                            match jstring_exec(v, jn) {
                                None => None,
                                Some((name, k1)) => {
                                    let ka = if k1 > i {
                                        k1
                                    } else {
                                        i + 1
                                    };
                                    match eat_lit(v, ka, ",\"parameters\":[") {
                                        None => None,
                                        Some(k2) => {
                                            let after: Option<(Vec<String>, usize)> = if k2
                                                < v.len() && v[k2] == ']' {
                                                let ps: Vec<String> = Vec::new();
                                                proof {
                                                    assert(names_view(ps@) =~= Seq::<
                                                        Seq<char>,
                                                    >::empty());
                                                }
                                                Some((ps, k2 + 1))
                                            } else {
                                                let km = if k2 > i {
                                                    k2
                                                } else {
                                                    i + 1
                                                };
                                                parse_names_exec(v, km)
                                            };
                                            match after {
                                                None => None,
                                                Some((params, k3)) => {
                                                    let kb = if k3 > i {
                                                        k3
                                                    } else {
                                                        i + 1
                                                    };
                                                    match eat_lit(v, kb, ",\"body\":") {
                                                        None => None,
                                                        Some(k4) => {
                                                            let kc = if k4 > i {
                                                                k4
                                                            } else {
                                                                i + 1
                                                            };
                                                            match parse_ir_exec(v, kc) {
                                                                None => None,
                                                                Some((body, k5)) => {
                                                                    let kd = if k5 > i {
                                                                        k5
                                                                    } else {
                                                                        i + 1
                                                                    };
                                                                    match eat_lit(v, kd, "}}") {
                                                                        None => None,
                                                                        Some(end) => {
                                                                            let m =
                                                                                LispExpr::Macro {
                                                                                name,
                                                                                parameters:
                                                                                    params,
                                                                                body: Box::new(
                                                                                    body,
                                                                                ),
                                                                            };
                                                                            proof {
                                                                                assert(m@
                                                                                    == parse_ir(
                                                                                    v@,
                                                                                    i as int,
                                                                                )->Some_0.0);
                                                                            }
                                                                            Some((m, end))
                                                                        },
                                                                    }
                                                                },
                                                            }
                                                        },
                                                    }
                                                },
                                            }
                                        },
                                    }
                                },
                            }
                        },
                    }
                } else if tag == "MacroCall".to_owned() {
                    match eat_lit(v, j, ":{\"name\":") {
                        None => None,
                        Some(jn0) => {
                            let jn = if jn0 > i {
                                jn0
                            } else {
                                i + 1
                            };
                            proof {
                                crate::text::reveal_strlit_macro_markers();
                            }
                            match jstring_exec(v, jn) {
                                None => None,
                                Some((name, k1)) => {
                                    let ka = if k1 > i {
                                        k1
                                    } else {
                                        i + 1
                                    };
                                    match eat_lit(v, ka, ",\"args\":[") {
                                        None => None,
                                        Some(k2) => {
                                            let after: Option<(Vec<LispExpr>, usize)> = if k2
                                                < v.len() && v[k2] == ']' {
                                                let es: Vec<LispExpr> = Vec::new();
                                                proof {
                                                    assert(terms_view(es@) =~= Seq::<
                                                        TermV,
                                                    >::empty());
                                                }
                                                Some((es, k2 + 1))
                                            } else {
                                                let km = if k2 > i {
                                                    k2
                                                } else {
                                                    i + 1
                                                };
                                                parse_items_exec(v, km)
                                            };
                                            match after {
                                                None => None,
                                                Some((args, k3)) => {
                                                    let kb = if k3 > i {
                                                        k3
                                                    } else {
                                                        i + 1
                                                    };
                                                    match eat_lit(v, kb, "}}") {
                                                        None => None,
                                                        Some(end) => {
                                                            let m = LispExpr::MacroCall {
                                                                name,
                                                                args,
                                                            };
                                                            proof {
                                                                assert(m@ == parse_ir(
                                                                    v@,
                                                                    i as int,
                                                                )->Some_0.0);
                                                            }
                                                            Some((m, end))
                                                        },
                                                    }
                                                },
                                            }
                                        },
                                    }
                                },
                            }
                        },
                    }
                } else {
                    None
                }
            },
        }
    } else {
        None
    }
}

fn parse_items_exec(v: &Vec<char>, m: usize) -> (r: Option<(Vec<LispExpr>, usize)>)
    ensures
        match r {
            Some((es, end)) => parse_items(v@, m as int) matches Some((sv, se)) && terms_view(es@)
                == sv && end as int == se,
            None => parse_items(v@, m as int) is None,
        },
    decreases left(v@, m as int), 6int,
{
    if m >= v.len() {
        return None;
    }
    match parse_ir_exec(v, m) {
        None => None,
        Some((t, k0)) => {
            let k = if k0 > m {
                k0
            } else {
                m + 1
            };
            if k < v.len() && v[k] == ',' {
                let kn = if k + 1 > m {
                    k + 1
                } else {
                    m + 1
                };
                match parse_items_exec(v, kn) {
                    None => None,
                    Some((mut es, end)) => {
                        es.insert(0, t);
                        proof {
                            assert(terms_view(es@) =~= seq![es@[0]@] + terms_view(
                                es@.drop_first(),
                            ));
                        }
                        Some((es, end))
                    },
                }
            } else if k < v.len() && v[k] == ']' {
                let mut es: Vec<LispExpr> = Vec::new();
                es.push(t);
                proof {
                    assert(terms_view(es@) =~= seq![es@[0]@]);
                }
                Some((es, k + 1))
            } else {
                None
            }
        },
    }
}

fn parse_names_exec(v: &Vec<char>, m: usize) -> (r: Option<(Vec<String>, usize)>)
    ensures
        match r {
            Some((ps, end)) => parse_names(v@, m as int) matches Some((sv, se)) && names_view(ps@)
                == sv && end as int == se,
            None => parse_names(v@, m as int) is None,
        },
    decreases left(v@, m as int), 6int,
{
    if m >= v.len() {
        return None;
    }
    match jstring_exec(v, m) {
        None => None,
        Some((p, k0)) => {
            let k = if k0 > m {
                k0
            } else {
                m + 1
            };
            if k < v.len() && v[k] == ',' {
                let kn = if k + 1 > m {
                    k + 1
                } else {
                    m + 1
                };
                match parse_names_exec(v, kn) {
                    None => None,
                    Some((mut ps, end)) => {
                        ps.insert(0, p);
                        proof {
                            assert(names_view(ps@) =~= seq![ps@[0]@] + names_view(
                                ps@.drop_first(),
                            ));
                        }
                        Some((ps, end))
                    },
                }
            } else if k < v.len() && v[k] == ']' {
                let mut ps: Vec<String> = Vec::new();
                ps.push(p);
                proof {
                    assert(names_view(ps@) =~= seq![ps@[0]@]);
                }
                Some((ps, k + 1))
            } else {
                None
            }
        },
    }
}

/// Read one term back from its IR text; the whole input must be one term.
pub fn deserialize_expr(s: &str) -> (r: Result<LispExpr, String>)
    ensures
        match r {
            Ok(e) => parse_ir(s@, 0) matches Some((tv, end)) && e@ == tv && end == s@.len(),
            Err(_) => parse_ir(s@, 0) is None || !(parse_ir(s@, 0) matches Some((_, end))
                && end == s@.len()),
        },
{
    let v = str_to_chars(s);
    match parse_ir_exec(&v, 0) {
        Some((e, end)) => {
            if end == v.len() {
                Ok(e)
            } else {
                Err("The IR text has trailing characters after one term".to_owned())
            }
        },
        None => Err("The IR text does not parse as a term".to_owned()),
    }
}

/// Read a whole program back from its IR text; the whole input must be one
/// array of terms.
pub fn deserialize_program(s: &str) -> (r: Result<Vec<LispExpr>, String>)
    ensures
        match r {
            Ok(es) => parse_ir_program(s@) matches Some((sv, end)) && terms_view(es@) == sv
                && end == s@.len(),
            Err(_) => parse_ir_program(s@) is None || !(parse_ir_program(s@) matches Some(
                (_, end),
            ) && end == s@.len()),
        },
{
    let v = str_to_chars(s);
    if v.len() >= 2 && v[0] == '[' {
        if v[1] == ']' {
            if v.len() == 2 {
                let es: Vec<LispExpr> = Vec::new();
                proof {
                    assert(terms_view(es@) =~= Seq::<TermV>::empty());
                }
                Ok(es)
            } else {
                Err("The IR text has trailing characters after the program".to_owned())
            }
        } else {
            match parse_items_exec(&v, 1) {
                Some((es, end)) => {
                    if end == v.len() {
                        Ok(es)
                    } else {
                        Err("The IR text has trailing characters after the program".to_owned())
                    }
                },
                None => Err("The IR text does not parse as a program".to_owned()),
            }
        }
    } else {
        Err("The IR text does not parse as a program".to_owned())
    }
}


// ---------------------------------------------------------------------------
// The round trip: IR text reads back as the term it was written from
// ---------------------------------------------------------------------------

/// Escaping also decomposes at the front.
proof fn lemma_escape_left(x: Seq<char>)
    requires
        x.len() > 0,
    ensures
        escape_ir(x) == esc_char(x[0]) + escape_ir(x.drop_first()),
    decreases x.len(),
{
    if x.len() == 1 {
        assert(x.drop_last() =~= Seq::<char>::empty());
        assert(x.drop_first() =~= Seq::<char>::empty());
        assert(escape_ir(x) =~= esc_char(x[0]) + escape_ir(x.drop_first()));
    } else {
        lemma_escape_left(x.drop_last());
        assert(x.drop_last()[0] == x[0]);
        assert(x.drop_last().drop_first() =~= x.drop_first().drop_last());
        assert(x.drop_first().last() == x.last());
        assert(escape_ir(x.drop_first()) == escape_ir(x.drop_first().drop_last()) + esc_char(
            x.last(),
        ));
        assert(escape_ir(x) =~= esc_char(x[0]) + escape_ir(x.drop_first()));
    }
}

/// A low code point survives the trip through its hexadecimal escape.
proof fn lemma_low_char_cast(c: char)
    requires
        (c as u32) < 32,
    ensures
        (((c as u32) as u8) as char) == c,
{
}

/// A hexadecimal digit reads back as its value.
proof fn lemma_hex_val_digit(v: int)
    requires
        0 <= v < 16,
    ensures
        hex_val(hex_digit(v)) == Some(v),
{
}

/// Escaped string text reads back as the text it was written from.
proof fn lemma_jchars_roundtrip(s: Seq<char>, k: int, x: Seq<char>)
    requires
        0 <= k,
        k + escape_ir(x).len() + 1 <= s.len(),
        s.subrange(k, k + escape_ir(x).len()) == escape_ir(x),
        s[k + escape_ir(x).len()] == '"',
    ensures
        parse_jchars(s, k) == Some((x, k + escape_ir(x).len() + 1)),
    decreases x.len(),
{
    if x.len() == 0 {
        assert(escape_ir(x).len() == 0);
        assert(s[k] == '"');
    } else {
        lemma_escape_left(x);
        let c = x[0];
        let p = esc_char(c);
        let rest = escape_ir(x.drop_first());
        let e = escape_ir(x);
        assert(e.len() == p.len() + rest.len());
        assert forall|j: int| 0 <= j < e.len() implies s[k + j] == #[trigger] e[j] by {
            assert(s.subrange(k, k + e.len())[j] == e[j]);
            assert(s.subrange(k, k + e.len())[j] == s[k + j]);
        }
        assert forall|j: int| 0 <= j < p.len() implies s[k + j] == #[trigger] p[j] by {
            assert(e[j] == (p + rest)[j]);
            assert((p + rest)[j] == p[j]);
        }
        let k2 = k + p.len();
        assert forall|q: int| 0 <= q < rest.len() implies #[trigger] s.subrange(
            k2,
            k2 + rest.len(),
        )[q] == rest[q] by {
            assert(s.subrange(k2, k2 + rest.len())[q] == s[k2 + q]);
            assert(e[p.len() + q] == (p + rest)[p.len() + q]);
            assert((p + rest)[p.len() + q] == rest[q]);
        }
        assert(s.subrange(k2, k2 + rest.len()) =~= rest);
        assert(x =~= seq![c] + x.drop_first());
        if c == '"' {
            reveal_strlit("\\\"");
            assert(p =~= seq!['\\', '"']);
            lemma_jchars_roundtrip(s, k + 2, x.drop_first());
        } else if c == '\\' {
            reveal_strlit("\\\\");
            assert(p =~= seq!['\\', '\\']);
            lemma_jchars_roundtrip(s, k + 2, x.drop_first());
        } else if c == '\n' {
            reveal_strlit("\\n");
            assert(p =~= seq!['\\', 'n']);
            lemma_jchars_roundtrip(s, k + 2, x.drop_first());
        } else if c == '\t' {
            reveal_strlit("\\t");
            assert(p =~= seq!['\\', 't']);
            lemma_jchars_roundtrip(s, k + 2, x.drop_first());
        } else if c == '\r' {
            reveal_strlit("\\r");
            assert(p =~= seq!['\\', 'r']);
            lemma_jchars_roundtrip(s, k + 2, x.drop_first());
        } else if (c as u32) < 32 {
            reveal_strlit("\\u00");
            let u = c as u32;
            let h1 = (u / 16) as int;
            let h2 = (u % 16) as int;
            assert(p =~= seq!['\\', 'u', '0', '0', hex_digit(h1), hex_digit(h2)]);
            lemma_hex_val_digit(h1);
            lemma_hex_val_digit(h2);
            assert(s[k + 4] == hex_digit(h1));
            assert(s[k + 5] == hex_digit(h2));
            assert(h1 * 16 + h2 == u as int);
            assert(((h1 * 16 + h2) as u8) as int == h1 * 16 + h2);
            assert((u as u8) as int == u as int);
            assert(((h1 * 16 + h2) as u8) == (u as u8));
            lemma_low_char_cast(c);
            assert(((u as u8) as char) == c);
            assert((((h1 * 16 + h2) as u8) as char) == c);
            lemma_jchars_roundtrip(s, k + 6, x.drop_first());
        } else {
            assert(p =~= seq![c]);
            assert(s[k] == c);
            lemma_jchars_roundtrip(s, k + 1, x.drop_first());
        }
    }
}

/// A quoted, escaped string reads back as the text it was written from.
proof fn lemma_jstring_roundtrip(s: Seq<char>, i: int, x: Seq<char>)
    requires
        0 <= i,
        i + jstr(x).len() <= s.len(),
        s.subrange(i, i + jstr(x).len()) == jstr(x),
    ensures
        parse_jstring(s, i) == Some((x, i + jstr(x).len())),
{
    let j = jstr(x);
    assert forall|q: int| 0 <= q < j.len() implies s[i + q] == #[trigger] j[q] by {
        assert(s.subrange(i, i + j.len())[q] == j[q]);
        assert(s.subrange(i, i + j.len())[q] == s[i + q]);
    }
    reveal_strlit("\"");
    let quote = "\""@;
    let esc = escape_ir(x);
    assert(quote.len() == 1);
    assert(j == quote + esc + quote);
    assert(j[0] == (quote + esc)[0]);
    assert(s[i] == '"');
    assert(j.len() == esc.len() + 2);
    assert forall|q: int| 0 <= q < esc.len() implies #[trigger] s.subrange(
        i + 1,
        i + 1 + esc.len(),
    )[q] == esc[q] by {
        assert(s.subrange(i + 1, i + 1 + esc.len())[q] == s[i + 1 + q]);
        assert(j[1 + q] == (quote + esc)[1 + q]);
        assert((quote + esc)[1 + q] == esc[q]);
    }
    assert(s.subrange(i + 1, i + 1 + esc.len()) =~= esc);
    assert(j[1 + esc.len() as int] == quote[0]);
    assert(s[i + 1 + esc.len()] == '"');
    lemma_jchars_roundtrip(s, i + 1, x);
}

/// Text whose characters need no escaping stands for itself.
proof fn lemma_raw_escape(x: Seq<char>)
    requires
        forall|j: int| 0 <= j < x.len() ==> #[trigger] x[j] != '"' && x[j] != '\\' && (x[j]
            as u32) >= 32,
    ensures
        escape_ir(x) == x,
    decreases x.len(),
{
    if x.len() > 0 {
        lemma_raw_escape(x.drop_last());
        assert(esc_char(x.last()) =~= seq![x.last()]);
        assert(escape_ir(x) =~= x);
    }
}


/// Character-level view of a window of the input.
proof fn lemma_window(s: Seq<char>, i: int, w: Seq<char>, a: int, b: int)
    requires
        0 <= i,
        i + w.len() <= s.len(),
        s.subrange(i, i + w.len()) == w,
        0 <= a <= b <= w.len(),
    ensures
        s.subrange(i + a, i + b) == w.subrange(a, b),
        forall|j: int| a <= j < b ==> s[i + j] == #[trigger] w[j],
{
    assert forall|j: int| a <= j < b implies s[i + j] == #[trigger] w[j] by {
        assert(s.subrange(i, i + w.len())[j] == w[j]);
        assert(s.subrange(i, i + w.len())[j] == s[i + j]);
    }
    assert(s.subrange(i + a, i + b) =~= w.subrange(a, b));
}

/// A piece of the window, located by its offset.
proof fn lemma_piece(s: Seq<char>, i: int, w: Seq<char>, off: int, piece: Seq<char>)
    requires
        0 <= i,
        i + w.len() <= s.len(),
        s.subrange(i, i + w.len()) == w,
        0 <= off,
        off + piece.len() <= w.len(),
        forall|q: int| 0 <= q < piece.len() ==> w[off + q] == #[trigger] piece[q],
    ensures
        s.subrange(i + off, i + off + piece.len()) == piece,
        forall|q: int| 0 <= q < piece.len() ==> s[i + off + q] == #[trigger] piece[q],
{
    lemma_window(s, i, w, off, off + piece.len() as int);
    assert forall|q: int| 0 <= q < piece.len() implies s[i + off + q] == #[trigger] piece[q] by {
        assert(s[i + off + q] == w[off + q]);
    }
    assert(s.subrange(i + off, i + off + piece.len()) =~= piece);
}

/// Every term's IR text opens with a brace or a quote.
proof fn lemma_ser_first(t: TermV)
    ensures
        ser_spec(t).len() >= 1,
        ser_spec(t)[0] == '{' || ser_spec(t)[0] == '"',
{
    reveal_strlit("{\"Number\":");
    reveal_strlit("{\"Symbol\":");
    reveal_strlit("{\"String\":");
    reveal_strlit("{\"Bool\":true}");
    reveal_strlit("{\"Bool\":false}");
    reveal_strlit("\"Nil\"");
    reveal_strlit("{\"List\":[");
    reveal_strlit("{\"Macro\":{\"name\":");
    reveal_strlit("{\"MacroCall\":{\"name\":");
    reveal_strlit("{\"Quote\":");
    reveal_strlit("{\"Quasiquote\":");
    reveal_strlit("{\"Unquote\":");
    reveal_strlit("{\"Splice\":");
    reveal_strlit("{\"Gensym\":");
}

/// The tag of a tagged object reads back as itself.
proof fn lemma_tag_parse(s: Seq<char>, i: int, w: Seq<char>, tag: Seq<char>)
    requires
        0 <= i,
        i + w.len() <= s.len(),
        s.subrange(i, i + w.len()) == w,
        3 + tag.len() <= w.len(),
        w.subrange(1, 3 + tag.len() as int) == jstr(tag),
    ensures
        parse_jstring(s, i + 1) == Some((tag, i + 3 + tag.len())),
{
    assert(jstr(tag).len() == 2 + tag.len()) by {
        assert(w.subrange(1, 3 + tag.len() as int).len() == 2 + tag.len());
    }
    lemma_window(s, i, w, 1, 3 + tag.len() as int);
    assert(s.subrange(i + 1, i + 1 + jstr(tag).len() as int) == jstr(tag));
    lemma_jstring_roundtrip(s, i + 1, tag);
}

/// The digits before the scan's stopping point are digits.
proof fn lemma_digits_end_digits(s: Seq<char>, i: int, j: int)
    requires
        0 <= i <= j < crate::ast::digits_end(s, i),
    ensures
        crate::ast::is_digit_char(s[j]),
    decreases j - i,
{
    if i < j {
        lemma_digits_end_digits(s, i + 1, j);
    }
}

/// Canonical number text holds digits, at most one dot, and at most one
/// leading minus; no brace can occur in it.
proof fn lemma_number_text_chars(t: Seq<char>)
    requires
        is_number_text(t),
    ensures
        forall|j: int| 0 <= j < t.len() ==> #[trigger] t[j] != '}',
        t.len() > 0,
{
    let off: int = if t.len() > 0 && t[0] == '-' {
        1
    } else {
        0
    };
    let u = if off == 1 {
        t.skip(1)
    } else {
        t
    };
    assert(t.skip(0) =~= t);
    assert(crate::ast::is_unsigned_number_text(u));
    let d = crate::ast::digits_end(u, 0);
    assert forall|j: int| 0 <= j < t.len() implies #[trigger] t[j] != '}' by {
        if j >= off {
            let q = j - off;
            assert(u[q] == t[j]);
            if q < d {
                lemma_digits_end_digits(u, 0, q);
            } else if q == d && d < u.len() {
                assert(u[d] == '.');
            } else if q > d {
                lemma_digits_end_digits(u, d + 1, q);
            }
        }
    }
}

/// The brace scan stops exactly at the marked brace.
proof fn lemma_find_rbrace_at(s: Seq<char>, a: int, b: int)
    requires
        0 <= a <= b < s.len(),
        forall|j: int| a <= j < b ==> #[trigger] s[j] != '}',
        s[b] == '}',
    ensures
        find_rbrace(s, a) == b,
    decreases b - a,
{
    if a < b {
        lemma_find_rbrace_at(s, a + 1, b);
    }
}

/// A serialized name list reads back as the names it was written from.
proof fn lemma_names_roundtrip(s: Seq<char>, m: int, ps: Seq<Seq<char>>)
    requires
        ps.len() > 0,
        0 <= m,
        m + ser_names(ps).len() + 1 <= s.len(),
        s.subrange(m, m + ser_names(ps).len()) == ser_names(ps),
        s[m + ser_names(ps).len()] == ']',
    ensures
        parse_names(s, m) == Some((ps, m + ser_names(ps).len() + 1)),
    decreases ps.len(),
{
    let w = ser_names(ps);
    let first = jstr(ps[0]);
    if ps.len() == 1 {
        lemma_window(s, m, w, 0, w.len() as int);
        lemma_jstring_roundtrip(s, m, ps[0]);
        assert(s[m + first.len()] == ']');
        assert(seq![ps[0]] =~= ps);
    } else {
        assert(w == first + ","@ + ser_names(ps.drop_first()));
        reveal_strlit(",");
        lemma_window(s, m, w, 0, first.len() as int);
        assert(s.subrange(m, m + first.len()) =~= first) by {
            lemma_window(s, m, w, 0, first.len() as int);
            assert forall|q: int| 0 <= q < first.len() implies #[trigger] w[q] == first[q] by {
                assert(w == (first + ","@) + ser_names(ps.drop_first()));
                assert(((first + ","@) + ser_names(ps.drop_first()))[q] == (first + ","@)[q]);
                assert((first + ","@)[q] == first[q]);
            }
            assert(w.subrange(0, first.len() as int) =~= first);
        }
        lemma_jstring_roundtrip(s, m, ps[0]);
        let m2 = m + first.len();
        let a = first + ","@;
        assert(s[m2] == ',') by {
            lemma_window(s, m, w, first.len() as int, first.len() as int + 1);
            assert(w == a + ser_names(ps.drop_first()));
            assert((a + ser_names(ps.drop_first()))[first.len() as int] == a[first.len() as int]);
            assert(a[first.len() as int] == ","@[0]);
        }
        let rest = ser_names(ps.drop_first());
        assert(s.subrange(m2 + 1, m2 + 1 + rest.len()) =~= rest) by {
            lemma_window(s, m, w, first.len() as int + 1, w.len() as int);
            assert(w == a + rest);
            assert forall|q: int| 0 <= q < rest.len() implies #[trigger] rest[q] == w[a.len()
                + q] by {
                assert((a + rest)[a.len() + q] == rest[q]);
            }
            assert(w.subrange(first.len() as int + 1, w.len() as int) =~= rest);
        }
        lemma_names_roundtrip(s, m2 + 1, ps.drop_first());
        assert(seq![ps[0]] + ps.drop_first() =~= ps);
    }
}


/// A serialized term list reads back as the terms it was written from.
proof fn lemma_items_roundtrip(s: Seq<char>, m: int, es: Seq<TermV>)
    requires
        es.len() > 0,
        forall|j: int| 0 <= j < es.len() ==> crate::ast::wf_term(#[trigger] es[j]),
        0 <= m,
        m + ser_items(es).len() + 1 <= s.len(),
        s.subrange(m, m + ser_items(es).len()) == ser_items(es),
        s[m + ser_items(es).len()] == ']',
    ensures
        parse_items(s, m) == Some((es, m + ser_items(es).len() + 1)),
    decreases crate::macro_expander::seq_size(es), 2int,
{
    let w = ser_items(es);
    let first = ser_spec(es[0]);
    crate::macro_expander::lemma_seq_size_first(es);
    if es.len() == 1 {
        lemma_parse_ser(s, m, es[0]);
        assert(s[m + first.len()] == ']');
        assert(seq![es[0]] =~= es);
    } else {
        let a = first + ","@;
        let rest = ser_items(es.drop_first());
        assert(w == a + rest);
        reveal_strlit(",");
        assert(s.subrange(m, m + first.len()) =~= first) by {
            lemma_window(s, m, w, 0, first.len() as int);
            assert forall|q: int| 0 <= q < first.len() implies #[trigger] w[q] == first[q] by {
                assert((a + rest)[q] == a[q]);
                assert(a[q] == first[q]);
            }
            assert(w.subrange(0, first.len() as int) =~= first);
        }
        lemma_parse_ser(s, m, es[0]);
        let m2 = m + first.len();
        assert(s[m2] == ',') by {
            lemma_window(s, m, w, first.len() as int, first.len() as int + 1);
            assert((a + rest)[first.len() as int] == a[first.len() as int]);
            assert(a[first.len() as int] == ","@[0]);
        }
        assert(s.subrange(m2 + 1, m2 + 1 + rest.len()) =~= rest) by {
            lemma_window(s, m, w, first.len() as int + 1, w.len() as int);
            assert forall|q: int| 0 <= q < rest.len() implies #[trigger] rest[q] == w[a.len()
                + q] by {
                assert((a + rest)[a.len() + q] == rest[q]);
            }
            assert(w.subrange(first.len() as int + 1, w.len() as int) =~= rest);
        }
        lemma_items_roundtrip(s, m2 + 1, es.drop_first());
        assert(seq![es[0]] + es.drop_first() =~= es);
    }
}

#[verifier::rlimit(100)]
#[verifier::spinoff_prover]
proof fn lemma_parse_ser_nil(s: Seq<char>, i: int, t: TermV)
    requires
        (t is Nil),
        crate::ast::wf_term(t),
        0 <= i,
        i + ser_spec(t).len() <= s.len(),
        s.subrange(i, i + ser_spec(t).len()) == ser_spec(t),
    ensures
        parse_ir(s, i) == Some((t, i + ser_spec(t).len())),
    decreases crate::macro_expander::term_size(t), 0int,
{
    let w = ser_spec(t);
    lemma_ser_first(t);
    lemma_window(s, i, w, 0, w.len() as int);
    reveal_strlit("\"");
    reveal_strlit("}");
    reveal_strlit("}}");
    reveal_strlit("\"Nil\"");
    reveal_strlit("Number");
    reveal_strlit("Symbol");
    reveal_strlit("String");
    reveal_strlit("Bool");
    reveal_strlit("Nil");
    reveal_strlit("List");
    reveal_strlit("Macro");
    reveal_strlit("MacroCall");
    reveal_strlit("Quote");
    reveal_strlit("Quasiquote");
    reveal_strlit("Unquote");
    reveal_strlit("Splice");
    reveal_strlit("Gensym");

    assert(s.subrange(i, i + "\"Nil\""@.len() as int) =~= "\"Nil\""@);
}

#[verifier::rlimit(100)]
#[verifier::spinoff_prover]
proof fn lemma_parse_ser_number(s: Seq<char>, i: int, t: TermV)
    requires
        (t is Number),
        crate::ast::wf_term(t),
        0 <= i,
        i + ser_spec(t).len() <= s.len(),
        s.subrange(i, i + ser_spec(t).len()) == ser_spec(t),
    ensures
        parse_ir(s, i) == Some((t, i + ser_spec(t).len())),
    decreases crate::macro_expander::term_size(t), 0int,
{
    let txt = t->Number_0;
    let w = ser_spec(t);
    lemma_ser_first(t);
    lemma_window(s, i, w, 0, w.len() as int);
    reveal_strlit("\"");
    reveal_strlit("}");
    reveal_strlit("}}");
    reveal_strlit("{\"Number\":");
    reveal_strlit("Number");
    reveal_strlit("Symbol");
    reveal_strlit("String");
    reveal_strlit("Bool");
    reveal_strlit("Nil");
    reveal_strlit("List");
    reveal_strlit("Macro");
    reveal_strlit("MacroCall");
    reveal_strlit("Quote");
    reveal_strlit("Quasiquote");
    reveal_strlit("Unquote");
    reveal_strlit("Splice");
    reveal_strlit("Gensym");

    let a = "{\"Number\":"@;
    assert(w == (a + txt) + "}"@);
    lemma_raw_escape("Number"@);
    assert(w.subrange(1, 9) =~= jstr("Number"@)) by {
        assert(forall|q: int| 0 <= q < a.len() ==> #[trigger] w[q] == a[q]);
    }
    lemma_tag_parse(s, i, w, "Number"@);
    assert(s[i + 9] == ':') by {
        assert(w[9] == a[9]);
    }
    lemma_number_text_chars(txt);
    assert(forall|q: int| 0 <= q < txt.len() ==> #[trigger] w[10 + q] == txt[q]) by {
        assert(forall|q: int| 0 <= q < txt.len() ==> #[trigger] ((a + txt) + "}"@)[10
            + q] == (a + txt)[10 + q]);
    }
    assert(w[10 + txt.len() as int] == '}') by {
        assert(((a + txt) + "}"@)[(a + txt).len() as int] == "}"@[0]);
    }
    assert forall|j: int| i + 10 <= j < i + 10 + txt.len() implies #[trigger] s[j] != '}' by {
        let q = j - (i + 10);
        assert(s[j] == w[10 + q]);
        assert(w[10 + q] == txt[q]);
    }
    lemma_find_rbrace_at(s, i + 10, i + 10 + txt.len() as int);
    assert forall|q: int| 0 <= q < txt.len() implies #[trigger] s.subrange(
        i + 10,
        i + 10 + txt.len() as int,
    )[q] == txt[q] by {
        assert(s.subrange(i + 10, i + 10 + txt.len() as int)[q] == s[i + 10 + q]);
        assert(s[i + 10 + q] == w[10 + q]);
    }
    assert(s.subrange(i + 10, i + 10 + txt.len() as int) =~= txt);
}

#[verifier::rlimit(100)]
#[verifier::spinoff_prover]
proof fn lemma_parse_ser_symbol(s: Seq<char>, i: int, t: TermV)
    requires
        (t is Symbol),
        crate::ast::wf_term(t),
        0 <= i,
        i + ser_spec(t).len() <= s.len(),
        s.subrange(i, i + ser_spec(t).len()) == ser_spec(t),
    ensures
        parse_ir(s, i) == Some((t, i + ser_spec(t).len())),
    decreases crate::macro_expander::term_size(t), 0int,
{
    let x = t->Symbol_0;
    let w = ser_spec(t);
    lemma_ser_first(t);
    lemma_window(s, i, w, 0, w.len() as int);
    reveal_strlit("\"");
    reveal_strlit("}");
    reveal_strlit("}}");
    reveal_strlit("{\"Symbol\":");
    reveal_strlit("Number");
    reveal_strlit("Symbol");
    reveal_strlit("String");
    reveal_strlit("Bool");
    reveal_strlit("Nil");
    reveal_strlit("List");
    reveal_strlit("Macro");
    reveal_strlit("MacroCall");
    reveal_strlit("Quote");
    reveal_strlit("Quasiquote");
    reveal_strlit("Unquote");
    reveal_strlit("Splice");
    reveal_strlit("Gensym");

    let a = "{\"Symbol\":"@;
    assert(w == (a + jstr(x)) + "}"@);
    lemma_raw_escape("Symbol"@);
    assert(w.subrange(1, 9) =~= jstr("Symbol"@)) by {
        assert(forall|q: int| 0 <= q < a.len() ==> #[trigger] w[q] == a[q]);
    }
    lemma_tag_parse(s, i, w, "Symbol"@);
    assert(s[i + 9] == ':') by {
        assert(w[9] == a[9]);
    }
    assert forall|q: int| 0 <= q < jstr(x).len() implies #[trigger] w[10 + q] == jstr(
        x,
    )[q] by {
        assert(((a + jstr(x)) + "}"@)[10 + q] == (a + jstr(x))[10 + q]);
        assert((a + jstr(x))[10 + q] == jstr(x)[q]);
    }
    assert forall|q: int| 0 <= q < jstr(x).len() implies #[trigger] s.subrange(
        i + 10,
        i + 10 + jstr(x).len() as int,
    )[q] == jstr(x)[q] by {
        assert(s.subrange(i + 10, i + 10 + jstr(x).len() as int)[q] == s[i + 10 + q]);
        assert(s[i + 10 + q] == w[10 + q]);
    }
    assert(s.subrange(i + 10, i + 10 + jstr(x).len() as int) =~= jstr(x));
    lemma_jstring_roundtrip(s, i + 10, x);
    assert(w[10 + jstr(x).len() as int] == '}') by {
        assert(((a + jstr(x)) + "}"@)[(a + jstr(x)).len() as int] == "}"@[0]);
    }
}

#[verifier::rlimit(100)]
#[verifier::spinoff_prover]
proof fn lemma_parse_ser_string(s: Seq<char>, i: int, t: TermV)
    requires
        (t is String),
        crate::ast::wf_term(t),
        0 <= i,
        i + ser_spec(t).len() <= s.len(),
        s.subrange(i, i + ser_spec(t).len()) == ser_spec(t),
    ensures
        parse_ir(s, i) == Some((t, i + ser_spec(t).len())),
    decreases crate::macro_expander::term_size(t), 0int,
{
    let x = t->String_0;
    let w = ser_spec(t);
    lemma_ser_first(t);
    lemma_window(s, i, w, 0, w.len() as int);
    reveal_strlit("\"");
    reveal_strlit("}");
    reveal_strlit("}}");
    reveal_strlit("{\"String\":");
    reveal_strlit("Number");
    reveal_strlit("Symbol");
    reveal_strlit("String");
    reveal_strlit("Bool");
    reveal_strlit("Nil");
    reveal_strlit("List");
    reveal_strlit("Macro");
    reveal_strlit("MacroCall");
    reveal_strlit("Quote");
    reveal_strlit("Quasiquote");
    reveal_strlit("Unquote");
    reveal_strlit("Splice");
    reveal_strlit("Gensym");

    let a = "{\"String\":"@;
    assert(w == (a + jstr(x)) + "}"@);
    lemma_raw_escape("String"@);
    assert(w.subrange(1, 9) =~= jstr("String"@)) by {
        assert(forall|q: int| 0 <= q < a.len() ==> #[trigger] w[q] == a[q]);
    }
    lemma_tag_parse(s, i, w, "String"@);
    assert(s[i + 9] == ':') by {
        assert(w[9] == a[9]);
    }
    assert forall|q: int| 0 <= q < jstr(x).len() implies #[trigger] w[10 + q] == jstr(
        x,
    )[q] by {
        assert(((a + jstr(x)) + "}"@)[10 + q] == (a + jstr(x))[10 + q]);
        assert((a + jstr(x))[10 + q] == jstr(x)[q]);
    }
    assert forall|q: int| 0 <= q < jstr(x).len() implies #[trigger] s.subrange(
        i + 10,
        i + 10 + jstr(x).len() as int,
    )[q] == jstr(x)[q] by {
        assert(s.subrange(i + 10, i + 10 + jstr(x).len() as int)[q] == s[i + 10 + q]);
        assert(s[i + 10 + q] == w[10 + q]);
    }
    assert(s.subrange(i + 10, i + 10 + jstr(x).len() as int) =~= jstr(x));
    lemma_jstring_roundtrip(s, i + 10, x);
    assert(w[10 + jstr(x).len() as int] == '}') by {
        assert(((a + jstr(x)) + "}"@)[(a + jstr(x)).len() as int] == "}"@[0]);
    }
}

#[verifier::rlimit(100)]
#[verifier::spinoff_prover]
proof fn lemma_parse_ser_gensym(s: Seq<char>, i: int, t: TermV)
    requires
        (t is Gensym),
        crate::ast::wf_term(t),
        0 <= i,
        i + ser_spec(t).len() <= s.len(),
        s.subrange(i, i + ser_spec(t).len()) == ser_spec(t),
    ensures
        parse_ir(s, i) == Some((t, i + ser_spec(t).len())),
    decreases crate::macro_expander::term_size(t), 0int,
{
    let x = t->Gensym_0;
    let w = ser_spec(t);
    lemma_ser_first(t);
    lemma_window(s, i, w, 0, w.len() as int);
    reveal_strlit("\"");
    reveal_strlit("}");
    reveal_strlit("}}");
    reveal_strlit("{\"Gensym\":");
    reveal_strlit("Number");
    reveal_strlit("Symbol");
    reveal_strlit("String");
    reveal_strlit("Bool");
    reveal_strlit("Nil");
    reveal_strlit("List");
    reveal_strlit("Macro");
    reveal_strlit("MacroCall");
    reveal_strlit("Quote");
    reveal_strlit("Quasiquote");
    reveal_strlit("Unquote");
    reveal_strlit("Splice");
    reveal_strlit("Gensym");

    let a = "{\"Gensym\":"@;
    assert(w == (a + jstr(x)) + "}"@);
    lemma_raw_escape("Gensym"@);
    assert(w.subrange(1, 9) =~= jstr("Gensym"@)) by {
        assert(forall|q: int| 0 <= q < a.len() ==> #[trigger] w[q] == a[q]);
    }
    lemma_tag_parse(s, i, w, "Gensym"@);
    assert(s[i + 9] == ':') by {
        assert(w[9] == a[9]);
    }
    assert forall|q: int| 0 <= q < jstr(x).len() implies #[trigger] w[10 + q] == jstr(
        x,
    )[q] by {
        assert(((a + jstr(x)) + "}"@)[10 + q] == (a + jstr(x))[10 + q]);
        assert((a + jstr(x))[10 + q] == jstr(x)[q]);
    }
    assert forall|q: int| 0 <= q < jstr(x).len() implies #[trigger] s.subrange(
        i + 10,
        i + 10 + jstr(x).len() as int,
    )[q] == jstr(x)[q] by {
        assert(s.subrange(i + 10, i + 10 + jstr(x).len() as int)[q] == s[i + 10 + q]);
        assert(s[i + 10 + q] == w[10 + q]);
    }
    assert(s.subrange(i + 10, i + 10 + jstr(x).len() as int) =~= jstr(x));
    lemma_jstring_roundtrip(s, i + 10, x);
    assert(w[10 + jstr(x).len() as int] == '}') by {
        assert(((a + jstr(x)) + "}"@)[(a + jstr(x)).len() as int] == "}"@[0]);
    }
}

#[verifier::rlimit(100)]
#[verifier::spinoff_prover]
proof fn lemma_parse_ser_bool(s: Seq<char>, i: int, t: TermV)
    requires
        (t is Bool),
        crate::ast::wf_term(t),
        0 <= i,
        i + ser_spec(t).len() <= s.len(),
        s.subrange(i, i + ser_spec(t).len()) == ser_spec(t),
    ensures
        parse_ir(s, i) == Some((t, i + ser_spec(t).len())),
    decreases crate::macro_expander::term_size(t), 0int,
{
    let b = t->Bool_0;
    let w = ser_spec(t);
    lemma_ser_first(t);
    lemma_window(s, i, w, 0, w.len() as int);
    reveal_strlit("\"");
    reveal_strlit("}");
    reveal_strlit("}}");
    reveal_strlit("{\"Bool\":true}");
    reveal_strlit("{\"Bool\":false}");
    reveal_strlit("Number");
    reveal_strlit("Symbol");
    reveal_strlit("String");
    reveal_strlit("Bool");
    reveal_strlit("Nil");
    reveal_strlit("List");
    reveal_strlit("Macro");
    reveal_strlit("MacroCall");
    reveal_strlit("Quote");
    reveal_strlit("Quasiquote");
    reveal_strlit("Unquote");
    reveal_strlit("Splice");
    reveal_strlit("Gensym");
    reveal_strlit(":true}");
    reveal_strlit(":false}");

    lemma_raw_escape("Bool"@);
    assert(w.subrange(1, 7) =~= jstr("Bool"@));
    lemma_tag_parse(s, i, w, "Bool"@);
    if b {
        assert(s.subrange(i + 7, i + 13) =~= ":true}"@) by {
            lemma_window(s, i, w, 7, 13);
        }
    } else {
        assert(s.subrange(i + 7, i + 14) =~= ":false}"@) by {
            lemma_window(s, i, w, 7, 14);
        }
        assert(!match_at(s, i + 7, ":true}"@)) by {
            assert(s[i + 8] == 'f') by {
                assert(s.subrange(i + 7, i + 14)[1] == s[i + 8]);
            }
            if match_at(s, i + 7, ":true}"@) {
                assert(s.subrange(i + 7, i + 13)[1] == s[i + 8]);
            }
        }
    }
}

#[verifier::rlimit(100)]
#[verifier::spinoff_prover]
proof fn lemma_parse_ser_list(s: Seq<char>, i: int, t: TermV)
    requires
        (t is List),
        crate::ast::wf_term(t),
        0 <= i,
        i + ser_spec(t).len() <= s.len(),
        s.subrange(i, i + ser_spec(t).len()) == ser_spec(t),
    ensures
        parse_ir(s, i) == Some((t, i + ser_spec(t).len())),
    decreases crate::macro_expander::term_size(t), 0int,
{
    let es = t->List_0;
    let w = ser_spec(t);
    lemma_ser_first(t);
    lemma_window(s, i, w, 0, w.len() as int);
    reveal_strlit("\"");
    reveal_strlit("}");
    reveal_strlit("}}");
    reveal_strlit("{\"List\":[");
    reveal_strlit("Number");
    reveal_strlit("Symbol");
    reveal_strlit("String");
    reveal_strlit("Bool");
    reveal_strlit("Nil");
    reveal_strlit("List");
    reveal_strlit("Macro");
    reveal_strlit("MacroCall");
    reveal_strlit("Quote");
    reveal_strlit("Quasiquote");
    reveal_strlit("Unquote");
    reveal_strlit("Splice");
    reveal_strlit("Gensym");
    reveal_strlit("]}");

    let a = "{\"List\":["@;
    lemma_raw_escape("List"@);
    if es.len() == 0 {
        assert(ser_items(es) =~= Seq::<char>::empty());
        assert(w =~= a + "]}"@);
        assert(w.subrange(1, 7) =~= jstr("List"@));
        lemma_tag_parse(s, i, w, "List"@);
        assert(s[i + 7] == ':' && s[i + 8] == '[' && s[i + 9] == ']' && s[i + 10] == '}') by {
            assert((a + "]}"@)[7] == a[7]);
            assert((a + "]}"@)[8] == a[8]);
            assert((a + "]}"@)[9] == "]}"@[0]);
            assert((a + "]}"@)[10] == "]}"@[1]);
        }
        assert(t == TermV::List(Seq::<TermV>::empty())) by {
            assert(es =~= Seq::<TermV>::empty());
        }
    } else {
        let items = ser_items(es);
        assert(w == (a + items) + "]}"@);
        assert(w.subrange(1, 7) =~= jstr("List"@)) by {
            assert(forall|q: int| 0 <= q < a.len() ==> #[trigger] w[q] == a[q]);
        }
        lemma_tag_parse(s, i, w, "List"@);
        assert(s[i + 7] == ':' && s[i + 8] == '[') by {
            assert(((a + items) + "]}"@)[7] == (a + items)[7]);
            assert((a + items)[7] == a[7]);
            assert(((a + items) + "]}"@)[8] == (a + items)[8]);
            assert((a + items)[8] == a[8]);
        }
        assert(forall|q: int| 0 <= q < items.len() ==> #[trigger] w[9 + q] == items[q])
            by {
            assert(forall|q: int| 0 <= q < items.len() ==> #[trigger] ((a + items)
                + "]}"@)[9 + q] == (a + items)[9 + q]);
        }
        assert(w[9 + items.len() as int] == ']' && w[10 + items.len() as int] == '}')
            by {
            assert(((a + items) + "]}"@)[(a + items).len() as int] == "]}"@[0]);
            assert(((a + items) + "]}"@)[(a + items).len() as int + 1] == "]}"@[1]);
        }
        // A term's own text never begins with the closing bracket.
        lemma_ser_first(es[0]);
        assert(items[0] == ser_spec(es[0])[0]) by {
            if es.len() > 1 {
                assert(items == (ser_spec(es[0]) + ","@) + ser_items(es.drop_first()));
                assert(((ser_spec(es[0]) + ","@) + ser_items(es.drop_first()))[0]
                    == (ser_spec(es[0]) + ","@)[0]);
            }
        }
        assert(s[i + 9] == items[0]) by {
            assert(w[9 + 0int] == items[0]);
            assert(s[i + 9] == w[9]);
        }
        assert(s[i + 9] != ']');
        assert forall|q: int| 0 <= q < items.len() implies #[trigger] s.subrange(
            i + 9,
            i + 9 + items.len() as int,
        )[q] == items[q] by {
            assert(s.subrange(i + 9, i + 9 + items.len() as int)[q] == s[i + 9 + q]);
            assert(s[i + 9 + q] == w[9 + q]);
        }
        assert(s.subrange(i + 9, i + 9 + items.len() as int) =~= items);
        crate::macro_expander::lemma_seq_size_first(es);
        lemma_items_roundtrip(s, i + 9, es);
    }
}

#[verifier::rlimit(100)]
#[verifier::spinoff_prover]
proof fn lemma_parse_ser_quote(s: Seq<char>, i: int, t: TermV)
    requires
        (t is Quote),
        crate::ast::wf_term(t),
        0 <= i,
        i + ser_spec(t).len() <= s.len(),
        s.subrange(i, i + ser_spec(t).len()) == ser_spec(t),
    ensures
        parse_ir(s, i) == Some((t, i + ser_spec(t).len())),
    decreases crate::macro_expander::term_size(t), 0int,
{
    let e = t->Quote_0;
    let w = ser_spec(t);
    lemma_ser_first(t);
    lemma_window(s, i, w, 0, w.len() as int);
    reveal_strlit("\"");
    reveal_strlit("}");
    reveal_strlit("}}");
    reveal_strlit("{\"Quote\":");
    reveal_strlit("Number");
    reveal_strlit("Symbol");
    reveal_strlit("String");
    reveal_strlit("Bool");
    reveal_strlit("Nil");
    reveal_strlit("List");
    reveal_strlit("Macro");
    reveal_strlit("MacroCall");
    reveal_strlit("Quote");
    reveal_strlit("Quasiquote");
    reveal_strlit("Unquote");
    reveal_strlit("Splice");
    reveal_strlit("Gensym");

    let a = "{\"Quote\":"@;
    assert(w == (a + ser_spec(*e)) + "}"@);
    lemma_raw_escape("Quote"@);
    assert(w.subrange(1, 8) =~= jstr("Quote"@)) by {
        assert(forall|q: int| 0 <= q < a.len() ==> #[trigger] w[q] == a[q]);
    }
    lemma_tag_parse(s, i, w, "Quote"@);
    assert(s[i + 8] == ':') by {
        assert(w[8] == a[8]);
    }
    assert forall|q: int| 0 <= q < ser_spec(*e).len() implies #[trigger] w[9 + q]
        == ser_spec(*e)[q] by {
        assert(((a + ser_spec(*e)) + "}"@)[9 + q] == (a + ser_spec(*e))[9 + q]);
        assert((a + ser_spec(*e))[9 + q] == ser_spec(*e)[q]);
    }
    assert forall|q: int| 0 <= q < ser_spec(*e).len() implies #[trigger] s.subrange(
        i + 9,
        i + 9 + ser_spec(*e).len() as int,
    )[q] == ser_spec(*e)[q] by {
        assert(s.subrange(i + 9, i + 9 + ser_spec(*e).len() as int)[q] == s[i
            + 9 + q]);
        assert(s[i + 9 + q] == w[9 + q]);
    }
    assert(s.subrange(i + 9, i + 9 + ser_spec(*e).len() as int) =~= ser_spec(*e));
    lemma_parse_ser(s, i + 9, *e);
    assert(w[9 + ser_spec(*e).len() as int] == '}') by {
        assert(((a + ser_spec(*e)) + "}"@)[(a + ser_spec(*e)).len() as int] == "}"@[0]);
    }
}

#[verifier::rlimit(100)]
#[verifier::spinoff_prover]
proof fn lemma_parse_ser_quasiquote(s: Seq<char>, i: int, t: TermV)
    requires
        (t is Quasiquote),
        crate::ast::wf_term(t),
        0 <= i,
        i + ser_spec(t).len() <= s.len(),
        s.subrange(i, i + ser_spec(t).len()) == ser_spec(t),
    ensures
        parse_ir(s, i) == Some((t, i + ser_spec(t).len())),
    decreases crate::macro_expander::term_size(t), 0int,
{
    let e = t->Quasiquote_0;
    let w = ser_spec(t);
    lemma_ser_first(t);
    lemma_window(s, i, w, 0, w.len() as int);
    reveal_strlit("\"");
    reveal_strlit("}");
    reveal_strlit("}}");
    reveal_strlit("{\"Quasiquote\":");
    reveal_strlit("Number");
    reveal_strlit("Symbol");
    reveal_strlit("String");
    reveal_strlit("Bool");
    reveal_strlit("Nil");
    reveal_strlit("List");
    reveal_strlit("Macro");
    reveal_strlit("MacroCall");
    reveal_strlit("Quote");
    reveal_strlit("Quasiquote");
    reveal_strlit("Unquote");
    reveal_strlit("Splice");
    reveal_strlit("Gensym");

    let a = "{\"Quasiquote\":"@;
    assert(w == (a + ser_spec(*e)) + "}"@);
    lemma_raw_escape("Quasiquote"@);
    assert(w.subrange(1, 13) =~= jstr("Quasiquote"@)) by {
        assert(forall|q: int| 0 <= q < a.len() ==> #[trigger] w[q] == a[q]);
    }
    lemma_tag_parse(s, i, w, "Quasiquote"@);
    assert(s[i + 13] == ':') by {
        assert(w[13] == a[13]);
    }
    assert forall|q: int| 0 <= q < ser_spec(*e).len() implies #[trigger] w[14 + q]
        == ser_spec(*e)[q] by {
        assert(((a + ser_spec(*e)) + "}"@)[14 + q] == (a + ser_spec(*e))[14 + q]);
        assert((a + ser_spec(*e))[14 + q] == ser_spec(*e)[q]);
    }
    assert forall|q: int| 0 <= q < ser_spec(*e).len() implies #[trigger] s.subrange(
        i + 14,
        i + 14 + ser_spec(*e).len() as int,
    )[q] == ser_spec(*e)[q] by {
        assert(s.subrange(i + 14, i + 14 + ser_spec(*e).len() as int)[q] == s[i
            + 14 + q]);
        assert(s[i + 14 + q] == w[14 + q]);
    }
    assert(s.subrange(i + 14, i + 14 + ser_spec(*e).len() as int) =~= ser_spec(*e));
    lemma_parse_ser(s, i + 14, *e);
    assert(w[14 + ser_spec(*e).len() as int] == '}') by {
        assert(((a + ser_spec(*e)) + "}"@)[(a + ser_spec(*e)).len() as int] == "}"@[0]);
    }
}

#[verifier::rlimit(100)]
#[verifier::spinoff_prover]
proof fn lemma_parse_ser_unquote(s: Seq<char>, i: int, t: TermV)
    requires
        (t is Unquote),
        crate::ast::wf_term(t),
        0 <= i,
        i + ser_spec(t).len() <= s.len(),
        s.subrange(i, i + ser_spec(t).len()) == ser_spec(t),
    ensures
        parse_ir(s, i) == Some((t, i + ser_spec(t).len())),
    decreases crate::macro_expander::term_size(t), 0int,
{
    let e = t->Unquote_0;
    let w = ser_spec(t);
    lemma_ser_first(t);
    lemma_window(s, i, w, 0, w.len() as int);
    reveal_strlit("\"");
    reveal_strlit("}");
    reveal_strlit("}}");
    reveal_strlit("{\"Unquote\":");
    reveal_strlit("Number");
    reveal_strlit("Symbol");
    reveal_strlit("String");
    reveal_strlit("Bool");
    reveal_strlit("Nil");
    reveal_strlit("List");
    reveal_strlit("Macro");
    reveal_strlit("MacroCall");
    reveal_strlit("Quote");
    reveal_strlit("Quasiquote");
    reveal_strlit("Unquote");
    reveal_strlit("Splice");
    reveal_strlit("Gensym");

    let a = "{\"Unquote\":"@;
    assert(w == (a + ser_spec(*e)) + "}"@);
    lemma_raw_escape("Unquote"@);
    assert(w.subrange(1, 10) =~= jstr("Unquote"@)) by {
        assert(forall|q: int| 0 <= q < a.len() ==> #[trigger] w[q] == a[q]);
    }
    lemma_tag_parse(s, i, w, "Unquote"@);
    assert(s[i + 10] == ':') by {
        assert(w[10] == a[10]);
    }
    assert forall|q: int| 0 <= q < ser_spec(*e).len() implies #[trigger] w[11 + q]
        == ser_spec(*e)[q] by {
        assert(((a + ser_spec(*e)) + "}"@)[11 + q] == (a + ser_spec(*e))[11 + q]);
        assert((a + ser_spec(*e))[11 + q] == ser_spec(*e)[q]);
    }
    assert forall|q: int| 0 <= q < ser_spec(*e).len() implies #[trigger] s.subrange(
        i + 11,
        i + 11 + ser_spec(*e).len() as int,
    )[q] == ser_spec(*e)[q] by {
        assert(s.subrange(i + 11, i + 11 + ser_spec(*e).len() as int)[q] == s[i
            + 11 + q]);
        assert(s[i + 11 + q] == w[11 + q]);
    }
    assert(s.subrange(i + 11, i + 11 + ser_spec(*e).len() as int) =~= ser_spec(*e));
    lemma_parse_ser(s, i + 11, *e);
    assert(w[11 + ser_spec(*e).len() as int] == '}') by {
        assert(((a + ser_spec(*e)) + "}"@)[(a + ser_spec(*e)).len() as int] == "}"@[0]);
    }
}

#[verifier::rlimit(100)]
#[verifier::spinoff_prover]
proof fn lemma_parse_ser_splice(s: Seq<char>, i: int, t: TermV)
    requires
        (t is Splice),
        crate::ast::wf_term(t),
        0 <= i,
        i + ser_spec(t).len() <= s.len(),
        s.subrange(i, i + ser_spec(t).len()) == ser_spec(t),
    ensures
        parse_ir(s, i) == Some((t, i + ser_spec(t).len())),
    decreases crate::macro_expander::term_size(t), 0int,
{
    let e = t->Splice_0;
    let w = ser_spec(t);
    lemma_ser_first(t);
    lemma_window(s, i, w, 0, w.len() as int);
    reveal_strlit("\"");
    reveal_strlit("}");
    reveal_strlit("}}");
    reveal_strlit("{\"Splice\":");
    reveal_strlit("Number");
    reveal_strlit("Symbol");
    reveal_strlit("String");
    reveal_strlit("Bool");
    reveal_strlit("Nil");
    reveal_strlit("List");
    reveal_strlit("Macro");
    reveal_strlit("MacroCall");
    reveal_strlit("Quote");
    reveal_strlit("Quasiquote");
    reveal_strlit("Unquote");
    reveal_strlit("Splice");
    reveal_strlit("Gensym");

    let a = "{\"Splice\":"@;
    assert(w == (a + ser_spec(*e)) + "}"@);
    lemma_raw_escape("Splice"@);
    assert(w.subrange(1, 9) =~= jstr("Splice"@)) by {
        assert(forall|q: int| 0 <= q < a.len() ==> #[trigger] w[q] == a[q]);
    }
    lemma_tag_parse(s, i, w, "Splice"@);
    assert(s[i + 9] == ':') by {
        assert(w[9] == a[9]);
    }
    assert forall|q: int| 0 <= q < ser_spec(*e).len() implies #[trigger] w[10 + q]
        == ser_spec(*e)[q] by {
        assert(((a + ser_spec(*e)) + "}"@)[10 + q] == (a + ser_spec(*e))[10 + q]);
        assert((a + ser_spec(*e))[10 + q] == ser_spec(*e)[q]);
    }
    assert forall|q: int| 0 <= q < ser_spec(*e).len() implies #[trigger] s.subrange(
        i + 10,
        i + 10 + ser_spec(*e).len() as int,
    )[q] == ser_spec(*e)[q] by {
        assert(s.subrange(i + 10, i + 10 + ser_spec(*e).len() as int)[q] == s[i
            + 10 + q]);
        assert(s[i + 10 + q] == w[10 + q]);
    }
    assert(s.subrange(i + 10, i + 10 + ser_spec(*e).len() as int) =~= ser_spec(*e));
    lemma_parse_ser(s, i + 10, *e);
    assert(w[10 + ser_spec(*e).len() as int] == '}') by {
        assert(((a + ser_spec(*e)) + "}"@)[(a + ser_spec(*e)).len() as int] == "}"@[0]);
    }
}

#[verifier::rlimit(100)]
#[verifier::spinoff_prover]
proof fn lemma_parse_ser_macrocall(s: Seq<char>, i: int, t: TermV)
    requires
        (t is MacroCall),
        crate::ast::wf_term(t),
        0 <= i,
        i + ser_spec(t).len() <= s.len(),
        s.subrange(i, i + ser_spec(t).len()) == ser_spec(t),
    ensures
        parse_ir(s, i) == Some((t, i + ser_spec(t).len())),
    decreases crate::macro_expander::term_size(t), 0int,
{
    let name = t->MacroCall_name;
    let args = t->MacroCall_args;
    let w = ser_spec(t);
    lemma_ser_first(t);
    lemma_window(s, i, w, 0, w.len() as int);
    reveal_strlit("\"");
    reveal_strlit("}");
    reveal_strlit("}}");
    reveal_strlit("{\"MacroCall\":{\"name\":");
    reveal_strlit("Number");
    reveal_strlit("Symbol");
    reveal_strlit("String");
    reveal_strlit("Bool");
    reveal_strlit("Nil");
    reveal_strlit("List");
    reveal_strlit("Macro");
    reveal_strlit("MacroCall");
    reveal_strlit("Quote");
    reveal_strlit("Quasiquote");
    reveal_strlit("Unquote");
    reveal_strlit("Splice");
    reveal_strlit("Gensym");
    reveal_strlit(":{\"name\":");
    reveal_strlit(",\"args\":[");
    reveal_strlit("]}}");

    let a = "{\"MacroCall\":{\"name\":"@;
    let b = ",\"args\":["@;
    let items = ser_items(args);
    let p1 = a + jstr(name);
    let p2 = (p1 + b) + items;
    assert(w == p2 + "]}}"@);
    lemma_raw_escape("MacroCall"@);
    assert(w.subrange(1, 12) =~= jstr("MacroCall"@)) by {
        assert(forall|q: int| 0 <= q < a.len() ==> #[trigger] w[q] == a[q]) by {
            assert(forall|q: int| 0 <= q < a.len() ==> (p2 + "]}}"@)[q] == p2[q]
                && #[trigger] p2[q] == ((p1 + b) + items)[q] && (p1 + b)[q] == p1[q]
                && p1[q] == a[q]);
        }
    }
    lemma_tag_parse(s, i, w, "MacroCall"@);
    assert(s.subrange(i + 12, i + 21) =~= ":{\"name\":"@) by {
        assert(forall|q: int| 12 <= q < 21 ==> #[trigger] w[q] == a[q]) by {
            assert(forall|q: int| 12 <= q < 21 ==> (p2 + "]}}"@)[q] == p2[q]
                && #[trigger] p2[q] == ((p1 + b) + items)[q] && (p1 + b)[q] == p1[q]
                && p1[q] == a[q]);
        }
        lemma_window(s, i, w, 12, 21);
    }
    let jn = i + 21;
    assert forall|q: int| 0 <= q < jstr(name).len() implies w[21 + q] == #[trigger] jstr(
        name,
    )[q] by {
        assert((p2 + "]}}"@)[21 + q] == p2[21 + q]);
        assert(p2[21 + q] == ((p1 + b) + items)[21 + q]);
        assert((p1 + b)[21 + q] == p1[21 + q]);
        assert(p1[21 + q] == jstr(name)[q]);
    }
    lemma_piece(s, i, w, 21, jstr(name));
    lemma_jstring_roundtrip(s, jn, name);
    let k1 = jn + jstr(name).len() as int;
    assert(k1 == i + p1.len());
    assert forall|q: int| 0 <= q < b.len() implies w[p1.len() + q] == #[trigger] b[q] by {
        assert((p2 + "]}}"@)[p1.len() + q] == p2[p1.len() + q]);
        assert(p2[p1.len() + q] == ((p1 + b) + items)[p1.len() + q]);
        assert(((p1 + b) + items)[p1.len() + q] == (p1 + b)[p1.len() + q]);
        assert((p1 + b)[p1.len() + q] == b[q]);
    }
    lemma_piece(s, i, w, p1.len() as int, b);
    assert(s.subrange(k1, k1 + 9) =~= b);
    let k2 = k1 + 9;
    assert(k2 == i + (p1 + b).len());
    assert forall|q: int| 0 <= q < items.len() implies w[(p1 + b).len() + q] == #[trigger] items[q]
        by {
        assert((p2 + "]}}"@)[(p1 + b).len() + q] == p2[(p1 + b).len() + q]);
        assert(p2[(p1 + b).len() + q] == items[q]);
    }
    lemma_piece(s, i, w, (p1 + b).len() as int, items);
    assert(forall|q: int| 0 <= q < items.len() ==> s[k2 + q] == #[trigger] items[q]);
    assert forall|q: int| 0 <= q < 3 implies w[p2.len() + q] == #[trigger] "]}}"@[q] by {
        assert((p2 + "]}}"@)[p2.len() + q] == "]}}"@[q]);
    }
    lemma_piece(s, i, w, p2.len() as int, "]}}"@);
    assert(s[k2 + items.len()] == ']' && s[k2 + items.len() + 1] == '}' && s[k2
        + items.len() + 2] == '}') by {
        assert(s[i + p2.len() + 0int] == "]}}"@[0]);
        assert(s[i + p2.len() + 1] == "]}}"@[1]);
        assert(s[i + p2.len() + 2] == "]}}"@[2]);
    }
    if args.len() == 0 {
        assert(items =~= Seq::<char>::empty());
        assert(s[k2] == ']');
        assert(t == TermV::MacroCall { name, args: Seq::<TermV>::empty() }) by {
            assert(args =~= Seq::<TermV>::empty());
        }
        assert(s.subrange(k2 + 1, k2 + 3) =~= "}}"@) by {
            reveal_strlit("}}");
            assert(s.subrange(k2 + 1, k2 + 3)[0] == s[k2 + 1]);
            assert(s.subrange(k2 + 1, k2 + 3)[1] == s[k2 + 2]);
        }
    } else {
        lemma_ser_first(args[0]);
        assert(items[0] == ser_spec(args[0])[0]) by {
            if args.len() > 1 {
                assert(items == (ser_spec(args[0]) + ","@) + ser_items(
                    args.drop_first(),
                ));
                assert(((ser_spec(args[0]) + ","@) + ser_items(args.drop_first()))[0]
                    == (ser_spec(args[0]) + ","@)[0]);
            }
        }
        assert(s[k2] != ']') by {
            assert(s[k2 + 0int] == items[0]);
        }
        assert(s.subrange(k2, k2 + items.len() as int) =~= items) by {
            assert(forall|q: int| 0 <= q < items.len() ==> #[trigger] s.subrange(
                k2,
                k2 + items.len() as int,
            )[q] == s[k2 + q]);
        }
        crate::macro_expander::lemma_seq_size_first(args);
        lemma_items_roundtrip(s, k2, args);
        let k3 = k2 + items.len() as int + 1;
        assert(s.subrange(k3, k3 + 2) =~= "}}"@) by {
            reveal_strlit("}}");
            assert(s.subrange(k3, k3 + 2)[0] == s[k3]);
            assert(s.subrange(k3, k3 + 2)[1] == s[k3 + 1]);
        }
    }
}

#[verifier::rlimit(100)]
#[verifier::spinoff_prover]
proof fn lemma_parse_ser_macro(s: Seq<char>, i: int, t: TermV)
    requires
        (t is Macro),
        crate::ast::wf_term(t),
        0 <= i,
        i + ser_spec(t).len() <= s.len(),
        s.subrange(i, i + ser_spec(t).len()) == ser_spec(t),
    ensures
        parse_ir(s, i) == Some((t, i + ser_spec(t).len())),
    decreases crate::macro_expander::term_size(t), 0int,
{
    let name = t->Macro_name;
    let parameters = t->Macro_parameters;
    let body = t->Macro_body;
    let w = ser_spec(t);
    lemma_ser_first(t);
    lemma_window(s, i, w, 0, w.len() as int);
    reveal_strlit("\"");
    reveal_strlit("}");
    reveal_strlit("}}");
    reveal_strlit("{\"Macro\":{\"name\":");
    reveal_strlit("Number");
    reveal_strlit("Symbol");
    reveal_strlit("String");
    reveal_strlit("Bool");
    reveal_strlit("Nil");
    reveal_strlit("List");
    reveal_strlit("Macro");
    reveal_strlit("MacroCall");
    reveal_strlit("Quote");
    reveal_strlit("Quasiquote");
    reveal_strlit("Unquote");
    reveal_strlit("Splice");
    reveal_strlit("Gensym");
    reveal_strlit(",\"parameters\":[");
    reveal_strlit("],\"body\":");
    reveal_strlit(",\"body\":");
    reveal_strlit(":{\"name\":");

    let a = "{\"Macro\":{\"name\":"@;
    let b = ",\"parameters\":["@;
    let c = "],\"body\":"@;
    let names = ser_names(parameters);
    let p1 = a + jstr(name);
    let p2 = (p1 + b) + names;
    let p3 = (p2 + c) + ser_spec(*body);
    assert(w == p3 + "}}"@);
    lemma_raw_escape("Macro"@);
    assert(forall|q: int| 0 <= q < p1.len() ==> #[trigger] w[q] == p1[q]) by {
        assert(forall|q: int| 0 <= q < p1.len() ==> (p3 + "}}"@)[q] == p3[q]
            && #[trigger] p3[q] == ((p2 + c) + ser_spec(*body))[q] && (p2 + c)[q]
            == p2[q] && p2[q] == ((p1 + b) + names)[q] && (p1 + b)[q] == p1[q]);
    }
    assert(w.subrange(1, 8) =~= jstr("Macro"@)) by {
        assert(forall|q: int| 0 <= q < a.len() ==> #[trigger] p1[q] == a[q]);
    }
    lemma_tag_parse(s, i, w, "Macro"@);
    assert(s.subrange(i + 8, i + 17) =~= ":{\"name\":"@) by {
        assert(forall|q: int| 8 <= q < 17 ==> #[trigger] p1[q] == a[q]);
        lemma_window(s, i, w, 8, 17);
    }
    let jn = i + 17;
    assert forall|q: int| 0 <= q < jstr(name).len() implies w[17 + q] == #[trigger] jstr(
        name,
    )[q] by {
        assert(p1[17 + q] == jstr(name)[q]);
        assert(w[17 + q] == p1[17 + q]);
    }
    lemma_piece(s, i, w, 17, jstr(name));
    lemma_jstring_roundtrip(s, jn, name);
    let k1 = jn + jstr(name).len() as int;
    assert(forall|q: int| 0 <= q < b.len() + names.len() ==> #[trigger] w[p1.len() + q]
        == ((p1 + b) + names)[p1.len() + q]) by {
        assert(forall|q: int| 0 <= q < b.len() + names.len() ==> (p3 + "}}"@)[p1.len()
            + q] == p3[p1.len() + q] && #[trigger] p3[p1.len() + q] == ((p2 + c)
            + ser_spec(*body))[p1.len() + q] && (p2 + c)[p1.len() + q] == p2[p1.len()
            + q]);
    }
    assert(k1 == i + p1.len());
    assert forall|q: int| 0 <= q < b.len() implies w[p1.len() + q] == #[trigger] b[q] by {
        assert(((p1 + b) + names)[p1.len() + q] == (p1 + b)[p1.len() + q]);
        assert((p1 + b)[p1.len() + q] == b[q]);
    }
    lemma_piece(s, i, w, p1.len() as int, b);
    assert(s.subrange(k1, k1 + 15) =~= b);
    let k2 = k1 + 15;
    assert forall|q: int| 0 <= q < names.len() implies w[(p1 + b).len() + q] == #[trigger] names[q]
        by {
        assert(((p1 + b) + names)[(p1 + b).len() + q] == names[q]);
    }
    lemma_piece(s, i, w, (p1 + b).len() as int, names);
    assert(k2 == i + (p1 + b).len());
    assert(forall|q: int| 0 <= q < names.len() ==> s[k2 + q] == #[trigger] names[q]);
    assert(forall|q: int| 0 <= q < c.len() ==> #[trigger] w[p2.len() + q] == c[q]) by {
        assert(forall|q: int| 0 <= q < c.len() ==> (p3 + "}}"@)[p2.len() + q]
            == p3[p2.len() + q] && #[trigger] p3[p2.len() + q] == ((p2 + c) + ser_spec(
            *body,
        ))[p2.len() + q] && (p2 + c)[p2.len() + q] == c[q]);
    }
    assert(s[i + p2.len()] == ']') by {
        assert(w[p2.len() + 0int] == c[0]);
    }
    let after_names = k2 + names.len() as int;
    assert(after_names == i + p2.len());
    let k3 = after_names + 1;
    if parameters.len() == 0 {
        assert(names =~= Seq::<char>::empty());
        assert(s[k2] == ']');
    } else {
        lemma_ser_first_name(parameters);
        assert(s[k2] != ']');
        lemma_names_roundtrip(s, k2, parameters);
    }
    assert forall|q: int| 0 <= q < 8 implies w[p2.len() + 1 + q] == #[trigger] ",\"body\":"@[q]
        by {
        assert(w[p2.len() + (1 + q)] == c[1 + q]);
        assert(c[1 + q] == ",\"body\":"@[q]);
    }
    lemma_piece(s, i, w, p2.len() as int + 1, ",\"body\":"@);
    assert(k3 == i + p2.len() + 1);
    assert(s.subrange(k3, k3 + 8) =~= ",\"body\":"@);
    let k4 = k3 + 8;
    assert(k4 == i + (p2 + c).len());
    assert forall|q: int| 0 <= q < ser_spec(*body).len() implies w[(p2 + c).len() + q]
        == #[trigger] ser_spec(*body)[q] by {
        assert((p3 + "}}"@)[(p2 + c).len() + q] == p3[(p2 + c).len() + q]);
        assert(p3[(p2 + c).len() + q] == ser_spec(*body)[q]);
    }
    lemma_piece(s, i, w, (p2 + c).len() as int, ser_spec(*body));
    assert(s.subrange(k4, k4 + ser_spec(*body).len() as int) =~= ser_spec(*body));
    lemma_parse_ser(s, k4, *body);
    let k5 = k4 + ser_spec(*body).len() as int;
    assert forall|q: int| 0 <= q < 2 implies w[p3.len() + q] == #[trigger] "}}"@[q] by {
        assert((p3 + "}}"@)[p3.len() + q] == "}}"@[q]);
    }
    lemma_piece(s, i, w, p3.len() as int, "}}"@);
    assert(k5 == i + p3.len());
    assert(s.subrange(k5, k5 + 2) =~= "}}"@);
}

#[verifier::rlimit(50)]
proof fn lemma_parse_ser(s: Seq<char>, i: int, t: TermV)
    requires
        crate::ast::wf_term(t),
        0 <= i,
        i + ser_spec(t).len() <= s.len(),
        s.subrange(i, i + ser_spec(t).len()) == ser_spec(t),
    ensures
        parse_ir(s, i) == Some((t, i + ser_spec(t).len())),
    decreases crate::macro_expander::term_size(t), 1int,
{
    match t {
        TermV::Number(_) => lemma_parse_ser_number(s, i, t),
        TermV::Symbol(_) => lemma_parse_ser_symbol(s, i, t),
        TermV::String(_) => lemma_parse_ser_string(s, i, t),
        TermV::Bool(_) => lemma_parse_ser_bool(s, i, t),
        TermV::Nil => lemma_parse_ser_nil(s, i, t),
        TermV::List(_) => lemma_parse_ser_list(s, i, t),
        TermV::Macro { .. } => lemma_parse_ser_macro(s, i, t),
        TermV::MacroCall { .. } => lemma_parse_ser_macrocall(s, i, t),
        TermV::Quote(_) => lemma_parse_ser_quote(s, i, t),
        TermV::Quasiquote(_) => lemma_parse_ser_quasiquote(s, i, t),
        TermV::Unquote(_) => lemma_parse_ser_unquote(s, i, t),
        TermV::Splice(_) => lemma_parse_ser_splice(s, i, t),
        TermV::Gensym(_) => lemma_parse_ser_gensym(s, i, t),
    }
}

/// The first name's quote opens a non-empty name list.
proof fn lemma_ser_first_name(ps: Seq<Seq<char>>)
    requires
        ps.len() > 0,
    ensures
        ser_names(ps).len() > 0,
        ser_names(ps)[0] == '"',
    decreases ps.len(),
{
    reveal_strlit("\"");
    if ps.len() == 1 {
        assert(jstr(ps[0])[0] == '"');
    } else {
        assert(ser_names(ps) == (jstr(ps[0]) + ","@) + ser_names(ps.drop_first()));
        assert(((jstr(ps[0]) + ","@) + ser_names(ps.drop_first()))[0] == (jstr(ps[0])
            + ","@)[0]);
        assert((jstr(ps[0]) + ","@)[0] == jstr(ps[0])[0]);
        assert(jstr(ps[0])[0] == '"');
    }
}

/// The IR round trip: reading a term's IR text back yields that term, whole.
pub proof fn lemma_ir_round_trip(t: TermV)
    requires
        crate::ast::wf_term(t),
    ensures
        parse_ir(ser_spec(t), 0) == Some((t, ser_spec(t).len() as int)),
{
    let s = ser_spec(t);
    assert(s.subrange(0, s.len() as int) =~= s);
    lemma_parse_ser(s, 0, t);
}

/// The IR round trip for a whole program: reading the array text back
/// yields the same terms, whole.
pub proof fn lemma_ir_program_round_trip(ts: Seq<TermV>)
    requires
        forall|j: int| 0 <= j < ts.len() ==> crate::ast::wf_term(#[trigger] ts[j]),
    ensures
        parse_ir_program(ser_program_spec(ts)) == Some((ts, ser_program_spec(ts).len() as int)),
{
    let s = ser_program_spec(ts);
    let items = ser_items(ts);
    reveal_strlit("[");
    reveal_strlit("]");
    assert(s == ("["@ + items) + "]"@);
    assert(s[0] == '[') by {
        assert((("["@ + items) + "]"@)[0] == ("["@ + items)[0]);
    }
    assert(s[s.len() as int - 1] == ']') by {
        assert((("["@ + items) + "]"@)[("["@ + items).len() as int] == "]"@[0]);
    }
    if ts.len() == 0 {
        assert(items =~= Seq::<char>::empty());
        assert(s.len() == 2);
        assert(s[1] == ']');
        assert(ts =~= Seq::<TermV>::empty());
    } else {
        assert(forall|q: int| 0 <= q < items.len() ==> #[trigger] s[1 + q] == items[q]) by {
            assert(forall|q: int| 0 <= q < items.len() ==> #[trigger] (("["@ + items)
                + "]"@)[1 + q] == ("["@ + items)[1 + q]);
        }
        lemma_ser_first(ts[0]);
        assert(items[0] == ser_spec(ts[0])[0]) by {
            if ts.len() > 1 {
                assert(items == (ser_spec(ts[0]) + ","@) + ser_items(ts.drop_first()));
                assert(((ser_spec(ts[0]) + ","@) + ser_items(ts.drop_first()))[0] == (ser_spec(
                    ts[0],
                ) + ","@)[0]);
            }
        }
        assert(s[1] != ']');
        assert(s.subrange(1, 1 + items.len() as int) =~= items) by {
            assert(forall|q: int| 0 <= q < items.len() ==> #[trigger] s.subrange(
                1,
                1 + items.len() as int,
            )[q] == s[1 + q]);
        }
        assert(s[1 + items.len() as int] == ']');
        lemma_items_roundtrip(s, 1, ts);
    }
}

} // verus!
