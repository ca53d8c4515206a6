use vstd::prelude::*;
use crate::ast::{LispExpr, TermV, names_view, terms_view};
use crate::macro_expander::{term_size, seq_size, lemma_seq_size_first};
use crate::text::{chars_to_string, dec_digits, str_to_chars, usize_to_string};

verus! {

/// How one character stands inside a DOT label.
pub open spec fn dot_char(c: char) -> Seq<char> {
    if c == '\\' {
        "\\\\"@
    } else if c == '"' {
        "\\\""@
    } else if c == '\n' {
        "\\n"@
    } else if c == '\r' {
        "\\r"@
    } else if c == '\t' {
        "\\t"@
    } else {
        seq![c]
    }
}

/// The text with DOT's special characters escaped.
pub open spec fn dot_text(s: Seq<char>) -> Seq<char>
    decreases s.len(),
{
    if s.len() == 0 {
        Seq::empty()
    } else {
        dot_text(s.drop_last()) + dot_char(s.last())
    }
}

/// Escape special characters for the DOT format.
pub fn escape_dot(s: &str) -> (r: String)
    ensures
        r@ == dot_text(s@),
{
    let chars = str_to_chars(s);
    let mut out: Vec<char> = Vec::new();
    let mut i: usize = 0;
    while i < chars.len()
        invariant
            i <= chars.len(),
            chars@ == s@,
            out@ == dot_text(s@.take(i as int)),
        decreases chars.len() - i,
    {
        proof {
            assert(s@.take(i as int + 1).drop_last() =~= s@.take(i as int));
            assert(s@.take(i as int + 1).last() == s@[i as int]);
            reveal_strlit("\\\\");
            reveal_strlit("\\\"");
            reveal_strlit("\\n");
            reveal_strlit("\\r");
            reveal_strlit("\\t");
        }
        let c = chars[i];
        if c == '\\' {
            out.push('\\');
            out.push('\\');
        } else if c == '"' {
            out.push('\\');
            out.push('"');
        } else if c == '\n' {
            out.push('\\');
            out.push('n');
        } else if c == '\r' {
            out.push('\\');
            out.push('r');
        } else if c == '\t' {
            out.push('\\');
            out.push('t');
        } else {
            out.push(c);
        }
        proof {
            assert(out@ =~= dot_text(s@.take(i as int + 1)));
        }
        i += 1;
    }
    proof {
        assert(s@.take(s@.len() as int) =~= s@);
    }
    chars_to_string(&out)
}

/// How one character stands inside HTML text.
pub open spec fn html_char(c: char) -> Seq<char> {
    if c == '&' {
        "&amp;"@
    } else if c == '<' {
        "&lt;"@
    } else if c == '>' {
        "&gt;"@
    } else if c == '"' {
        "&quot;"@
    } else if c == '\'' {
        "&#39;"@
    } else {
        seq![c]
    }
}

/// The text with HTML's special characters escaped.
pub open spec fn html_text(s: Seq<char>) -> Seq<char>
    decreases s.len(),
{
    if s.len() == 0 {
        Seq::empty()
    } else {
        html_text(s.drop_last()) + html_char(s.last())
    }
}

/// Escape special characters for HTML.
pub fn escape_html(s: &str) -> (r: String)
    ensures
        r@ == html_text(s@),
{
    let chars = str_to_chars(s);
    let mut out = String::new();
    let mut i: usize = 0;
    while i < chars.len()
        invariant
            i <= chars.len(),
            chars@ == s@,
            out@ == html_text(s@.take(i as int)),
        decreases chars.len() - i,
    {
        proof {
            assert(s@.take(i as int + 1).drop_last() =~= s@.take(i as int));
            assert(s@.take(i as int + 1).last() == s@[i as int]);
        }
        let c = chars[i];
        if c == '&' {
            out.append("&amp;");
        } else if c == '<' {
            out.append("&lt;");
        } else if c == '>' {
            out.append("&gt;");
        } else if c == '"' {
            out.append("&quot;");
        } else if c == '\'' {
            out.append("&#39;");
        } else {
            let mut one: Vec<char> = Vec::new();
            one.push(c);
            let piece = chars_to_string(&one);
            out.append(piece.as_str());
            proof {
                assert(one@ =~= seq![c]);
            }
        }
        proof {
            assert(out@ =~= html_text(s@.take(i as int + 1)));
        }
        i += 1;
    }
    proof {
        assert(s@.take(s@.len() as int) =~= s@);
    }
    out
}

// ---------------------------------------------------------------------------
// The DOT visualizer
// ---------------------------------------------------------------------------

/// The name of the node with the given number.
pub open spec fn node_name(n: int) -> Seq<char> {
    "node"@ + dec_digits(n)
}

/// One node statement: its name, label and fill colour.
pub open spec fn dot_node_line(n: int, label: Seq<char>, color: Seq<char>) -> Seq<char> {
    "  "@ + node_name(n) + " [label=\""@ + label + "\", fillcolor=\""@ + color
        + "\", style=\"filled,rounded\"];\n"@
}

/// One labelled edge statement.
pub open spec fn dot_edge_line(from: int, to: int, label: Seq<char>) -> Seq<char> {
    "  "@ + node_name(from) + " -> "@ + node_name(to) + " [label=\""@ + label + "\"];\n"@
}

/// One plain edge statement.
pub open spec fn dot_plain_edge(from: int, to: int) -> Seq<char> {
    "  "@ + node_name(from) + " -> "@ + node_name(to) + ";\n"@
}

/// The names, joined by a comma and a blank.
pub open spec fn comma_names(ps: Seq<Seq<char>>) -> Seq<char>
    decreases ps.len(),
{
    if ps.len() == 0 {
        Seq::empty()
    } else if ps.len() == 1 {
        ps[0]
    } else {
        ps[0] + ", "@ + comma_names(ps.drop_first())
    }
}

/// The DOT text of one term's subtree: its own node statement, then each
/// child's subtree followed by the edge down to it. Node numbers are
/// assigned in traversal order starting at `c`; the pair holds the text
/// and the counter after the subtree.
pub open spec fn dot_expr_spec(t: TermV, c: int) -> (Seq<char>, int)
    decreases term_size(t), 0int,
    via dot_expr_spec_dec
{
    match t {
        TermV::Number(s) => (dot_node_line(c, s, "lightblue"@), c + 1),
        TermV::Symbol(s) => (dot_node_line(c, dot_text(s), "lightgreen"@), c + 1),
        TermV::String(s) => (
            dot_node_line(c, "\\\""@ + dot_text(s) + "\\\""@, "lightyellow"@),
            c + 1,
        ),
        TermV::Bool(b) => (
            dot_node_line(c, if b { "true"@ } else { "false"@ }, "lightcoral"@),
            c + 1,
        ),
        TermV::Nil => (dot_node_line(c, "nil"@, "lightgray"@), c + 1),
        TermV::List(es) => {
            let r = dot_children_spec(es, 0, c, c + 1);
            (dot_node_line(c, "List"@, "wheat"@) + r.0, r.1)
        },
        TermV::Macro { name, parameters, body } => {
            let params_label = dot_text("Parameters: "@ + comma_names(parameters));
            let r = dot_expr_spec(*body, c + 2);
            (
                dot_node_line(c, "Macro: "@ + dot_text(name), "plum"@) + dot_node_line(
                    c + 1,
                    params_label,
                    "thistle"@,
                ) + dot_edge_line(c, c + 1, "params"@) + r.0 + dot_edge_line(c, c + 2, "body"@),
                r.1,
            )
        },
        TermV::MacroCall { name, args } => {
            let r = dot_args_spec(args, 0, c, c + 1);
            (dot_node_line(c, "MacroCall: "@ + dot_text(name), "violet"@) + r.0, r.1)
        },
        TermV::Quote(e) => {
            let r = dot_expr_spec(*e, c + 1);
            (dot_node_line(c, "Quote"@, "lightpink"@) + r.0 + dot_plain_edge(c, c + 1), r.1)
        },
        TermV::Quasiquote(e) => {
            let r = dot_expr_spec(*e, c + 1);
            (
                dot_node_line(c, "Quasiquote"@, "lightsalmon"@) + r.0 + dot_plain_edge(c, c + 1),
                r.1,
            )
        },
        TermV::Unquote(e) => {
            let r = dot_expr_spec(*e, c + 1);
            (
                dot_node_line(c, "Unquote"@, "lightseagreen"@) + r.0 + dot_plain_edge(c, c + 1),
                r.1,
            )
        },
        TermV::Splice(e) => {
            let r = dot_expr_spec(*e, c + 1);
            (
                dot_node_line(c, "Splice"@, "lightsteelblue"@) + r.0 + dot_plain_edge(c, c + 1),
                r.1,
            )
        },
        TermV::Gensym(s) => (dot_node_line(c, "Gensym: "@ + dot_text(s), "lavender"@), c + 1),
    }
}

#[via_fn]
proof fn dot_expr_spec_dec(t: TermV, c: int) {
    match t {
        TermV::List(es) => {
            assert(es.skip(0) =~= es);
        },
        TermV::MacroCall { args, .. } => {
            assert(args.skip(0) =~= args);
        },
        _ => {},
    }
}

/// The DOT text of a List's children from index `i` on, with indexed edge
/// labels.
pub open spec fn dot_children_spec(es: Seq<TermV>, i: int, parent: int, c: int) -> (Seq<char>, int)
    decreases seq_size(es.skip(i)), 1int,
    via dot_children_spec_dec
{
    if i < 0 || i >= es.len() {
        (Seq::empty(), c)
    } else {
        let r = dot_expr_spec(es[i], c);
        let rest = dot_children_spec(es, i + 1, parent, r.1);
        (r.0 + dot_edge_line(parent, c, dec_digits(i)) + rest.0, rest.1)
    }
}

#[via_fn]
proof fn dot_children_spec_dec(es: Seq<TermV>, i: int, parent: int, c: int) {
    if 0 <= i < es.len() {
        lemma_seq_size_first(es.skip(i));
        assert(es.skip(i)[0] == es[i]);
        assert(es.skip(i).drop_first() =~= es.skip(i + 1));
    }
}

/// The DOT text of a MacroCall's arguments from index `i` on.
pub open spec fn dot_args_spec(es: Seq<TermV>, i: int, parent: int, c: int) -> (Seq<char>, int)
    decreases seq_size(es.skip(i)), 1int,
    via dot_args_spec_dec
{
    if i < 0 || i >= es.len() {
        (Seq::empty(), c)
    } else {
        let r = dot_expr_spec(es[i], c);
        let rest = dot_args_spec(es, i + 1, parent, r.1);
        (r.0 + dot_edge_line(parent, c, "arg"@ + dec_digits(i)) + rest.0, rest.1)
    }
}

#[via_fn]
proof fn dot_args_spec_dec(es: Seq<TermV>, i: int, parent: int, c: int) {
    if 0 <= i < es.len() {
        lemma_seq_size_first(es.skip(i));
        assert(es.skip(i)[0] == es[i]);
        assert(es.skip(i).drop_first() =~= es.skip(i + 1));
    }
}

pub open spec fn dot_header() -> Seq<char> {
    "digraph AST {\n"@ + "  node [shape=box, style=rounded];\n"@ + "  rankdir=TB;\n\n"@
}

/// How many node names one subtree consumes.
pub open spec fn dot_count(t: TermV) -> nat
    decreases term_size(t), 0int,
    via dot_count_dec
{
    match t {
        TermV::List(es) => 1 + dot_count_seq(es, 0),
        TermV::Macro { body, .. } => 2 + dot_count(*body),
        TermV::MacroCall { args, .. } => 1 + dot_count_seq(args, 0),
        TermV::Quote(e) => 1 + dot_count(*e),
        TermV::Quasiquote(e) => 1 + dot_count(*e),
        TermV::Unquote(e) => 1 + dot_count(*e),
        TermV::Splice(e) => 1 + dot_count(*e),
        _ => 1,
    }
}

#[via_fn]
proof fn dot_count_dec(t: TermV) {
    match t {
        TermV::List(es) => {
            assert(es.skip(0) =~= es);
        },
        TermV::MacroCall { args, .. } => {
            assert(args.skip(0) =~= args);
        },
        _ => {},
    }
}

pub open spec fn dot_count_seq(es: Seq<TermV>, i: int) -> nat
    decreases seq_size(es.skip(i)), 1int,
    via dot_count_seq_dec
{
    if i < 0 || i >= es.len() {
        0
    } else {
        dot_count(es[i]) + dot_count_seq(es, i + 1)
    }
}

#[via_fn]
proof fn dot_count_seq_dec(es: Seq<TermV>, i: int) {
    if 0 <= i < es.len() {
        lemma_seq_size_first(es.skip(i));
        assert(es.skip(i)[0] == es[i]);
        assert(es.skip(i).drop_first() =~= es.skip(i + 1));
    }
}

/// The counter after a subtree is its start plus the subtree's node count.
pub proof fn lemma_dot_counter(t: TermV, c: int)
    ensures
        dot_expr_spec(t, c).1 == c + dot_count(t),
    decreases term_size(t), 0int,
{
    match t {
        TermV::List(es) => {
            assert(es.skip(0) =~= es);
            lemma_dot_counter_seq(es, 0, c, c + 1);
        },
        TermV::Macro { body, .. } => {
            lemma_dot_counter(*body, c + 2);
        },
        TermV::MacroCall { args, .. } => {
            assert(args.skip(0) =~= args);
            lemma_dot_counter_seq(args, 0, c, c + 1);
        },
        TermV::Quote(e) => {
            lemma_dot_counter(*e, c + 1);
        },
        TermV::Quasiquote(e) => {
            lemma_dot_counter(*e, c + 1);
        },
        TermV::Unquote(e) => {
            lemma_dot_counter(*e, c + 1);
        },
        TermV::Splice(e) => {
            lemma_dot_counter(*e, c + 1);
        },
        _ => {},
    }
}

proof fn lemma_dot_counter_seq(es: Seq<TermV>, i: int, parent: int, c: int)
    ensures
        dot_children_spec(es, i, parent, c).1 == c + dot_count_seq(es, i),
        dot_args_spec(es, i, parent, c).1 == c + dot_count_seq(es, i),
    decreases seq_size(es.skip(i)), 1int,
{
    if 0 <= i < es.len() {
        lemma_seq_size_first(es.skip(i));
        assert(es.skip(i)[0] == es[i]);
        assert(es.skip(i).drop_first() =~= es.skip(i + 1));
        lemma_dot_counter(es[i], c);
        lemma_dot_counter_seq(es, i + 1, parent, dot_expr_spec(es[i], c).1);
    }
}

/// The DOT text of a whole program, threading the counter.
pub open spec fn dot_program_spec(ts: Seq<TermV>, i: int, c: int) -> (Seq<char>, int)
    decreases ts.len() - i,
{
    if i < 0 || i >= ts.len() {
        (Seq::empty(), c)
    } else {
        let r = dot_expr_spec(ts[i], c);
        let rest = dot_program_spec(ts, i + 1, r.1);
        (r.0 + rest.0, rest.1)
    }
}

// ---------------------------------------------------------------------------
// The DOT visualizer, executable
// ---------------------------------------------------------------------------

/// One node statement.
fn node_line(c: usize, label: &str, color: &str) -> (r: String)
    ensures
        r@ == dot_node_line(c as int, label@, color@),
{
    let mut out = "  node".to_owned();
    let d = usize_to_string(c);
    out.append(d.as_str());
    out.append(" [label=\"");
    out.append(label);
    out.append("\", fillcolor=\"");
    out.append(color);
    out.append("\", style=\"filled,rounded\"];\n");
    proof {
        reveal_strlit("  node");
        reveal_strlit("  ");
        reveal_strlit("node");
        assert(out@ =~= dot_node_line(c as int, label@, color@));
    }
    out
}

/// One labelled edge statement.
fn edge_line(from: usize, to: usize, label: &str) -> (r: String)
    ensures
        r@ == dot_edge_line(from as int, to as int, label@),
{
    let mut out = "  node".to_owned();
    let f = usize_to_string(from);
    out.append(f.as_str());
    out.append(" -> node");
    let t = usize_to_string(to);
    out.append(t.as_str());
    out.append(" [label=\"");
    out.append(label);
    out.append("\"];\n");
    proof {
        reveal_strlit("  node");
        reveal_strlit("  ");
        reveal_strlit("node");
        reveal_strlit(" -> node");
        reveal_strlit(" -> ");
        assert(out@ =~= dot_edge_line(from as int, to as int, label@));
    }
    out
}

/// One plain edge statement.
fn plain_edge(from: usize, to: usize) -> (r: String)
    ensures
        r@ == dot_plain_edge(from as int, to as int),
{
    let mut out = "  node".to_owned();
    let f = usize_to_string(from);
    out.append(f.as_str());
    out.append(" -> node");
    let t = usize_to_string(to);
    out.append(t.as_str());
    out.append(";\n");
    proof {
        reveal_strlit("  node");
        reveal_strlit("  ");
        reveal_strlit("node");
        reveal_strlit(" -> node");
        reveal_strlit(" -> ");
        assert(out@ =~= dot_plain_edge(from as int, to as int));
    }
    out
}

/// The DOT text of one subtree and the counter after it.
fn dot_render(t: &LispExpr, c: usize) -> (r: (String, usize))
    requires
        c + dot_count(t@) <= usize::MAX,
    ensures
        r.0@ == dot_expr_spec(t@, c as int).0,
        r.1 as int == dot_expr_spec(t@, c as int).1,
    decreases term_size(t@), 0int,
{
    proof {
        lemma_dot_counter(t@, c as int);
    }
    match t {
        LispExpr::Number(s) => (node_line(c, s.as_str(), "lightblue"), c + 1),
        LispExpr::Symbol(s) => {
            let esc = escape_dot(s.as_str());
            (node_line(c, esc.as_str(), "lightgreen"), c + 1)
        },
        LispExpr::String(s) => {
            let esc = escape_dot(s.as_str());
            let mut label = "\\\"".to_owned();
            label.append(esc.as_str());
            label.append("\\\"");
            proof {
                assert(label@ =~= "\\\""@ + dot_text(s@) + "\\\""@);
            }
            (node_line(c, label.as_str(), "lightyellow"), c + 1)
        },
        LispExpr::Bool(b) => {
            if *b {
                (node_line(c, "true", "lightcoral"), c + 1)
            } else {
                (node_line(c, "false", "lightcoral"), c + 1)
            }
        },
        LispExpr::Nil => (node_line(c, "nil", "lightgray"), c + 1),
        LispExpr::Gensym(s) => {
            let mut label = "Gensym: ".to_owned();
            let esc = escape_dot(s.as_str());
            label.append(esc.as_str());
            (node_line(c, label.as_str(), "lavender"), c + 1)
        },
        LispExpr::List(es) => {
            let mut out = node_line(c, "List", "wheat");
            proof {
                assert(terms_view(es@).skip(0) =~= terms_view(es@));
            }
            let rest = dot_render_elems(es, 0, c, c + 1, false);
            out.append(rest.0.as_str());
            proof {
                assert(out@ =~= dot_expr_spec(t@, c as int).0);
            }
            (out, rest.1)
        },
        LispExpr::MacroCall { name, args } => {
            let mut label = "MacroCall: ".to_owned();
            let esc = escape_dot(name.as_str());
            label.append(esc.as_str());
            let mut out = node_line(c, label.as_str(), "violet");
            proof {
                assert(terms_view(args@).skip(0) =~= terms_view(args@));
            }
            let rest = dot_render_elems(args, 0, c, c + 1, true);
            out.append(rest.0.as_str());
            proof {
                assert(out@ =~= dot_expr_spec(t@, c as int).0);
            }
            (out, rest.1)
        },
        LispExpr::Macro { name, parameters, body } => {
            let mut label = "Macro: ".to_owned();
            let esc = escape_dot(name.as_str());
            label.append(esc.as_str());
            let mut out = node_line(c, label.as_str(), "plum");
            let mut plabel = "Parameters: ".to_owned();
            proof {
                assert(names_view(parameters@).skip(0) =~= names_view(parameters@));
            }
            let joined = join_names(parameters, 0);
            plabel.append(joined.as_str());
            let pesc = escape_dot(plabel.as_str());
            let pline = node_line(c + 1, pesc.as_str(), "thistle");
            out.append(pline.as_str());
            let pedge = edge_line(c, c + 1, "params");
            out.append(pedge.as_str());
            proof {
                lemma_dot_counter((**body)@, c as int + 2);
            }
            let bt = dot_render(body, c + 2);
            out.append(bt.0.as_str());
            let bedge = edge_line(c, c + 2, "body");
            out.append(bedge.as_str());
            proof {
                assert(plabel@ =~= "Parameters: "@ + comma_names(names_view(parameters@)));
                assert(out@ =~= dot_expr_spec(t@, c as int).0);
            }
            (out, bt.1)
        },
        LispExpr::Quote(e) => {
            let mut out = node_line(c, "Quote", "lightpink");
            let inner = dot_render(e, c + 1);
            out.append(inner.0.as_str());
            let edge = plain_edge(c, c + 1);
            out.append(edge.as_str());
            proof {
                assert(out@ =~= dot_expr_spec(t@, c as int).0);
            }
            (out, inner.1)
        },
        LispExpr::Quasiquote(e) => {
            let mut out = node_line(c, "Quasiquote", "lightsalmon");
            let inner = dot_render(e, c + 1);
            out.append(inner.0.as_str());
            let edge = plain_edge(c, c + 1);
            out.append(edge.as_str());
            proof {
                assert(out@ =~= dot_expr_spec(t@, c as int).0);
            }
            (out, inner.1)
        },
        LispExpr::Unquote(e) => {
            let mut out = node_line(c, "Unquote", "lightseagreen");
            let inner = dot_render(e, c + 1);
            out.append(inner.0.as_str());
            let edge = plain_edge(c, c + 1);
            out.append(edge.as_str());
            proof {
                assert(out@ =~= dot_expr_spec(t@, c as int).0);
            }
            (out, inner.1)
        },
        LispExpr::Splice(e) => {
            let mut out = node_line(c, "Splice", "lightsteelblue");
            let inner = dot_render(e, c + 1);
            out.append(inner.0.as_str());
            let edge = plain_edge(c, c + 1);
            out.append(edge.as_str());
            proof {
                assert(out@ =~= dot_expr_spec(t@, c as int).0);
            }
            (out, inner.1)
        },
    }
}

/// The children of one node from index `i` on, with their edges; argument
/// edges carry an `arg` prefix.
fn dot_render_elems(es: &Vec<LispExpr>, i: usize, parent: usize, c: usize, arg_style: bool) -> (r:
    (String, usize))
    requires
        i <= es.len(),
        c + dot_count_seq(terms_view(es@), i as int) <= usize::MAX,
    ensures
        !arg_style ==> r.0@ == dot_children_spec(terms_view(es@), i as int, parent as int, c as int).0
            && r.1 as int == dot_children_spec(terms_view(es@), i as int, parent as int, c as int).1,
        arg_style ==> r.0@ == dot_args_spec(terms_view(es@), i as int, parent as int, c as int).0
            && r.1 as int == dot_args_spec(terms_view(es@), i as int, parent as int, c as int).1,
    decreases seq_size(terms_view(es@).skip(i as int)), 1int,
{
    let ghost tv = terms_view(es@);
    if i == es.len() {
        (String::new(), c)
    } else {
        proof {
            lemma_seq_size_first(tv.skip(i as int));
            assert(tv.skip(i as int)[0] == tv[i as int]);
            assert(tv[i as int] == es@[i as int]@);
            assert(tv.skip(i as int).drop_first() =~= tv.skip(i as int + 1));
            lemma_dot_counter(tv[i as int], c as int);
            lemma_dot_counter_seq(tv, i as int, parent as int, c as int);
            lemma_dot_counter_seq(tv, i as int + 1, parent as int, dot_expr_spec(
                tv[i as int],
                c as int,
            ).1);
        }
        let head = dot_render(&es[i], c);
        let label = if arg_style {
            let mut l = "arg".to_owned();
            let d = usize_to_string(i);
            l.append(d.as_str());
            l
        } else {
            usize_to_string(i)
        };
        let edge = edge_line(parent, c, label.as_str());
        let rest = dot_render_elems(es, i + 1, parent, head.1, arg_style);
        let mut out = head.0;
        out.append(edge.as_str());
        out.append(rest.0.as_str());
        proof {
            if arg_style {
                assert(label@ =~= "arg"@ + dec_digits(i as int));
                assert(out@ =~= dot_args_spec(tv, i as int, parent as int, c as int).0);
            } else {
                assert(out@ =~= dot_children_spec(tv, i as int, parent as int, c as int).0);
            }
        }
        (out, rest.1)
    }
}

/// How many node names a whole program consumes, from index `i` on.
pub open spec fn dot_count_prog(ts: Seq<TermV>, i: int) -> nat
    decreases ts.len() - i,
{
    if i < 0 || i >= ts.len() {
        0
    } else {
        dot_count(ts[i]) + dot_count_prog(ts, i + 1)
    }
}

fn dot_render_program(es: &Vec<LispExpr>, i: usize, c: usize) -> (r: (String, usize))
    requires
        i <= es.len(),
        c + dot_count_prog(terms_view(es@), i as int) <= usize::MAX,
    ensures
        ({
            let sp = dot_program_spec(terms_view(es@), i as int, c as int);
            r.0@ == sp.0 && r.1 as int == sp.1
        }),
    decreases es.len() - i,
{
    let ghost tv = terms_view(es@);
    if i == es.len() {
        (String::new(), c)
    } else {
        proof {
            assert(tv[i as int] == es@[i as int]@);
            lemma_dot_counter(tv[i as int], c as int);
        }
        let head = dot_render(&es[i], c);
        let rest = dot_render_program(es, i + 1, head.1);
        let mut out = head.0;
        out.append(rest.0.as_str());
        (out, rest.1)
    }
}

/// A fresh visualizer, numbering nodes from zero.
pub struct DotVisualizer {
    node_counter: usize,
}

impl DotVisualizer {
    /// How many nodes have been named so far.
    pub closed spec fn spec_counter(&self) -> int {
        self.node_counter as int
    }

    pub fn new() -> (r: DotVisualizer)
        ensures
            r.spec_counter() == 0,
    {
        DotVisualizer { node_counter: 0 }
    }

    /// The next node name, advancing the counter.
    pub fn next_node_id(&mut self) -> (r: String)
        requires
            old(self).spec_counter() < usize::MAX,
        ensures
            r@ == node_name(old(self).spec_counter()),
            final(self).spec_counter() == old(self).spec_counter() + 1,
    {
        let mut id = "node".to_owned();
        let d = usize_to_string(self.node_counter);
        id.append(d.as_str());
        self.node_counter = self.node_counter + 1;
        id
    }

    /// The DOT graph of a program: a directed graph with one box per term
    /// node, numbered in traversal order from the visualizer's counter.
    pub fn visualize(&mut self, exprs: &Vec<LispExpr>) -> (r: String)
        requires
            old(self).spec_counter() + dot_count_prog(terms_view(exprs@), 0) <= usize::MAX,
        ensures
            ({
                let sp = dot_program_spec(terms_view(exprs@), 0, old(self).spec_counter());
                r@ == dot_header() + sp.0 + "}\n"@ && final(self).spec_counter() == sp.1
            }),
    {
        let mut out = "digraph AST {\n".to_owned();
        out.append("  node [shape=box, style=rounded];\n");
        out.append("  rankdir=TB;\n\n");
        let body = dot_render_program(exprs, 0, self.node_counter);
        out.append(body.0.as_str());
        self.node_counter = body.1;
        out.append("}\n");
        proof {
            assert(out@ =~= dot_header() + dot_program_spec(
                terms_view(exprs@),
                0,
                old(self).spec_counter(),
            ).0 + "}\n"@);
        }
        out
    }
}

/// The parameter names joined by a comma and a blank.
fn join_names(ps: &Vec<String>, start: usize) -> (r: String)
    requires
        start <= ps.len(),
    ensures
        r@ == comma_names(names_view(ps@).skip(start as int)),
    decreases ps.len() - start,
{
    let ghost pv = names_view(ps@).skip(start as int);
    if start == ps.len() {
        let r = String::new();
        proof {
            assert(pv.len() == 0);
        }
        r
    } else {
        proof {
            assert(pv[0] == ps@[start as int]@);
            assert(pv.drop_first() =~= names_view(ps@).skip(start as int + 1));
        }
        let mut r = ps[start].clone();
        if start + 1 < ps.len() {
            r.append(", ");
            let rest = join_names(ps, start + 1);
            r.append(rest.as_str());
            proof {
                assert(r@ =~= comma_names(pv));
            }
        } else {
            proof {
                assert(pv.len() == 1);
            }
        }
        r
    }
}


// ---------------------------------------------------------------------------
// The HTML visualizer
// ---------------------------------------------------------------------------

/// The indentation of a node at the given depth.
pub open spec fn hind(d: int) -> Seq<char> {
    crate::transform::indent_text(d + 3)
}

pub open spec fn div_open(d: int, cls: Seq<char>) -> Seq<char> {
    hind(d) + "<div class=\"ast-node "@ + cls + "\">\n"@
}

pub open spec fn type_span(d: int, extra: Seq<char>, ty: Seq<char>) -> Seq<char> {
    hind(d) + extra + "  <span class=\"node-type\">"@ + ty + "</span>\n"@
}

pub open spec fn value_span(d: int, extra: Seq<char>, v: Seq<char>) -> Seq<char> {
    hind(d) + extra + "  <span class=\"node-value\">"@ + v + "</span>\n"@
}

pub open spec fn div_close(d: int) -> Seq<char> {
    hind(d) + "</div>\n"@
}

/// A leaf node: its type span and, when it has one, its value span.
pub open spec fn html_leaf(d: int, cls: Seq<char>, ty: Seq<char>, v: Option<Seq<char>>)
    -> Seq<char> {
    div_open(d, cls) + type_span(d, Seq::empty(), ty) + (match v {
        Some(val) => value_span(d, Seq::empty(), val),
        None => Seq::empty(),
    }) + div_close(d)
}

/// A node with children: a header with its type (and name, when it has
/// one), then its children one level deeper.
pub open spec fn html_parent(
    d: int,
    cls: Seq<char>,
    ty: Seq<char>,
    name: Option<Seq<char>>,
    inner: Seq<char>,
) -> Seq<char> {
    div_open(d, cls) + hind(d) + "  <div class=\"node-header\">\n"@ + type_span(d, "  "@, ty)
        + (match name {
        Some(n) => value_span(d, "  "@, n),
        None => Seq::empty(),
    }) + hind(d) + "    <span class=\"toggle\">v</span>\n"@ + hind(d) + "  </div>\n"@ + hind(
        d,
    ) + "  <div class=\"node-children\">\n"@ + inner + hind(d) + "  </div>\n"@ + div_close(d)
}

/// The HTML rendering of one term at the given depth.
pub open spec fn html_expr_spec(t: TermV, d: int) -> Seq<char>
    decreases term_size(t), 0int,
    via html_expr_spec_dec
{
    match t {
        TermV::Number(s) => html_leaf(d, "ast-number"@, "Number"@, Some(s)),
        TermV::Symbol(s) => html_leaf(d, "ast-symbol"@, "Symbol"@, Some(html_text(s))),
        TermV::String(s) => html_leaf(
            d,
            "ast-string"@,
            "String"@,
            Some("\""@ + html_text(s) + "\""@),
        ),
        TermV::Bool(b) => html_leaf(d, "ast-bool"@, "Bool"@, Some(if b {
            "true"@
        } else {
            "false"@
        })),
        TermV::Nil => html_leaf(d, "ast-nil"@, "Nil"@, None),
        TermV::Gensym(s) => html_leaf(d, "ast-gensym"@, "Gensym"@, Some(html_text(s))),
        TermV::List(es) => html_parent(d, "ast-list"@, "List"@, None, html_items(es, 0, d + 1)),
        TermV::MacroCall { name, args } => html_parent(
            d,
            "ast-macro-call"@,
            "MacroCall"@,
            Some(html_text(name)),
            html_items(args, 0, d + 1),
        ),
        TermV::Macro { name, parameters, body } => html_parent(
            d,
            "ast-macro"@,
            "Macro"@,
            Some(html_text(name)),
            hind(d) + "    <div class=\"param-list\">\n"@ + hind(d)
                + "      <span class=\"label\">Parameters: "@ + comma_names(parameters)
                + "</span>\n"@ + hind(d) + "    </div>\n"@ + hind(d)
                + "    <div class=\"macro-body\">\n"@ + hind(d)
                + "      <span class=\"label\">Body:</span>\n"@ + html_expr_spec(*body, d + 2)
                + hind(d) + "    </div>\n"@,
        ),
        TermV::Quote(e) => html_parent(d, "ast-quote"@, "Quote"@, None, html_expr_spec(*e, d + 1)),
        TermV::Quasiquote(e) => html_parent(
            d,
            "ast-quasiquote"@,
            "Quasiquote"@,
            None,
            html_expr_spec(*e, d + 1),
        ),
        TermV::Unquote(e) => html_parent(
            d,
            "ast-unquote"@,
            "Unquote"@,
            None,
            html_expr_spec(*e, d + 1),
        ),
        TermV::Splice(e) => html_parent(
            d,
            "ast-splice"@,
            "Splice"@,
            None,
            html_expr_spec(*e, d + 1),
        ),
    }
}

#[via_fn]
proof fn html_expr_spec_dec(t: TermV, d: int) {
    match t {
        TermV::List(es) => {
            assert(es.skip(0) =~= es);
        },
        TermV::MacroCall { args, .. } => {
            assert(args.skip(0) =~= args);
        },
        _ => {},
    }
}

/// The HTML renderings of the terms from index `i` on.
pub open spec fn html_items(es: Seq<TermV>, i: int, d: int) -> Seq<char>
    decreases seq_size(es.skip(i)), 1int,
    via html_items_dec
{
    if i < 0 || i >= es.len() {
        Seq::empty()
    } else {
        html_expr_spec(es[i], d) + html_items(es, i + 1, d)
    }
}

#[via_fn]
proof fn html_items_dec(es: Seq<TermV>, i: int, d: int) {
    if 0 <= i < es.len() {
        lemma_seq_size_first(es.skip(i));
        assert(es.skip(i)[0] == es[i]);
        assert(es.skip(i).drop_first() =~= es.skip(i + 1));
    }
}

/// The fixed page text around the rendered tree.
pub open spec fn html_header() -> Seq<char> {
    "<!DOCTYPE html>\n"@ + "<html lang=\"en\">\n"@ + "<head>\n"@
        + "  <meta charset=\"UTF-8\">\n"@
        + "  <meta name=\"viewport\" content=\"width=device-width, initial-scale=1.0\">\n"@
        + "  <title>AST Visualization</title>\n"@ + "  <style>\n"@ + "  </style>\n"@
        + "</head>\n"@ + "<body>\n"@ + "  <div class=\"container\">\n"@
        + "    <h1>AST Visualization</h1>\n"@ + "    <div class=\"ast-tree\">\n"@
}

pub open spec fn html_footer() -> Seq<char> {
    "    </div>\n"@ + "  </div>\n"@ + "  <script>\n"@ + "  </script>\n"@ + "</body>\n"@
        + "</html>\n"@
}

fn hind_exec(d: usize) -> (r: String)
    requires
        d + 3 <= usize::MAX,
    ensures
        r@ == hind(d as int),
{
    crate::transform::indent_exec(d + 3)
}

/// Generates an HTML rendering of the tree.
pub struct HtmlVisualizer;

impl HtmlVisualizer {
    pub fn new() -> (r: HtmlVisualizer) {
        HtmlVisualizer
    }

    /// The HTML page for a program: one nested block per term node.
    pub fn visualize(&self, exprs: &Vec<LispExpr>) -> (r: String)
        requires
            forall|k: int| 0 <= k < exprs@.len() ==> 2 * term_size(
                #[trigger] terms_view(exprs@)[k],
            ) + 3 <= usize::MAX,
        ensures
            r@ == html_header() + html_items(terms_view(exprs@), 0, 0) + html_footer(),
    {
        let mut out = "<!DOCTYPE html>\n".to_owned();
        out.append("<html lang=\"en\">\n");
        out.append("<head>\n");
        out.append("  <meta charset=\"UTF-8\">\n");
        out.append("  <meta name=\"viewport\" content=\"width=device-width, initial-scale=1.0\">\n");
        out.append("  <title>AST Visualization</title>\n");
        out.append("  <style>\n");
        out.append("  </style>\n");
        out.append("</head>\n");
        out.append("<body>\n");
        out.append("  <div class=\"container\">\n");
        out.append("    <h1>AST Visualization</h1>\n");
        out.append("    <div class=\"ast-tree\">\n");
        let ghost tv = terms_view(exprs@);
        let mut i: usize = 0;
        while i < exprs.len()
            invariant
                i <= exprs.len(),
                tv == terms_view(exprs@),
                forall|k: int| 0 <= k < exprs@.len() ==> 2 * term_size(#[trigger] tv[k]) + 3
                    <= usize::MAX,
                out@ == html_header() + html_prefix(tv, i as int),
            decreases exprs.len() - i,
        {
            proof {
                assert(tv[i as int] == exprs@[i as int]@);
            }
            let piece = html_render(&exprs[i], 0);
            out.append(piece.as_str());
            proof {
                lemma_html_prefix_step(tv, i as int);
                assert(out@ =~= html_header() + html_prefix(tv, i as int + 1));
            }
            i += 1;
        }
        out.append("    </div>\n");
        out.append("  </div>\n");
        out.append("  <script>\n");
        out.append("  </script>\n");
        out.append("</body>\n");
        out.append("</html>\n");
        proof {
            lemma_html_prefix_all(tv);
            assert(out@ =~= html_header() + html_items(tv, 0, 0) + html_footer());
        }
        out
    }
}

/// The renderings of the first `i` terms at depth zero.
pub open spec fn html_prefix(ts: Seq<TermV>, i: int) -> Seq<char>
    decreases i,
{
    if i <= 0 {
        Seq::empty()
    } else {
        html_prefix(ts, i - 1) + html_expr_spec(ts[i - 1], 0)
    }
}

proof fn lemma_html_prefix_step(ts: Seq<TermV>, i: int)
    requires
        0 <= i,
    ensures
        html_prefix(ts, i + 1) == html_prefix(ts, i) + html_expr_spec(ts[i], 0),
{
}

proof fn lemma_html_prefix_all(ts: Seq<TermV>)
    ensures
        html_prefix(ts, ts.len() as int) =~= html_items(ts, 0, 0),
    decreases ts.len(),
{
    if ts.len() > 0 {
        lemma_html_prefix_suffix(ts, ts.len() as int);
    }
}

proof fn lemma_html_prefix_suffix(ts: Seq<TermV>, i: int)
    requires
        0 <= i <= ts.len(),
    ensures
        html_prefix(ts, i) + html_items(ts, i, 0) =~= html_items(ts, 0, 0),
    decreases i,
{
    if i > 0 {
        lemma_html_prefix_suffix(ts, i - 1);
        assert(html_prefix(ts, i) == html_prefix(ts, i - 1) + html_expr_spec(ts[i - 1], 0));
        assert(html_items(ts, i - 1, 0) == html_expr_spec(ts[i - 1], 0) + html_items(ts, i, 0));
        assert(html_prefix(ts, i) + html_items(ts, i, 0) =~= html_prefix(ts, i - 1) + html_items(
            ts,
            i - 1,
            0,
        ));
    }
}

/// A leaf node's HTML block.
fn html_leaf_exec(d: usize, cls: &str, ty: &str, v: Option<&String>) -> (r: String)
    requires
        d + 3 <= usize::MAX,
    ensures
        r@ == html_leaf(d as int, cls@, ty@, match v {
            Some(val) => Some(val@),
            None => None,
        }),
{
    let ind = hind_exec(d);
    let mut out = ind.clone();
    out.append("<div class=\"ast-node ");
    out.append(cls);
    out.append("\">\n");
    out.append(ind.as_str());
    out.append("  <span class=\"node-type\">");
    out.append(ty);
    out.append("</span>\n");
    match v {
        Some(val) => {
            out.append(ind.as_str());
            out.append("  <span class=\"node-value\">");
            out.append(val.as_str());
            out.append("</span>\n");
        },
        None => {},
    }
    out.append(ind.as_str());
    out.append("</div>\n");
    proof {
        assert(out@ =~= html_leaf(d as int, cls@, ty@, match v {
            Some(val) => Some(val@),
            None => None,
        }));
    }
    out
}

/// A parent node's HTML block around already-rendered children.
fn html_parent_exec(d: usize, cls: &str, ty: &str, name: Option<&String>, inner: &String) -> (r:
    String)
    requires
        d + 3 <= usize::MAX,
    ensures
        r@ == html_parent(d as int, cls@, ty@, match name {
            Some(n) => Some(n@),
            None => None,
        }, inner@),
{
    let ind = hind_exec(d);
    let mut out = ind.clone();
    out.append("<div class=\"ast-node ");
    out.append(cls);
    out.append("\">\n");
    out.append(ind.as_str());
    out.append("  <div class=\"node-header\">\n");
    out.append(ind.as_str());
    out.append("  ");
    out.append("  <span class=\"node-type\">");
    out.append(ty);
    out.append("</span>\n");
    match name {
        Some(n) => {
            out.append(ind.as_str());
            out.append("  ");
            out.append("  <span class=\"node-value\">");
            out.append(n.as_str());
            out.append("</span>\n");
        },
        None => {},
    }
    out.append(ind.as_str());
    out.append("    <span class=\"toggle\">v</span>\n");
    out.append(ind.as_str());
    out.append("  </div>\n");
    out.append(ind.as_str());
    out.append("  <div class=\"node-children\">\n");
    out.append(inner.as_str());
    out.append(ind.as_str());
    out.append("  </div>\n");
    out.append(ind.as_str());
    out.append("</div>\n");
    proof {
        assert(out@ =~= html_parent(d as int, cls@, ty@, match name {
            Some(n) => Some(n@),
            None => None,
        }, inner@));
    }
    out
}

/// The HTML text of one subtree.
fn html_render(t: &LispExpr, d: usize) -> (r: String)
    requires
        d + 2 * term_size(t@) + 3 <= usize::MAX,
    ensures
        r@ == html_expr_spec(t@, d as int),
    decreases term_size(t@), 0int,
{
    match t {
        LispExpr::Number(s) => html_leaf_exec(d, "ast-number", "Number", Some(s)),
        LispExpr::Symbol(s) => {
            let esc = escape_html(s.as_str());
            html_leaf_exec(d, "ast-symbol", "Symbol", Some(&esc))
        },
        LispExpr::String(s) => {
            let mut val = "\"".to_owned();
            let esc = escape_html(s.as_str());
            val.append(esc.as_str());
            val.append("\"");
            proof {
                assert(val@ =~= "\""@ + html_text(s@) + "\""@);
            }
            html_leaf_exec(d, "ast-string", "String", Some(&val))
        },
        LispExpr::Bool(b) => {
            if *b {
                let val = "true".to_owned();
                html_leaf_exec(d, "ast-bool", "Bool", Some(&val))
            } else {
                let val = "false".to_owned();
                html_leaf_exec(d, "ast-bool", "Bool", Some(&val))
            }
        },
        LispExpr::Nil => html_leaf_exec(d, "ast-nil", "Nil", None),
        LispExpr::Gensym(s) => {
            let esc = escape_html(s.as_str());
            html_leaf_exec(d, "ast-gensym", "Gensym", Some(&esc))
        },
        LispExpr::List(es) => {
            proof {
                assert(terms_view(es@).skip(0) =~= terms_view(es@));
            }
            let inner = html_render_items(es, 0, d + 1);
            html_parent_exec(d, "ast-list", "List", None, &inner)
        },
        LispExpr::MacroCall { name, args } => {
            proof {
                assert(terms_view(args@).skip(0) =~= terms_view(args@));
            }
            let esc = escape_html(name.as_str());
            let inner = html_render_items(args, 0, d + 1);
            html_parent_exec(d, "ast-macro-call", "MacroCall", Some(&esc), &inner)
        },
        LispExpr::Macro { name, parameters, body } => {
            let esc = escape_html(name.as_str());
            let ind = hind_exec(d);
            let mut inner = ind.clone();
            inner.append("    <div class=\"param-list\">\n");
            inner.append(ind.as_str());
            inner.append("      <span class=\"label\">Parameters: ");
            proof {
                assert(names_view(parameters@).skip(0) =~= names_view(parameters@));
            }
            let joined = join_names(parameters, 0);
            inner.append(joined.as_str());
            inner.append("</span>\n");
            inner.append(ind.as_str());
            inner.append("    </div>\n");
            inner.append(ind.as_str());
            inner.append("    <div class=\"macro-body\">\n");
            inner.append(ind.as_str());
            inner.append("      <span class=\"label\">Body:</span>\n");
            let bt = html_render(body, d + 2);
            inner.append(bt.as_str());
            inner.append(ind.as_str());
            inner.append("    </div>\n");
            let r = html_parent_exec(d, "ast-macro", "Macro", Some(&esc), &inner);
            proof {
                assert(r@ =~= html_expr_spec(t@, d as int));
            }
            r
        },
        LispExpr::Quote(e) => {
            let inner = html_render(e, d + 1);
            html_parent_exec(d, "ast-quote", "Quote", None, &inner)
        },
        LispExpr::Quasiquote(e) => {
            let inner = html_render(e, d + 1);
            html_parent_exec(d, "ast-quasiquote", "Quasiquote", None, &inner)
        },
        LispExpr::Unquote(e) => {
            let inner = html_render(e, d + 1);
            html_parent_exec(d, "ast-unquote", "Unquote", None, &inner)
        },
        LispExpr::Splice(e) => {
            let inner = html_render(e, d + 1);
            html_parent_exec(d, "ast-splice", "Splice", None, &inner)
        },
    }
}

/// The HTML of the terms from index `i` on.
fn html_render_items(es: &Vec<LispExpr>, i: usize, d: usize) -> (r: String)
    requires
        i <= es.len(),
        d + 2 * seq_size(terms_view(es@).skip(i as int)) + 3 <= usize::MAX,
    ensures
        r@ == html_items(terms_view(es@), i as int, d as int),
    decreases seq_size(terms_view(es@).skip(i as int)), 1int,
{
    let ghost tv = terms_view(es@);
    if i == es.len() {
        let r = String::new();
        proof {
            assert(html_items(tv, i as int, d as int) =~= Seq::<char>::empty());
        }
        r
    } else {
        proof {
            lemma_seq_size_first(tv.skip(i as int));
            assert(tv.skip(i as int)[0] == tv[i as int]);
            assert(tv[i as int] == es@[i as int]@);
            assert(tv.skip(i as int).drop_first() =~= tv.skip(i as int + 1));
        }
        let mut out = html_render(&es[i], d);
        let rest = html_render_items(es, i + 1, d);
        out.append(rest.as_str());
        proof {
            assert(out@ =~= html_items(tv, i as int, d as int));
        }
        out
    }
}

} // verus!
