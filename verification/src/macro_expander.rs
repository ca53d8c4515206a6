use vstd::prelude::*;
use crate::ast::{LispExpr, TermV, clone_names, names_view, term_text, terms_view};
use crate::text::{dec_digits, usize_to_string};

verus! {

// ---------------------------------------------------------------------------
// Errors
// ---------------------------------------------------------------------------

/// Mathematical model of an expansion error.
pub enum ErrV {
    Undefined(Seq<char>),
    CountMismatch { name: Seq<char>, expected: int, actual: int },
    DepthExceeded { depth: int, name: Seq<char> },
    Expansion { message: Seq<char>, context: Option<Seq<char>> },
    Malformed { name: Seq<char>, reason: Seq<char> },
    Pattern { pattern: Seq<char>, reason: Seq<char> },
}

/// What can go wrong while expanding macros.
#[derive(Debug, PartialEq)]
pub enum MacroError {
    /// Attempted to call an undefined macro.
    UndefinedMacro(String),
    /// Macro called with the wrong number of arguments.
    ParameterCountMismatch { macro_name: String, expected: usize, actual: usize },
    /// Maximum expansion depth exceeded; the expansion likely recurses forever.
    MaxDepthExceeded { depth: usize, macro_name: String },
    /// Generic expansion error with optional context.
    ExpansionError { message: String, context: Option<String> },
    /// Malformed macro definition.
    MalformedDefinition { macro_name: String, reason: String },
    /// Invalid pattern in macro parameters.
    InvalidPattern { pattern: String, reason: String },
}

impl View for MacroError {
    type V = ErrV;

    open spec fn view(&self) -> ErrV {
        match self {
            MacroError::UndefinedMacro(n) => ErrV::Undefined(n@),
            MacroError::ParameterCountMismatch { macro_name, expected, actual } =>
                ErrV::CountMismatch {
                    name: macro_name@,
                    expected: *expected as int,
                    actual: *actual as int,
                },
            MacroError::MaxDepthExceeded { depth, macro_name } => ErrV::DepthExceeded {
                depth: *depth as int,
                name: macro_name@,
            },
            MacroError::ExpansionError { message, context } => ErrV::Expansion {
                message: message@,
                context: match context {
                    Some(c) => Some(c@),
                    None => None,
                },
            },
            MacroError::MalformedDefinition { macro_name, reason } => ErrV::Malformed {
                name: macro_name@,
                reason: reason@,
            },
            MacroError::InvalidPattern { pattern, reason } => ErrV::Pattern {
                pattern: pattern@,
                reason: reason@,
            },
        }
    }
}

impl Clone for MacroError {
    /// A copy that models the same error.
    fn clone(&self) -> (r: Self)
        ensures
            r@ == self@,
    {
        match self {
            MacroError::UndefinedMacro(n) => MacroError::UndefinedMacro(n.clone()),
            MacroError::ParameterCountMismatch { macro_name, expected, actual } =>
                MacroError::ParameterCountMismatch {
                    macro_name: macro_name.clone(),
                    expected: *expected,
                    actual: *actual,
                },
            MacroError::MaxDepthExceeded { depth, macro_name } => MacroError::MaxDepthExceeded {
                depth: *depth,
                macro_name: macro_name.clone(),
            },
            MacroError::ExpansionError { message, context } => MacroError::ExpansionError {
                message: message.clone(),
                context: match context {
                    Some(c) => Some(c.clone()),
                    None => None,
                },
            },
            MacroError::MalformedDefinition { macro_name, reason } =>
                MacroError::MalformedDefinition {
                    macro_name: macro_name.clone(),
                    reason: reason.clone(),
                },
            MacroError::InvalidPattern { pattern, reason } => MacroError::InvalidPattern {
                pattern: pattern.clone(),
                reason: reason.clone(),
            },
        }
    }
}

// ---------------------------------------------------------------------------
// Model of the expander state
// ---------------------------------------------------------------------------

/// Mathematical model of one macro definition: its parameter names and body.
pub struct DefV {
    pub params: Seq<Seq<char>>,
    pub body: TermV,
}

/// Mathematical model of the expander's mutable state: the registry of
/// definitions and the gensym counter.
pub struct StV {
    pub macros: Map<Seq<char>, DefV>,
    pub counter: int,
}

/// A registered macro definition.
#[derive(Debug, Clone)]
pub struct MacroDefinition {
    pub name: String,
    pub parameters: Vec<String>,
    pub body: LispExpr,
}

pub open spec fn def_view(d: MacroDefinition) -> DefV {
    DefV { params: names_view(d.parameters@), body: d.body@ }
}

/// The registry that a sequence of definitions denotes: later definitions of
/// the same name shadow earlier ones.
pub open spec fn registry_map(defs: Seq<MacroDefinition>) -> Map<Seq<char>, DefV>
    decreases defs.len(),
{
    if defs.len() == 0 {
        Map::empty()
    } else {
        registry_map(defs.drop_last()).insert(defs.last().name@, def_view(defs.last()))
    }
}

// ---------------------------------------------------------------------------
// Term size, the structural part of the termination measure
// ---------------------------------------------------------------------------

pub open spec fn term_size(t: TermV) -> nat
    decreases t,
{
    match t {
        TermV::List(es) => 1 + seq_size(es),
        TermV::Macro { body, .. } => 1 + term_size(*body),
        TermV::MacroCall { args, .. } => 1 + seq_size(args),
        TermV::Quote(e) => 1 + term_size(*e),
        TermV::Quasiquote(e) => 1 + term_size(*e),
        TermV::Unquote(e) => 1 + term_size(*e),
        TermV::Splice(e) => 1 + term_size(*e),
        _ => 1,
    }
}

pub open spec fn seq_size(es: Seq<TermV>) -> nat
    decreases es,
{
    if es.len() == 0 {
        0
    } else {
        term_size(es[0]) + seq_size(es.drop_first())
    }
}

pub proof fn lemma_seq_size_first(es: Seq<TermV>)
    requires
        es.len() > 0,
    ensures
        term_size(es[0]) <= seq_size(es),
        seq_size(es.drop_first()) < seq_size(es),
        es.drop_first() == es.skip(1),
{
    assert(seq_size(es) == term_size(es[0]) + seq_size(es.drop_first()));
    assert(term_size(es[0]) >= 1) by {
        match es[0] {
            _ => {},
        }
    }
    assert(es.drop_first() =~= es.skip(1));
}

// ---------------------------------------------------------------------------
// Built-in forms
// ---------------------------------------------------------------------------

/// The names of built-in forms; hygiene never renames them.
pub open spec fn is_builtin(s: Seq<char>) -> bool {
    ||| s == "let"@ ||| s == "if"@ ||| s == "define"@ ||| s == "lambda"@
    ||| s == "quote"@ ||| s == "quasiquote"@ ||| s == "unquote"@ ||| s == "unquote-splicing"@
    ||| s == "+"@ ||| s == "-"@ ||| s == "*"@ ||| s == "/"@
    ||| s == "="@ ||| s == "<"@ ||| s == ">"@ ||| s == "<="@ ||| s == ">="@
    ||| s == "and"@ ||| s == "or"@ ||| s == "not"@
    ||| s == "list"@ ||| s == "car"@ ||| s == "cdr"@ ||| s == "cons"@
    ||| s == "set!"@ ||| s == "begin"@ ||| s == "progn"@
}

// ---------------------------------------------------------------------------
// Parameter binding
// ---------------------------------------------------------------------------

/// First position of the `&rest` marker at or after `i`.
pub open spec fn find_rest(params: Seq<Seq<char>>, i: int) -> Option<int>
    decreases params.len() - i,
{
    if i < 0 || i >= params.len() {
        None
    } else if params[i] == "&rest"@ {
        Some(i)
    } else {
        find_rest(params, i + 1)
    }
}

/// The first `k` parameters bound pointwise to the first `k` arguments;
/// on a repeated name the later position wins.
pub open spec fn bind_pointwise(params: Seq<Seq<char>>, args: Seq<TermV>, k: int) -> Map<
    Seq<char>,
    TermV,
>
    decreases k,
{
    if k <= 0 {
        Map::empty()
    } else {
        bind_pointwise(params, args, k - 1).insert(params[k - 1], args[k - 1])
    }
}

/// Parameter binding: how a call's arguments are matched against a macro's
/// parameter names, with `&rest` collecting the tail into a single List.
pub open spec fn bind_spec(name: Seq<char>, params: Seq<Seq<char>>, args: Seq<TermV>) -> Result<
    Map<Seq<char>, TermV>,
    ErrV,
> {
    match find_rest(params, 0) {
        Some(ri) => {
            if ri + 1 >= params.len() {
                Err(ErrV::Pattern {
                    pattern: "&rest"@,
                    reason: "&rest must be followed by a parameter name"@,
                })
            } else if args.len() < ri {
                Err(ErrV::CountMismatch { name: name, expected: ri, actual: args.len() as int })
            } else if ri + 2 < params.len() {
                Err(ErrV::Pattern {
                    pattern: "&rest "@ + params[ri + 1],
                    reason: "Parameters cannot appear after &rest parameter"@,
                })
            } else {
                Ok(
                    bind_pointwise(params, args, ri).insert(
                        params[ri + 1],
                        TermV::List(args.skip(ri)),
                    ),
                )
            }
        },
        None => {
            if params.len() != args.len() {
                Err(ErrV::CountMismatch {
                    name: name,
                    expected: params.len() as int,
                    actual: args.len() as int,
                })
            } else {
                Ok(bind_pointwise(params, args, params.len() as int))
            }
        },
    }
}

// ---------------------------------------------------------------------------
// Hygiene: which symbols a body introduces, and their renaming
// ---------------------------------------------------------------------------

/// The symbols of `t` that are not bound parameters, in traversal order and
/// with repetitions. Quote subtrees contribute nothing; inside a Quasiquote
/// only the template's own symbols count, never Unquote or Splice payloads.
pub open spec fn collect_syms(t: TermV, bound: Set<Seq<char>>) -> Seq<Seq<char>>
    decreases term_size(t), 0int,
{
    match t {
        TermV::Symbol(n) => if bound.contains(n) { Seq::empty() } else { seq![n] },
        TermV::List(es) => collect_syms_seq(es, bound),
        TermV::Quote(_) => Seq::empty(),
        TermV::Quasiquote(q) => collect_syms_qq(*q, bound),
        TermV::Unquote(_) => Seq::empty(),
        TermV::Splice(_) => Seq::empty(),
        TermV::Macro { body, .. } => collect_syms(*body, bound),
        _ => Seq::empty(),
    }
}

pub open spec fn collect_syms_seq(es: Seq<TermV>, bound: Set<Seq<char>>) -> Seq<Seq<char>>
    decreases seq_size(es), 1int,
    via collect_syms_seq_dec
{
    if es.len() == 0 {
        Seq::empty()
    } else {
        collect_syms(es[0], bound) + collect_syms_seq(es.drop_first(), bound)
    }
}

pub open spec fn collect_syms_qq(t: TermV, bound: Set<Seq<char>>) -> Seq<Seq<char>>
    decreases term_size(t), 0int,
{
    match t {
        TermV::Unquote(_) => Seq::empty(),
        TermV::Splice(_) => Seq::empty(),
        TermV::Symbol(n) => if bound.contains(n) { Seq::empty() } else { seq![n] },
        TermV::List(es) => collect_syms_qq_seq(es, bound),
        _ => Seq::empty(),
    }
}

pub open spec fn collect_syms_qq_seq(es: Seq<TermV>, bound: Set<Seq<char>>) -> Seq<Seq<char>>
    decreases seq_size(es), 1int,
    via collect_syms_qq_seq_dec
{
    if es.len() == 0 {
        Seq::empty()
    } else {
        collect_syms_qq(es[0], bound) + collect_syms_qq_seq(es.drop_first(), bound)
    }
}

/// Keep the first occurrence of each name, drop later repetitions.
pub open spec fn dedup_first(s: Seq<Seq<char>>) -> Seq<Seq<char>>
    decreases s.len(),
{
    if s.len() == 0 {
        Seq::empty()
    } else if s.drop_last().contains(s.last()) {
        dedup_first(s.drop_last())
    } else {
        dedup_first(s.drop_last()) + seq![s.last()]
    }
}

pub proof fn lemma_dedup_first_contains(s: Seq<Seq<char>>, x: Seq<char>)
    ensures
        dedup_first(s).contains(x) <==> s.contains(x),
    decreases s.len(),
{
    if s.len() > 0 {
        lemma_dedup_first_contains(s.drop_last(), x);
        assert(s.contains(x) <==> (s.drop_last().contains(x) || s.last() == x)) by {
            if s.contains(x) {
                let i = choose|i: int| 0 <= i < s.len() && s[i] == x;
                if i < s.len() - 1 {
                    assert(s.drop_last()[i] == x);
                }
            }
            if s.drop_last().contains(x) {
                let i = choose|i: int| 0 <= i < s.drop_last().len() && s.drop_last()[i] == x;
                assert(s[i] == x);
            }
            if s.last() == x {
                assert(s[s.len() - 1] == x);
            }
        }
        if !s.drop_last().contains(s.last()) {
            let d = dedup_first(s.drop_last()) + seq![s.last()];
            assert(d.last() == s.last());
            if dedup_first(s.drop_last()).contains(x) {
                let i = choose|i: int|
                    0 <= i < dedup_first(s.drop_last()).len() && dedup_first(s.drop_last())[i]
                        == x;
                assert(d[i] == x);
            }
        }
    }
}

/// The name the hygiene pass gives the `n`-th fresh identifier.
pub open spec fn gensym_name(prefix: Seq<char>, n: int) -> Seq<char> {
    prefix + "#g"@ + dec_digits(n)
}

/// The gensym counter after one mint: it sticks at the machine limit.
pub open spec fn bump(c: int) -> int {
    if c < usize::MAX as int {
        c + 1
    } else {
        c
    }
}

/// The counter after `k` mints.
pub open spec fn bump_n(c: int, k: int) -> int
    decreases k,
{
    if k <= 0 {
        c
    } else {
        bump(bump_n(c, k - 1))
    }
}

/// The hygiene renaming for the symbols `syms`, minted in order starting
/// from counter value `c`.
pub open spec fn mint_map(syms: Seq<Seq<char>>, c: int) -> Map<Seq<char>, Seq<char>>
    decreases syms.len(),
{
    if syms.len() == 0 {
        Map::empty()
    } else {
        mint_map(syms.drop_last(), c).insert(
            syms.last(),
            gensym_name(syms.last(), bump_n(c, syms.len() as int)),
        )
    }
}

/// Hygienic renaming: every free occurrence of a mapped symbol becomes a
/// Gensym. Quote subtrees are untouched; inside a Quasiquote the Unquote and
/// Splice payloads are untouched.
pub open spec fn rename_spec(t: TermV, m: Map<Seq<char>, Seq<char>>) -> TermV
    decreases term_size(t), 0int,
{
    match t {
        TermV::Symbol(n) => if m.dom().contains(n) { TermV::Gensym(m[n]) } else { t },
        TermV::List(es) => TermV::List(rename_seq(es, m)),
        TermV::Quote(_) => t,
        TermV::Quasiquote(q) => TermV::Quasiquote(Box::new(rename_qq_spec(*q, m))),
        TermV::Unquote(e) => TermV::Unquote(Box::new(rename_spec(*e, m))),
        TermV::Splice(e) => TermV::Splice(Box::new(rename_spec(*e, m))),
        TermV::Macro { name, parameters, body } => TermV::Macro {
            name: name,
            parameters: parameters,
            body: Box::new(rename_spec(*body, m)),
        },
        _ => t,
    }
}

pub open spec fn rename_seq(es: Seq<TermV>, m: Map<Seq<char>, Seq<char>>) -> Seq<TermV>
    decreases seq_size(es), 1int,
    via rename_seq_dec
{
    if es.len() == 0 {
        Seq::empty()
    } else {
        seq![rename_spec(es[0], m)] + rename_seq(es.drop_first(), m)
    }
}

pub open spec fn rename_qq_spec(t: TermV, m: Map<Seq<char>, Seq<char>>) -> TermV
    decreases term_size(t), 0int,
{
    match t {
        TermV::Unquote(_) => t,
        TermV::Splice(_) => t,
        TermV::Symbol(n) => if m.dom().contains(n) { TermV::Gensym(m[n]) } else { t },
        TermV::List(es) => TermV::List(rename_qq_seq(es, m)),
        _ => t,
    }
}

pub open spec fn rename_qq_seq(es: Seq<TermV>, m: Map<Seq<char>, Seq<char>>) -> Seq<TermV>
    decreases seq_size(es), 1int,
    via rename_qq_seq_dec
{
    if es.len() == 0 {
        Seq::empty()
    } else {
        seq![rename_qq_spec(es[0], m)] + rename_qq_seq(es.drop_first(), m)
    }
}

#[via_fn]
proof fn collect_syms_seq_dec(es: Seq<TermV>, bound: Set<Seq<char>>) {
    if es.len() > 0 {
        lemma_seq_size_first(es);
    }
}

#[via_fn]
proof fn collect_syms_qq_seq_dec(es: Seq<TermV>, bound: Set<Seq<char>>) {
    if es.len() > 0 {
        lemma_seq_size_first(es);
    }
}

#[via_fn]
proof fn rename_seq_dec(es: Seq<TermV>, m: Map<Seq<char>, Seq<char>>) {
    if es.len() > 0 {
        lemma_seq_size_first(es);
    }
}

#[via_fn]
proof fn rename_qq_seq_dec(es: Seq<TermV>, m: Map<Seq<char>, Seq<char>>) {
    if es.len() > 0 {
        lemma_seq_size_first(es);
    }
}


// ---------------------------------------------------------------------------
// Substitution, with quasiquote flattening
// ---------------------------------------------------------------------------

/// The error raised when substitution runs out of its nesting budget. The
/// budget guards against bindings that keep re-introducing quasiquotes.
pub open spec fn qq_budget_error() -> ErrV {
    ErrV::Expansion {
        message: "Quasiquote nesting exceeds the substitution depth bound"@,
        context: None,
    }
}

/// The error raised when a Splice payload does not stand for a List; it
/// carries a rendering of the offending value.
pub open spec fn splice_error(v: TermV) -> ErrV {
    ErrV::Expansion {
        message: "Splice (unquote-splicing) must expand to a list"@,
        context: Some(term_text(v)),
    }
}

/// Parameter substitution: a Symbol bound in `b` becomes its argument; Quote
/// is left alone; a substituted Quasiquote is re-flattened by `qq_subst_spec`.
pub open spec fn subst_spec(t: TermV, b: Map<Seq<char>, TermV>, fuel: nat) -> Result<TermV, ErrV>
    decreases fuel, term_size(t), 0int,
{
    match t {
        TermV::Symbol(n) => if b.dom().contains(n) { Ok(b[n]) } else { Ok(t) },
        TermV::List(es) => match subst_seq(es, b, fuel) {
            Ok(rs) => Ok(TermV::List(rs)),
            Err(e) => Err(e),
        },
        TermV::Quote(_) => Ok(t),
        TermV::Quasiquote(q) => match subst_spec(*q, b, fuel) {
            Ok(sq) => if fuel == 0 {
                Err(qq_budget_error())
            } else {
                qq_subst_spec(sq, b, (fuel - 1) as nat)
            },
            Err(e) => Err(e),
        },
        TermV::Unquote(e) => match subst_spec(*e, b, fuel) {
            Ok(r) => Ok(TermV::Unquote(Box::new(r))),
            Err(e) => Err(e),
        },
        TermV::Splice(e) => match subst_spec(*e, b, fuel) {
            Ok(r) => Ok(TermV::Splice(Box::new(r))),
            Err(e) => Err(e),
        },
        _ => Ok(t),
    }
}

pub open spec fn subst_seq(es: Seq<TermV>, b: Map<Seq<char>, TermV>, fuel: nat) -> Result<
    Seq<TermV>,
    ErrV,
>
    decreases fuel, seq_size(es), 1int,
    via subst_seq_dec
{
    if es.len() == 0 {
        Ok(Seq::empty())
    } else {
        match subst_spec(es[0], b, fuel) {
            Ok(r) => match subst_seq(es.drop_first(), b, fuel) {
                Ok(rs) => Ok(seq![r] + rs),
                Err(e) => Err(e),
            },
            Err(e) => Err(e),
        }
    }
}

#[via_fn]
proof fn subst_seq_dec(es: Seq<TermV>, b: Map<Seq<char>, TermV>, fuel: nat) {
    if es.len() > 0 {
        lemma_seq_size_first(es);
    }
}

/// Flattening of a substituted quasiquote template: Unquote holes become
/// their substitutions, and a Splice standing in a List splices the elements
/// of its substituted payload into place.
pub open spec fn qq_subst_spec(t: TermV, b: Map<Seq<char>, TermV>, fuel: nat) -> Result<
    TermV,
    ErrV,
>
    decreases fuel, term_size(t), 1int,
{
    match t {
        TermV::Unquote(inner) => subst_spec(*inner, b, fuel),
        TermV::List(es) => match qq_subst_seq(es, b, fuel) {
            Ok(rs) => Ok(TermV::List(rs)),
            Err(e) => Err(e),
        },
        _ => Ok(t),
    }
}

pub open spec fn qq_subst_seq(es: Seq<TermV>, b: Map<Seq<char>, TermV>, fuel: nat) -> Result<
    Seq<TermV>,
    ErrV,
>
    decreases fuel, seq_size(es), 2int,
    via qq_subst_seq_dec
{
    if es.len() == 0 {
        Ok(Seq::empty())
    } else {
        let head = es[0];
        let head_result = match head {
            TermV::Splice(p) => match subst_spec(*p, b, fuel) {
                Ok(TermV::List(parts)) => Ok(parts),
                Ok(v) => Err(splice_error(v)),
                Err(e) => Err(e),
            },
            _ => match qq_subst_spec(head, b, fuel) {
                Ok(r) => Ok(seq![r]),
                Err(e) => Err(e),
            },
        };
        match head_result {
            Ok(hs) => match qq_subst_seq(es.drop_first(), b, fuel) {
                Ok(rs) => Ok(hs + rs),
                Err(e) => Err(e),
            },
            Err(e) => Err(e),
        }
    }
}

#[via_fn]
proof fn qq_subst_seq_dec(es: Seq<TermV>, b: Map<Seq<char>, TermV>, fuel: nat) {
    if es.len() > 0 {
        lemma_seq_size_first(es);
        match es[0] {
            TermV::Splice(p) => {
                assert(term_size(es[0]) == 1 + term_size(*p));
            },
            _ => {},
        }
    }
}

// ---------------------------------------------------------------------------
// Expansion
// ---------------------------------------------------------------------------

/// How much of the depth budget is left; the structural head of the
/// expansion termination measure.
pub open spec fn fuel_left(maxd: int, depth: int) -> int {
    if depth <= maxd + 1 {
        maxd + 1 - depth
    } else {
        0
    }
}

/// A collected symbol is renamed only when it is neither a built-in form
/// nor the name of a registered macro.
pub open spec fn keep_for_hygiene(s: Seq<char>, macros: Map<Seq<char>, DefV>) -> bool {
    !is_builtin(s) && !macros.dom().contains(s)
}

pub open spec fn filter_syms(s: Seq<Seq<char>>, macros: Map<Seq<char>, DefV>) -> Seq<Seq<char>>
    decreases s.len(),
{
    if s.len() == 0 {
        Seq::empty()
    } else if keep_for_hygiene(s.last(), macros) {
        filter_syms(s.drop_last(), macros) + seq![s.last()]
    } else {
        filter_syms(s.drop_last(), macros)
    }
}

/// The symbols of a macro body that the hygiene pass renames: the free
/// symbols of the body that are neither bound parameters, nor built-in
/// forms, nor names of registered macros, each kept once in traversal order.
pub open spec fn introduced_syms(body: TermV, bound: Set<Seq<char>>, macros: Map<Seq<char>, DefV>)
    -> Seq<Seq<char>> {
    dedup_first(filter_syms(collect_syms(body, bound), macros))
}

/// Whether a list child's Nil result came from macro machinery: the child
/// was a definition installing itself, or a call that expanded away. Only
/// such Nil results are pruned; a literal Nil child stays in place.
pub open spec fn expands_away(t: TermV, macros: Map<Seq<char>, DefV>) -> bool {
    ||| t is Macro
    ||| t is MacroCall
    ||| (t matches TermV::List(es) && es.len() > 0 && es[0] is Symbol && macros.dom().contains(
        es[0]->Symbol_0,
    ))
}

/// One macro call, after the depth counter has been advanced: bind the
/// arguments, rename the introduced symbols, substitute, then expand the
/// result. The state records the fresh names minted by hygiene.
pub open spec fn expand_call_spec(
    st: StV,
    maxd: int,
    depth: int,
    name: Seq<char>,
    args: Seq<TermV>,
) -> (Result<TermV, ErrV>, StV)
    decreases fuel_left(maxd, depth), 1int, 0int, 0int,
{
    if !st.macros.dom().contains(name) {
        (Err(ErrV::Undefined(name)), st)
    } else {
        let def = st.macros[name];
        match bind_spec(name, def.params, args) {
            Err(e) => (Err(e), st),
            Ok(b) => {
                let syms = introduced_syms(def.body, b.dom(), st.macros);
                let hm = mint_map(syms, st.counter);
                let st1 = StV { macros: st.macros, counter: bump_n(st.counter, syms.len() as int) };
                let renamed = rename_spec(def.body, hm);
                match subst_spec(renamed, b, subst_fuel(maxd)) {
                    Err(e) => (Err(e), st1),
                    Ok(sb) => expand_spec(st1, maxd, depth, sb),
                }
            },
        }
    }
}

/// The expander's walk over one term, at the given depth. Returns the
/// expanded term (or the error) together with the state after the walk.
pub open spec fn expand_spec(st: StV, maxd: int, depth: int, t: TermV) -> (Result<TermV, ErrV>, StV)
    decreases fuel_left(maxd, depth), 0int, term_size(t), 0int,
    via expand_spec_dec
{
    match t {
        TermV::Macro { name, parameters, body } => (
            Ok(TermV::Nil),
            StV {
                macros: st.macros.insert(name, DefV { params: parameters, body: *body }),
                counter: st.counter,
            },
        ),
        TermV::MacroCall { name, args } => {
            if depth > maxd {
                (Err(ErrV::DepthExceeded { depth: maxd, name: name }), st)
            } else {
                expand_call_spec(st, maxd, depth + 1, name, args)
            }
        },
        TermV::List(es) => {
            if es.len() == 0 {
                (Ok(t), st)
            } else if es[0] matches TermV::Symbol(h) && st.macros.dom().contains(es[0]->Symbol_0) {
                let h = es[0]->Symbol_0;
                if depth > maxd {
                    (Err(ErrV::DepthExceeded { depth: maxd, name: h }), st)
                } else {
                    expand_call_spec(st, maxd, depth + 1, h, es.skip(1))
                }
            } else {
                match expand_elems_spec(st, maxd, depth, es) {
                    (Ok(rs), st2) => (Ok(TermV::List(rs)), st2),
                    (Err(e), st2) => (Err(e), st2),
                }
            }
        },
        TermV::Quote(_) => (Ok(t), st),
        TermV::Quasiquote(q) => match expand_qq_spec(st, maxd, depth, *q) {
            (Ok(r), st2) => (Ok(TermV::Quasiquote(Box::new(r))), st2),
            (Err(e), st2) => (Err(e), st2),
        },
        TermV::Unquote(e) => match expand_spec(st, maxd, depth, *e) {
            (Ok(r), st2) => (Ok(TermV::Unquote(Box::new(r))), st2),
            (Err(er), st2) => (Err(er), st2),
        },
        TermV::Splice(e) => match expand_spec(st, maxd, depth, *e) {
            (Ok(r), st2) => (Ok(TermV::Splice(Box::new(r))), st2),
            (Err(er), st2) => (Err(er), st2),
        },
        _ => (Ok(t), st),
    }
}

#[via_fn]
proof fn expand_spec_dec(st: StV, maxd: int, depth: int, t: TermV) {
}

/// The children of a List, expanded left to right under one running state;
/// a child whose definition or call expanded away to Nil is dropped, and
/// every other child — a literal Nil included — is kept.
pub open spec fn expand_elems_spec(st: StV, maxd: int, depth: int, es: Seq<TermV>) -> (Result<
    Seq<TermV>,
    ErrV,
>, StV)
    decreases fuel_left(maxd, depth), 0int, seq_size(es), 1int,
    via expand_elems_spec_dec
{
    if es.len() == 0 {
        (Ok(Seq::empty()), st)
    } else {
        match expand_spec(st, maxd, depth, es[0]) {
            (Ok(r), st1) => match expand_elems_spec(st1, maxd, depth, es.drop_first()) {
                (Ok(rs), st2) => (
                    Ok(
                        if r is Nil && expands_away(es[0], st.macros) {
                            rs
                        } else {
                            seq![r] + rs
                        },
                    ),
                    st2,
                ),
                (Err(e), st2) => (Err(e), st2),
            },
            (Err(e), st1) => (Err(e), st1),
        }
    }
}

#[via_fn]
proof fn expand_elems_spec_dec(st: StV, maxd: int, depth: int, es: Seq<TermV>) {
    if es.len() > 0 {
        lemma_seq_size_first(es);
    }
}

/// The walk inside a quasiquote template: Unquote payloads are expanded in
/// place; inside a List a Splice must expand to a List, whose elements are
/// spliced in.
pub open spec fn expand_qq_spec(st: StV, maxd: int, depth: int, t: TermV) -> (Result<TermV, ErrV>, StV)
    decreases fuel_left(maxd, depth), 0int, term_size(t), 1int,
{
    match t {
        TermV::Unquote(inner) => expand_spec(st, maxd, depth, *inner),
        TermV::List(es) => match expand_qq_elems_spec(st, maxd, depth, es) {
            (Ok(rs), st2) => (Ok(TermV::List(rs)), st2),
            (Err(e), st2) => (Err(e), st2),
        },
        _ => (Ok(t), st),
    }
}

pub open spec fn expand_qq_elems_spec(st: StV, maxd: int, depth: int, es: Seq<TermV>) -> (Result<
    Seq<TermV>,
    ErrV,
>, StV)
    decreases fuel_left(maxd, depth), 0int, seq_size(es), 2int,
    via expand_qq_elems_spec_dec
{
    if es.len() == 0 {
        (Ok(Seq::empty()), st)
    } else {
        let head = es[0];
        let head_step: (Result<Seq<TermV>, ErrV>, StV) = match head {
            TermV::Splice(p) => match expand_spec(st, maxd, depth, *p) {
                (Ok(TermV::List(parts)), st1) => (Ok(parts), st1),
                (Ok(v), st1) => (Err(splice_error(v)), st1),
                (Err(e), st1) => (Err(e), st1),
            },
            _ => match expand_qq_spec(st, maxd, depth, head) {
                (Ok(r), st1) => (Ok(seq![r]), st1),
                (Err(e), st1) => (Err(e), st1),
            },
        };
        match head_step {
            (Ok(hs), st1) => match expand_qq_elems_spec(st1, maxd, depth, es.drop_first()) {
                (Ok(rs), st2) => (Ok(hs + rs), st2),
                (Err(e), st2) => (Err(e), st2),
            },
            (Err(e), st1) => (Err(e), st1),
        }
    }
}

#[via_fn]
proof fn expand_qq_elems_spec_dec(st: StV, maxd: int, depth: int, es: Seq<TermV>) {
    if es.len() > 0 {
        lemma_seq_size_first(es);
        match es[0] {
            TermV::Splice(p) => {
                assert(term_size(es[0]) == 1 + term_size(*p));
            },
            _ => {},
        }
    }
}


// ---------------------------------------------------------------------------
// The expander: executable state
// ---------------------------------------------------------------------------

/// The map that a list of bindings denotes: a later entry for the same name
/// shadows an earlier one.
pub open spec fn bindings_map(s: Seq<(String, LispExpr)>) -> Map<Seq<char>, TermV>
    decreases s.len(),
{
    if s.len() == 0 {
        Map::empty()
    } else {
        bindings_map(s.drop_last()).insert(s.last().0@, s.last().1@)
    }
}

/// The renaming that a list of (symbol, fresh name) pairs denotes.
pub open spec fn hmap_view(s: Seq<(String, String)>) -> Map<Seq<char>, Seq<char>>
    decreases s.len(),
{
    if s.len() == 0 {
        Map::empty()
    } else {
        hmap_view(s.drop_last()).insert(s.last().0@, s.last().1@)
    }
}

struct ExpanderState {
    macros: Vec<MacroDefinition>,
    counter: usize,
}

impl ExpanderState {
    /// The registry and counter that this state denotes.
    pub closed spec fn model(&self) -> StV {
        StV { macros: registry_map(self.macros@), counter: self.counter as int }
    }
}

fn registry_get_from(defs: &Vec<MacroDefinition>, hi: usize, name: &String) -> (r: Option<usize>)
    requires
        hi <= defs.len(),
    ensures
        match r {
            Some(j) => j < hi && registry_map(defs@.take(hi as int)).dom().contains(name@)
                && registry_map(defs@.take(hi as int))[name@] == def_view(defs@[j as int]),
            None => !registry_map(defs@.take(hi as int)).dom().contains(name@),
        },
    decreases hi,
{
    if hi == 0 {
        proof {
            assert(defs@.take(0) =~= Seq::empty());
        }
        None
    } else {
        let j = hi - 1;
        proof {
            assert(defs@.take(hi as int).drop_last() =~= defs@.take(j as int));
            assert(defs@.take(hi as int).last() == defs@[j as int]);
        }
        if defs[j].name == *name {
            Some(j)
        } else {
            registry_get_from(defs, j, name)
        }
    }
}

fn binding_contains(b: &Vec<(String, LispExpr)>, hi: usize, name: &String) -> (r: bool)
    requires
        hi <= b.len(),
    ensures
        r == bindings_map(b@.take(hi as int)).dom().contains(name@),
    decreases hi,
{
    if hi == 0 {
        proof {
            assert(b@.take(0) =~= Seq::<(String, LispExpr)>::empty());
        }
        false
    } else {
        let j = hi - 1;
        proof {
            assert(b@.take(hi as int).drop_last() =~= b@.take(j as int));
            assert(b@.take(hi as int).last() == b@[j as int]);
        }
        if b[j].0 == *name {
            true
        } else {
            binding_contains(b, j, name)
        }
    }
}

fn binding_get<'a>(b: &'a Vec<(String, LispExpr)>, hi: usize, name: &String) -> (r: Option<
    &'a LispExpr,
>)
    requires
        hi <= b.len(),
    ensures
        match r {
            Some(e) => bindings_map(b@.take(hi as int)).dom().contains(name@) && e@
                == bindings_map(b@.take(hi as int))[name@],
            None => !bindings_map(b@.take(hi as int)).dom().contains(name@),
        },
    decreases hi,
{
    if hi == 0 {
        proof {
            assert(b@.take(0) =~= Seq::<(String, LispExpr)>::empty());
        }
        None
    } else {
        let j = hi - 1;
        proof {
            assert(b@.take(hi as int).drop_last() =~= b@.take(j as int));
            assert(b@.take(hi as int).last() == b@[j as int]);
        }
        if b[j].0 == *name {
            Some(&b[j].1)
        } else {
            binding_get(b, j, name)
        }
    }
}

fn hmap_get<'a>(m: &'a Vec<(String, String)>, hi: usize, name: &String) -> (r: Option<&'a String>)
    requires
        hi <= m.len(),
    ensures
        match r {
            Some(f) => hmap_view(m@.take(hi as int)).dom().contains(name@) && f@
                == hmap_view(m@.take(hi as int))[name@],
            None => !hmap_view(m@.take(hi as int)).dom().contains(name@),
        },
    decreases hi,
{
    if hi == 0 {
        proof {
            assert(m@.take(0) =~= Seq::<(String, String)>::empty());
        }
        None
    } else {
        let j = hi - 1;
        proof {
            assert(m@.take(hi as int).drop_last() =~= m@.take(j as int));
            assert(m@.take(hi as int).last() == m@[j as int]);
        }
        if m[j].0 == *name {
            Some(&m[j].1)
        } else {
            hmap_get(m, j, name)
        }
    }
}

fn names_contains(v: &Vec<String>, x: &String) -> (r: bool)
    ensures
        r == names_view(v@).contains(x@),
{
    let mut i: usize = 0;
    while i < v.len()
        invariant
            i <= v.len(),
            forall|k: int| 0 <= k < i ==> v@[k]@ != x@,
        decreases v.len() - i,
    {
        if v[i] == *x {
            proof {
                assert(names_view(v@)[i as int] == x@);
            }
            return true;
        }
        i += 1;
    }
    proof {
        assert forall|k: int| 0 <= k < names_view(v@).len() implies names_view(v@)[k] != x@ by {}
    }
    false
}

fn is_builtin_string(s: &String) -> (r: bool)
    ensures
        r == is_builtin(s@),
{
    *s == "let".to_owned() || *s == "if".to_owned() || *s == "define".to_owned()
        || *s == "lambda".to_owned() || *s == "quote".to_owned() || *s == "quasiquote".to_owned()
        || *s == "unquote".to_owned() || *s == "unquote-splicing".to_owned()
        || *s == "+".to_owned() || *s == "-".to_owned() || *s == "*".to_owned()
        || *s == "/".to_owned() || *s == "=".to_owned() || *s == "<".to_owned()
        || *s == ">".to_owned() || *s == "<=".to_owned() || *s == ">=".to_owned()
        || *s == "and".to_owned() || *s == "or".to_owned() || *s == "not".to_owned()
        || *s == "list".to_owned() || *s == "car".to_owned() || *s == "cdr".to_owned()
        || *s == "cons".to_owned() || *s == "set!".to_owned() || *s == "begin".to_owned()
        || *s == "progn".to_owned()
}

// ---------------------------------------------------------------------------
// Parameter binding, executable
// ---------------------------------------------------------------------------

/// First position of the `&rest` marker at or after `i`, if any.
fn find_rest_marker(params: &Vec<String>, i: usize) -> (r: Option<usize>)
    requires
        i <= params.len(),
    ensures
        match r {
            Some(j) => i <= j < params.len() && find_rest(names_view(params@), i as int) == Some(
                j as int,
            ),
            None => find_rest(names_view(params@), i as int) is None,
        },
    decreases params.len() - i,
{
    if i == params.len() {
        None
    } else if params[i] == "&rest".to_owned() {
        proof {
            assert(names_view(params@)[i as int] == params@[i as int]@);
        }
        Some(i)
    } else {
        proof {
            assert(names_view(params@)[i as int] == params@[i as int]@);
        }
        find_rest_marker(params, i + 1)
    }
}

fn bind_params(name: &String, params: &Vec<String>, es: &Vec<LispExpr>, argstart: usize) -> (r:
    Result<Vec<(String, LispExpr)>, MacroError>)
    requires
        argstart <= es.len(),
    ensures
        match r {
            Ok(b) => bind_spec(name@, names_view(params@), terms_view(es@).skip(argstart as int))
                matches Ok(m) && bindings_map(b@) == m,
            Err(e) => bind_spec(name@, names_view(params@), terms_view(es@).skip(argstart as int))
                matches Err(ev) && e@ == ev,
        },
{
    let ghost pv = names_view(params@);
    let ghost argsv = terms_view(es@).skip(argstart as int);
    let argc = es.len() - argstart;
    proof {
        assert(argsv.len() == argc);
    }

    let rest_idx = find_rest_marker(params, 0);

    match rest_idx {
        Some(ri) => {
            if ri + 1 >= params.len() {
                return Err(MacroError::InvalidPattern {
                    pattern: "&rest".to_owned(),
                    reason: "&rest must be followed by a parameter name".to_owned(),
                });
            }
            if argc < ri {
                return Err(MacroError::ParameterCountMismatch {
                    macro_name: name.clone(),
                    expected: ri,
                    actual: argc,
                });
            }
            if ri + 2 < params.len() {
                let mut pat = "&rest ".to_owned();
                pat.append(params[ri + 1].as_str());
                proof {
                    assert(pv[(ri + 1) as int] == params@[(ri + 1) as int]@);
                }
                return Err(MacroError::InvalidPattern {
                    pattern: pat,
                    reason: "Parameters cannot appear after &rest parameter".to_owned(),
                });
            }
            let mut b: Vec<(String, LispExpr)> = Vec::new();
            let mut k: usize = 0;
            while k < ri
                invariant
                    k <= ri,
                    ri + 1 < params.len(),
                    ri <= argc,
                    argc == es.len() - argstart,
                    argsv == terms_view(es@).skip(argstart as int),
                    pv == names_view(params@),
                    bindings_map(b@) == bind_pointwise(pv, argsv, k as int),
                decreases ri - k,
            {
                let ghost b_pre = b@;
                b.push((params[k].clone(), es[argstart + k].deep_clone()));
                proof {
                    assert(b@.drop_last() =~= b_pre);
                    assert(pv[k as int] == params@[k as int]@);
                    assert(argsv[k as int] == es@[(argstart + k) as int]@);
                }
                k += 1;
            }
            let mut rest_items: Vec<LispExpr> = Vec::new();
            let mut j: usize = ri;
            while j < argc
                invariant
                    ri <= j <= argc,
                    argc == es.len() - argstart,
                    argsv == terms_view(es@).skip(argstart as int),
                    rest_items@.len() == j - ri,
                    forall|q: int| 0 <= q < j - ri ==> rest_items@[q]@ == argsv[ri + q],
                decreases argc - j,
            {
                rest_items.push(es[argstart + j].deep_clone());
                proof {
                    assert(argsv[j as int] == es@[(argstart + j) as int]@);
                }
                j += 1;
            }
            proof {
                assert(terms_view(rest_items@) =~= argsv.skip(ri as int));
            }
            let ghost b_pre = b@;
            b.push((params[ri + 1].clone(), LispExpr::List(rest_items)));
            proof {
                assert(b@.drop_last() =~= b_pre);
                assert(pv[(ri + 1) as int] == params@[(ri + 1) as int]@);
                assert((LispExpr::List(rest_items))@ == TermV::List(argsv.skip(ri as int)));
            }
            Ok(b)
        },
        None => {
            if params.len() != argc {
                return Err(MacroError::ParameterCountMismatch {
                    macro_name: name.clone(),
                    expected: params.len(),
                    actual: argc,
                });
            }
            let mut b: Vec<(String, LispExpr)> = Vec::new();
            let mut k: usize = 0;
            while k < params.len()
                invariant
                    k <= params.len(),
                    params.len() == argc,
                    argc == es.len() - argstart,
                    argsv == terms_view(es@).skip(argstart as int),
                    pv == names_view(params@),
                    bindings_map(b@) == bind_pointwise(pv, argsv, k as int),
                decreases params.len() - k,
            {
                let ghost b_pre = b@;
                b.push((params[k].clone(), es[argstart + k].deep_clone()));
                proof {
                    assert(b@.drop_last() =~= b_pre);
                    assert(pv[k as int] == params@[k as int]@);
                    assert(argsv[k as int] == es@[(argstart + k) as int]@);
                }
                k += 1;
            }
            Ok(b)
        },
    }
}


// ---------------------------------------------------------------------------
// Hygiene, executable
// ---------------------------------------------------------------------------

/// Append to `out` the symbols of `t` that are not bound in `b`, in
/// traversal order.
fn collect_from(t: &LispExpr, b: &Vec<(String, LispExpr)>, out: &mut Vec<String>)
    ensures
        names_view(final(out)@) == names_view(old(out)@) + collect_syms(t@, bindings_map(b@).dom()),
    decreases term_size(t@), 0int,
{
    let ghost bound = bindings_map(b@).dom();
    match t {
        LispExpr::Symbol(n) => {
            if !binding_contains(b, b.len(), n) {
                proof {
                    assert(b@.take(b@.len() as int) =~= b@);
                }
                out.push(n.clone());
                proof {
                    assert(names_view(out@) =~= names_view(old(out)@) + seq![n@]);
                }
            } else {
                proof {
                    assert(b@.take(b@.len() as int) =~= b@);
                    assert(names_view(out@) =~= names_view(old(out)@) + Seq::<Seq<char>>::empty());
                }
            }
        },
        LispExpr::List(es) => {
            proof {
                assert(terms_view(es@).skip(0) =~= terms_view(es@));
            }
            collect_list(es, 0, b, out);
        },
        LispExpr::Quote(_) => {
            proof {
                assert(names_view(out@) =~= names_view(old(out)@) + Seq::<Seq<char>>::empty());
            }
        },
        LispExpr::Quasiquote(q) => {
            proof {
                assert(decreases_to!(term_size(t@), 0int => term_size((**q)@), 0int));
            }
            collect_qq_from(q, b, out);
        },
        LispExpr::Unquote(_) | LispExpr::Splice(_) => {
            proof {
                assert(names_view(out@) =~= names_view(old(out)@) + Seq::<Seq<char>>::empty());
            }
        },
        LispExpr::Macro { body, .. } => {
            collect_from(body, b, out);
        },
        _ => {
            proof {
                assert(names_view(out@) =~= names_view(old(out)@) + Seq::<Seq<char>>::empty());
            }
        },
    }
}

fn collect_list(es: &Vec<LispExpr>, start: usize, b: &Vec<(String, LispExpr)>, out: &mut Vec<
    String,
>)
    requires
        start <= es.len(),
    ensures
        names_view(final(out)@) == names_view(old(out)@) + collect_syms_seq(
            terms_view(es@).skip(start as int),
            bindings_map(b@).dom(),
        ),
    decreases seq_size(terms_view(es@).skip(start as int)), 1int,
{
    let ghost bound = bindings_map(b@).dom();
    let ghost tv = terms_view(es@).skip(start as int);
    if start == es.len() {
        proof {
            assert(tv.len() == 0);
            assert(names_view(out@) =~= names_view(old(out)@) + collect_syms_seq(tv, bound));
        }
    } else {
        proof {
            lemma_seq_size_first(tv);
            assert(tv[0] == es@[start as int]@);
            assert(tv.drop_first() =~= terms_view(es@).skip(start as int + 1));
        }
        let ghost mid_target = names_view(old(out)@) + collect_syms(es@[start as int]@, bound);
        collect_from(&es[start], b, out);
        collect_list(es, start + 1, b, out);
        proof {
            assert(names_view(out@) =~= names_view(old(out)@) + collect_syms_seq(tv, bound));
        }
    }
}

fn collect_qq_from(t: &LispExpr, b: &Vec<(String, LispExpr)>, out: &mut Vec<String>)
    ensures
        names_view(final(out)@) == names_view(old(out)@) + collect_syms_qq(t@, bindings_map(b@).dom()),
    decreases term_size(t@), 0int,
{
    let ghost bound = bindings_map(b@).dom();
    match t {
        LispExpr::Unquote(_) | LispExpr::Splice(_) => {
            proof {
                assert(names_view(out@) =~= names_view(old(out)@) + Seq::<Seq<char>>::empty());
            }
        },
        LispExpr::Symbol(n) => {
            if !binding_contains(b, b.len(), n) {
                proof {
                    assert(b@.take(b@.len() as int) =~= b@);
                }
                out.push(n.clone());
                proof {
                    assert(names_view(out@) =~= names_view(old(out)@) + seq![n@]);
                }
            } else {
                proof {
                    assert(b@.take(b@.len() as int) =~= b@);
                    assert(names_view(out@) =~= names_view(old(out)@) + Seq::<Seq<char>>::empty());
                }
            }
        },
        LispExpr::List(es) => {
            proof {
                assert(terms_view(es@).skip(0) =~= terms_view(es@));
            }
            collect_qq_list(es, 0, b, out);
        },
        _ => {
            proof {
                assert(names_view(out@) =~= names_view(old(out)@) + Seq::<Seq<char>>::empty());
            }
        },
    }
}

fn collect_qq_list(es: &Vec<LispExpr>, start: usize, b: &Vec<(String, LispExpr)>, out: &mut Vec<
    String,
>)
    requires
        start <= es.len(),
    ensures
        names_view(final(out)@) == names_view(old(out)@) + collect_syms_qq_seq(
            terms_view(es@).skip(start as int),
            bindings_map(b@).dom(),
        ),
    decreases seq_size(terms_view(es@).skip(start as int)), 1int,
{
    let ghost bound = bindings_map(b@).dom();
    let ghost tv = terms_view(es@).skip(start as int);
    if start == es.len() {
        proof {
            assert(tv.len() == 0);
            assert(names_view(out@) =~= names_view(old(out)@) + collect_syms_qq_seq(tv, bound));
        }
    } else {
        proof {
            lemma_seq_size_first(tv);
            assert(tv[0] == es@[start as int]@);
            assert(tv.drop_first() =~= terms_view(es@).skip(start as int + 1));
        }
        collect_qq_from(&es[start], b, out);
        collect_qq_list(es, start + 1, b, out);
        proof {
            assert(names_view(out@) =~= names_view(old(out)@) + collect_syms_qq_seq(tv, bound));
        }
    }
}

// ---------------------------------------------------------------------------
// Renaming, executable
// ---------------------------------------------------------------------------

fn rename_exec(t: &LispExpr, m: &Vec<(String, String)>) -> (r: LispExpr)
    ensures
        r@ == rename_spec(t@, hmap_view(m@)),
    decreases term_size(t@), 0int,
{
    let ghost hm = hmap_view(m@);
    match t {
        LispExpr::Symbol(n) => {
            match hmap_get(m, m.len(), n) {
                Some(fresh) => {
                    proof {
                        assert(m@.take(m@.len() as int) =~= m@);
                    }
                    LispExpr::Gensym(fresh.clone())
                },
                None => {
                    proof {
                        assert(m@.take(m@.len() as int) =~= m@);
                    }
                    t.deep_clone()
                },
            }
        },
        LispExpr::List(es) => {
            proof {
                assert(terms_view(es@).skip(0) =~= terms_view(es@));
            }
            let rs = rename_list(es, 0, m);
            proof {
                assert((LispExpr::List(rs))@ == TermV::List(rename_seq(terms_view(es@), hm)));
            }
            LispExpr::List(rs)
        },
        LispExpr::Quote(_) => t.deep_clone(),
        LispExpr::Quasiquote(q) => {
            proof {
                assert(decreases_to!(term_size(t@), 0int => term_size((**q)@), 0int));
            }
            LispExpr::Quasiquote(Box::new(rename_qq_exec(q, m)))
        },
        LispExpr::Unquote(e) => LispExpr::Unquote(Box::new(rename_exec(e, m))),
        LispExpr::Splice(e) => LispExpr::Splice(Box::new(rename_exec(e, m))),
        LispExpr::Macro { name, parameters, body } => {
            let r = LispExpr::Macro {
                name: name.clone(),
                parameters: clone_names(parameters),
                body: Box::new(rename_exec(body, m)),
            };
            proof {
                assert(r@ == rename_spec(t@, hm));
            }
            r
        },
        _ => t.deep_clone(),
    }
}

fn rename_list(es: &Vec<LispExpr>, start: usize, m: &Vec<(String, String)>) -> (r: Vec<LispExpr>)
    requires
        start <= es.len(),
    ensures
        terms_view(r@) == rename_seq(terms_view(es@).skip(start as int), hmap_view(m@)),
    decreases seq_size(terms_view(es@).skip(start as int)), 1int,
{
    let ghost hm = hmap_view(m@);
    let ghost tv = terms_view(es@).skip(start as int);
    if start == es.len() {
        let r: Vec<LispExpr> = Vec::new();
        proof {
            assert(tv.len() == 0);
            assert(terms_view(r@) =~= rename_seq(tv, hm));
        }
        r
    } else {
        proof {
            lemma_seq_size_first(tv);
            assert(tv[0] == es@[start as int]@);
            assert(tv.drop_first() =~= terms_view(es@).skip(start as int + 1));
        }
        let head = rename_exec(&es[start], m);
        let mut rest = rename_list(es, start + 1, m);
        rest.insert(0, head);
        proof {
            assert(terms_view(rest@) =~= rename_seq(tv, hm));
        }
        rest
    }
}

fn rename_qq_exec(t: &LispExpr, m: &Vec<(String, String)>) -> (r: LispExpr)
    ensures
        r@ == rename_qq_spec(t@, hmap_view(m@)),
    decreases term_size(t@), 0int,
{
    let ghost hm = hmap_view(m@);
    match t {
        LispExpr::Unquote(_) | LispExpr::Splice(_) => t.deep_clone(),
        LispExpr::Symbol(n) => {
            match hmap_get(m, m.len(), n) {
                Some(fresh) => {
                    proof {
                        assert(m@.take(m@.len() as int) =~= m@);
                    }
                    LispExpr::Gensym(fresh.clone())
                },
                None => {
                    proof {
                        assert(m@.take(m@.len() as int) =~= m@);
                    }
                    t.deep_clone()
                },
            }
        },
        LispExpr::List(es) => {
            proof {
                assert(terms_view(es@).skip(0) =~= terms_view(es@));
            }
            let rs = rename_qq_list(es, 0, m);
            LispExpr::List(rs)
        },
        _ => t.deep_clone(),
    }
}

fn rename_qq_list(es: &Vec<LispExpr>, start: usize, m: &Vec<(String, String)>) -> (r: Vec<
    LispExpr,
>)
    requires
        start <= es.len(),
    ensures
        terms_view(r@) == rename_qq_seq(terms_view(es@).skip(start as int), hmap_view(m@)),
    decreases seq_size(terms_view(es@).skip(start as int)), 1int,
{
    let ghost hm = hmap_view(m@);
    let ghost tv = terms_view(es@).skip(start as int);
    if start == es.len() {
        let r: Vec<LispExpr> = Vec::new();
        proof {
            assert(tv.len() == 0);
            assert(terms_view(r@) =~= rename_qq_seq(tv, hm));
        }
        r
    } else {
        proof {
            lemma_seq_size_first(tv);
            assert(tv[0] == es@[start as int]@);
            assert(tv.drop_first() =~= terms_view(es@).skip(start as int + 1));
        }
        let head = rename_qq_exec(&es[start], m);
        let mut rest = rename_qq_list(es, start + 1, m);
        rest.insert(0, head);
        proof {
            assert(terms_view(rest@) =~= rename_qq_seq(tv, hm));
        }
        rest
    }
}


// ---------------------------------------------------------------------------
// Substitution, executable
// ---------------------------------------------------------------------------

/// The fuel that substitution receives: one more than the depth bound,
/// capped at the machine limit.
pub open spec fn subst_fuel(maxd: int) -> nat {
    if maxd < usize::MAX as int {
        (maxd + 1) as nat
    } else {
        maxd as nat
    }
}

fn subst_exec(t: &LispExpr, b: &Vec<(String, LispExpr)>, fuel: usize) -> (r: Result<
    LispExpr,
    MacroError,
>)
    ensures
        match r {
            Ok(e) => subst_spec(t@, bindings_map(b@), fuel as nat) matches Ok(tv) && e@ == tv,
            Err(e) => subst_spec(t@, bindings_map(b@), fuel as nat) matches Err(ev) && e@ == ev,
        },
    decreases fuel, term_size(t@), 0int,
{
    let ghost bm = bindings_map(b@);
    match t {
        LispExpr::Symbol(n) => {
            proof {
                assert(b@.take(b@.len() as int) =~= b@);
            }
            match binding_get(b, b.len(), n) {
                Some(e) => Ok(e.deep_clone()),
                None => Ok(t.deep_clone()),
            }
        },
        LispExpr::List(es) => {
            proof {
                assert(terms_view(es@).skip(0) =~= terms_view(es@));
            }
            match subst_list(es, 0, b, fuel) {
                Ok(rs) => {
                    proof {
                        assert((LispExpr::List(rs))@ == TermV::List(terms_view(rs@)));
                    }
                    Ok(LispExpr::List(rs))
                },
                Err(e) => Err(e),
            }
        },
        LispExpr::Quote(_) => Ok(t.deep_clone()),
        LispExpr::Quasiquote(q) => {
            match subst_exec(q, b, fuel) {
                Ok(sq) => {
                    if fuel == 0 {
                        Err(MacroError::ExpansionError {
                            message: "Quasiquote nesting exceeds the substitution depth bound"
                                .to_owned(),
                            context: None,
                        })
                    } else {
                        qq_subst_exec(&sq, b, fuel - 1)
                    }
                },
                Err(e) => Err(e),
            }
        },
        LispExpr::Unquote(e) => {
            match subst_exec(e, b, fuel) {
                Ok(r) => Ok(LispExpr::Unquote(Box::new(r))),
                Err(er) => Err(er),
            }
        },
        LispExpr::Splice(e) => {
            match subst_exec(e, b, fuel) {
                Ok(r) => Ok(LispExpr::Splice(Box::new(r))),
                Err(er) => Err(er),
            }
        },
        _ => Ok(t.deep_clone()),
    }
}

fn subst_list(es: &Vec<LispExpr>, start: usize, b: &Vec<(String, LispExpr)>, fuel: usize) -> (r:
    Result<Vec<LispExpr>, MacroError>)
    requires
        start <= es.len(),
    ensures
        match r {
            Ok(rs) => subst_seq(terms_view(es@).skip(start as int), bindings_map(b@), fuel as nat)
                matches Ok(sv) && terms_view(rs@) == sv,
            Err(e) => subst_seq(terms_view(es@).skip(start as int), bindings_map(b@), fuel as nat)
                matches Err(ev) && e@ == ev,
        },
    decreases fuel, seq_size(terms_view(es@).skip(start as int)), 1int,
{
    let ghost tv = terms_view(es@).skip(start as int);
    if start == es.len() {
        let r: Vec<LispExpr> = Vec::new();
        proof {
            assert(tv.len() == 0);
            assert(terms_view(r@) =~= Seq::<TermV>::empty());
        }
        Ok(r)
    } else {
        proof {
            lemma_seq_size_first(tv);
            assert(tv[0] == es@[start as int]@);
            assert(tv.drop_first() =~= terms_view(es@).skip(start as int + 1));
        }
        match subst_exec(&es[start], b, fuel) {
            Err(e) => Err(e),
            Ok(head) => {
                match subst_list(es, start + 1, b, fuel) {
                    Err(e) => Err(e),
                    Ok(mut rest) => {
                        rest.insert(0, head);
                        proof {
                            assert(terms_view(rest@) =~= seq![head@] + terms_view(
                                rest@.drop_first(),
                            ));
                        }
                        Ok(rest)
                    },
                }
            },
        }
    }
}

fn qq_subst_exec(t: &LispExpr, b: &Vec<(String, LispExpr)>, fuel: usize) -> (r: Result<
    LispExpr,
    MacroError,
>)
    ensures
        match r {
            Ok(e) => qq_subst_spec(t@, bindings_map(b@), fuel as nat) matches Ok(tv) && e@ == tv,
            Err(e) => qq_subst_spec(t@, bindings_map(b@), fuel as nat) matches Err(ev) && e@ == ev,
        },
    decreases fuel, term_size(t@), 1int,
{
    match t {
        LispExpr::Unquote(inner) => subst_exec(inner, b, fuel),
        LispExpr::List(es) => {
            proof {
                assert(terms_view(es@).skip(0) =~= terms_view(es@));
            }
            match qq_subst_list(es, 0, b, fuel) {
                Ok(rs) => Ok(LispExpr::List(rs)),
                Err(e) => Err(e),
            }
        },
        _ => Ok(t.deep_clone()),
    }
}

fn qq_subst_list(es: &Vec<LispExpr>, start: usize, b: &Vec<(String, LispExpr)>, fuel: usize) -> (r:
    Result<Vec<LispExpr>, MacroError>)
    requires
        start <= es.len(),
    ensures
        match r {
            Ok(rs) => qq_subst_seq(terms_view(es@).skip(start as int), bindings_map(b@), fuel as nat)
                matches Ok(sv) && terms_view(rs@) == sv,
            Err(e) => qq_subst_seq(terms_view(es@).skip(start as int), bindings_map(b@), fuel as nat)
                matches Err(ev) && e@ == ev,
        },
    decreases fuel, seq_size(terms_view(es@).skip(start as int)), 2int,
{
    let ghost tv = terms_view(es@).skip(start as int);
    if start == es.len() {
        let r: Vec<LispExpr> = Vec::new();
        proof {
            assert(tv.len() == 0);
            assert(terms_view(r@) =~= Seq::<TermV>::empty());
        }
        Ok(r)
    } else {
        proof {
            lemma_seq_size_first(tv);
            assert(tv[0] == es@[start as int]@);
            assert(tv.drop_first() =~= terms_view(es@).skip(start as int + 1));
        }
        let mut head_items: Vec<LispExpr>;
        match &es[start] {
            LispExpr::Splice(p) => {
                proof {
                    assert(term_size(tv[0]) == 1 + term_size((**p)@));
                }
                match subst_exec(p, b, fuel) {
                    Err(e) => {
                        return Err(e);
                    },
                    Ok(sp) => {
                        match sp {
                            LispExpr::List(parts) => {
                                head_items = parts;
                            },
                            other => {
                                return Err(MacroError::ExpansionError {
                                    message: "Splice (unquote-splicing) must expand to a list"
                                        .to_owned(),
                                    context: Some(other.describe()),
                                });
                            },
                        }
                    },
                }
            },
            _ => {
                match qq_subst_exec(&es[start], b, fuel) {
                    Err(e) => {
                        return Err(e);
                    },
                    Ok(r0) => {
                        head_items = Vec::new();
                        head_items.push(r0);
                    },
                }
            },
        }
        match qq_subst_list(es, start + 1, b, fuel) {
            Err(e) => Err(e),
            Ok(mut rest) => {
                let ghost hv = terms_view(head_items@);
                let ghost rv = terms_view(rest@);
                head_items.append(&mut rest);
                proof {
                    assert(terms_view(head_items@) =~= hv + rv);
                }
                Ok(head_items)
            },
        }
    }
}


// ---------------------------------------------------------------------------
// Expansion, executable
// ---------------------------------------------------------------------------

impl ExpanderState {
    fn has_macro(&self, name: &String) -> (r: bool)
        ensures
            r == self.model().macros.dom().contains(name@),
    {
        proof {
            assert(self.macros@.take(self.macros@.len() as int) =~= self.macros@);
        }
        registry_get_from(&self.macros, self.macros.len(), name).is_some()
    }

    fn get_macro(&self, name: &String) -> (r: Option<MacroDefinition>)
        ensures
            match r {
                Some(d) => self.model().macros.dom().contains(name@) && def_view(d)
                    == self.model().macros[name@],
                None => !self.model().macros.dom().contains(name@),
            },
    {
        proof {
            assert(self.macros@.take(self.macros@.len() as int) =~= self.macros@);
        }
        match registry_get_from(&self.macros, self.macros.len(), name) {
            Some(j) => {
                let d = &self.macros[j];
                let copy = MacroDefinition {
                    name: d.name.clone(),
                    parameters: clone_names(&d.parameters),
                    body: d.body.deep_clone(),
                };
                proof {
                    assert(def_view(copy) == def_view(self.macros@[j as int]));
                }
                Some(copy)
            },
            None => None,
        }
    }

    fn install(&mut self, name: &String, parameters: &Vec<String>, body: &LispExpr)
        ensures
            final(self).model() == (StV {
                macros: old(self).model().macros.insert(
                    name@,
                    DefV { params: names_view(parameters@), body: body@ },
                ),
                counter: old(self).model().counter,
            }),
    {
        let ghost pre = self.macros@;
        self.macros.push(
            MacroDefinition {
                name: name.clone(),
                parameters: clone_names(parameters),
                body: body.deep_clone(),
            },
        );
        proof {
            assert(self.macros@.drop_last() =~= pre);
            assert(def_view(self.macros@.last()) == (DefV {
                params: names_view(parameters@),
                body: body@,
            }));
        }
    }

    fn gensym_raw(&mut self, prefix: &str) -> (r: String)
        ensures
            final(self).model() == (StV {
                macros: old(self).model().macros,
                counter: bump(old(self).model().counter),
            }),
            r@ == gensym_name(prefix@, bump(old(self).model().counter)),
    {
        if self.counter < usize::MAX {
            self.counter = self.counter + 1;
        }
        let mut s = prefix.to_owned();
        s.append("#g");
        let d = usize_to_string(self.counter);
        s.append(d.as_str());
        proof {
            assert(s@ =~= gensym_name(prefix@, self.counter as int));
        }
        s
    }

    fn filter_introduced(&self, raw: &Vec<String>) -> (r: Vec<String>)
        ensures
            names_view(r@) == filter_syms(names_view(raw@), self.model().macros),
    {
        let mut out: Vec<String> = Vec::new();
        let mut i: usize = 0;
        while i < raw.len()
            invariant
                i <= raw.len(),
                names_view(out@) == filter_syms(names_view(raw@).take(i as int), self.model().macros),
            decreases raw.len() - i,
        {
            let ghost pref = names_view(raw@).take(i as int);
            let ghost next = names_view(raw@).take(i as int + 1);
            proof {
                assert(next.drop_last() =~= pref);
                assert(next.last() == raw@[i as int]@);
            }
            if !is_builtin_string(&raw[i]) && !self.has_macro(&raw[i]) {
                let ghost outpre = out@;
                out.push(raw[i].clone());
                proof {
                    assert(names_view(out@) =~= names_view(outpre) + seq![raw@[i as int]@]);
                }
            }
            i += 1;
        }
        proof {
            assert(names_view(raw@).take(raw@.len() as int) =~= names_view(raw@));
        }
        out
    }

    fn mint_hygiene(&mut self, syms: &Vec<String>) -> (r: Vec<(String, String)>)
        ensures
            final(self).model() == (StV {
                macros: old(self).model().macros,
                counter: bump_n(old(self).model().counter, syms@.len() as int),
            }),
            hmap_view(r@) == mint_map(names_view(syms@), old(self).model().counter),
    {
        let ghost c0 = self.model().counter;
        let mut out: Vec<(String, String)> = Vec::new();
        let mut i: usize = 0;
        while i < syms.len()
            invariant
                i <= syms.len(),
                self.model().macros == old(self).model().macros,
                self.model().counter == bump_n(c0, i as int),
                c0 == old(self).model().counter,
                hmap_view(out@) == mint_map(names_view(syms@).take(i as int), c0),
            decreases syms.len() - i,
        {
            let ghost pref = names_view(syms@).take(i as int);
            let ghost next = names_view(syms@).take(i as int + 1);
            proof {
                assert(next.drop_last() =~= pref);
                assert(next.last() == syms@[i as int]@);
                assert(next.len() == i + 1);
            }
            let fresh = self.gensym_raw(syms[i].as_str());
            let ghost outpre = out@;
            out.push((syms[i].clone(), fresh));
            proof {
                assert(out@.drop_last() =~= outpre);
            }
            i += 1;
        }
        proof {
            assert(names_view(syms@).take(syms@.len() as int) =~= names_view(syms@));
        }
        out
    }

    fn expand_call(
        &mut self,
        maxd: usize,
        depth: usize,
        name: &String,
        es: &Vec<LispExpr>,
        argstart: usize,
    ) -> (r: Result<LispExpr, MacroError>)
        requires
            argstart <= es.len(),
            maxd < usize::MAX,
            depth <= maxd + 1,
        ensures
            ({
                let (sr, st2) = expand_call_spec(
                    old(self).model(),
                    maxd as int,
                    depth as int,
                    name@,
                    terms_view(es@).skip(argstart as int),
                );
                final(self).model() == st2 && (match (r, sr) {
                    (Ok(e), Ok(tv)) => e@ == tv,
                    (Err(e), Err(ev)) => e@ == ev,
                    _ => false,
                })
            }),
        decreases fuel_left(maxd as int, depth as int), 1int, 0int, 0int,
    {
        let def = match self.get_macro(name) {
            Some(d) => d,
            None => {
                return Err(MacroError::UndefinedMacro(name.clone()));
            },
        };
        match bind_params(name, &def.parameters, es, argstart) {
            Err(e) => Err(e),
            Ok(b) => {
                let mut raw: Vec<String> = Vec::new();
                collect_from(&def.body, &b, &mut raw);
                proof {
                    assert(names_view(raw@) =~= Seq::<Seq<char>>::empty() + names_view(raw@));
                }
                let filtered = self.filter_introduced(&raw);
                let syms = dedup_introduced(&filtered);
                let hm = self.mint_hygiene(&syms);
                let renamed = rename_exec(&def.body, &hm);
                let sfuel = if maxd < usize::MAX {
                    maxd + 1
                } else {
                    maxd
                };
                match subst_exec(&renamed, &b, sfuel) {
                    Err(e) => Err(e),
                    Ok(sb) => self.expand_expr(maxd, depth, &sb),
                }
            },
        }
    }

    fn expand_expr(&mut self, maxd: usize, depth: usize, t: &LispExpr) -> (r: Result<
        LispExpr,
        MacroError,
    >)
        requires
            maxd < usize::MAX,
            depth <= maxd + 1,
        ensures
            ({
                let (sr, st2) = expand_spec(old(self).model(), maxd as int, depth as int, t@);
                final(self).model() == st2 && (match (r, sr) {
                    (Ok(e), Ok(tv)) => e@ == tv,
                    (Err(e), Err(ev)) => e@ == ev,
                    _ => false,
                })
            }),
        decreases fuel_left(maxd as int, depth as int), 0int, term_size(t@), 0int,
    {
        match t {
            LispExpr::Macro { name, parameters, body } => {
                self.install(name, parameters, body);
                Ok(LispExpr::Nil)
            },
            LispExpr::MacroCall { name, args } => {
                if depth > maxd {
                    Err(MacroError::MaxDepthExceeded { depth: maxd, macro_name: name.clone() })
                } else {
                    proof {
                        assert(terms_view(args@).skip(0) =~= terms_view(args@));
                    }
                    self.expand_call(maxd, depth + 1, name, args, 0)
                }
            },
            LispExpr::List(es) => {
                if es.len() == 0 {
                    Ok(t.deep_clone())
                } else {
                    let head_is_macro = match &es[0] {
                        LispExpr::Symbol(h) => self.has_macro(h),
                        _ => false,
                    };
                    proof {
                        assert(terms_view(es@)[0] == es@[0]@);
                    }
                    if head_is_macro {
                        match &es[0] {
                            LispExpr::Symbol(h) => {
                                if depth > maxd {
                                    Err(MacroError::MaxDepthExceeded {
                                        depth: maxd,
                                        macro_name: h.clone(),
                                    })
                                } else {
                                    self.expand_call(maxd, depth + 1, h, es, 1)
                                }
                            },
                            _ => {
                                proof {
                                    assert(false);
                                }
                                Err(MacroError::UndefinedMacro(String::new()))
                            },
                        }
                    } else {
                        proof {
                            assert(terms_view(es@).skip(0) =~= terms_view(es@));
                        }
                        match self.expand_elems(maxd, depth, es, 0) {
                            Ok(rs) => {
                                proof {
                                    assert((LispExpr::List(rs))@ == TermV::List(terms_view(rs@)));
                                }
                                Ok(LispExpr::List(rs))
                            },
                            Err(e) => Err(e),
                        }
                    }
                }
            },
            LispExpr::Quote(_) => Ok(t.deep_clone()),
            LispExpr::Quasiquote(q) => {
                proof {
                    assert(decreases_to!(
                        fuel_left(maxd as int, depth as int), 0int, term_size(t@), 0int =>
                        fuel_left(maxd as int, depth as int), 0int, term_size((**q)@), 1int));
                }
                match self.expand_qq(maxd, depth, q) {
                    Ok(r0) => Ok(LispExpr::Quasiquote(Box::new(r0))),
                    Err(e) => Err(e),
                }
            },
            LispExpr::Unquote(e) => {
                match self.expand_expr(maxd, depth, e) {
                    Ok(r0) => Ok(LispExpr::Unquote(Box::new(r0))),
                    Err(er) => Err(er),
                }
            },
            LispExpr::Splice(e) => {
                match self.expand_expr(maxd, depth, e) {
                    Ok(r0) => Ok(LispExpr::Splice(Box::new(r0))),
                    Err(er) => Err(er),
                }
            },
            _ => Ok(t.deep_clone()),
        }
    }

    fn expand_elems(&mut self, maxd: usize, depth: usize, es: &Vec<LispExpr>, start: usize) -> (r:
        Result<Vec<LispExpr>, MacroError>)
        requires
            start <= es.len(),
            maxd < usize::MAX,
            depth <= maxd + 1,
        ensures
            ({
                let (sr, st2) = expand_elems_spec(
                    old(self).model(),
                    maxd as int,
                    depth as int,
                    terms_view(es@).skip(start as int),
                );
                final(self).model() == st2 && (match (r, sr) {
                    (Ok(rs), Ok(sv)) => terms_view(rs@) == sv,
                    (Err(e), Err(ev)) => e@ == ev,
                    _ => false,
                })
            }),
        decreases fuel_left(maxd as int, depth as int), 0int, seq_size(
            terms_view(es@).skip(start as int),
        ), 1int,
    {
        let ghost tv = terms_view(es@).skip(start as int);
        if start == es.len() {
            let r: Vec<LispExpr> = Vec::new();
            proof {
                assert(tv.len() == 0);
                assert(terms_view(r@) =~= Seq::<TermV>::empty());
            }
            Ok(r)
        } else {
            proof {
                lemma_seq_size_first(tv);
                assert(tv[0] == es@[start as int]@);
                assert(tv.drop_first() =~= terms_view(es@).skip(start as int + 1));
            }
            let ghost st0 = self.model();
            let child_away: bool;
            match &es[start] {
                LispExpr::Macro { .. } => {
                    child_away = true;
                    proof {
                        assert(expands_away(tv[0], st0.macros));
                    }
                },
                LispExpr::MacroCall { .. } => {
                    child_away = true;
                    proof {
                        assert(expands_away(tv[0], st0.macros));
                    }
                },
                LispExpr::List(inner) => {
                    proof {
                        assert(tv[0] == TermV::List(terms_view(inner@)));
                    }
                    if inner.len() > 0 {
                        proof {
                            assert(terms_view(inner@)[0] == inner@[0]@);
                        }
                        match &inner[0] {
                            LispExpr::Symbol(h) => {
                                child_away = self.has_macro(h);
                                proof {
                                    assert(child_away == expands_away(tv[0], st0.macros));
                                }
                            },
                            _ => {
                                child_away = false;
                                proof {
                                    assert(!expands_away(tv[0], st0.macros));
                                }
                            },
                        }
                    } else {
                        child_away = false;
                        proof {
                            assert(!expands_away(tv[0], st0.macros));
                        }
                    }
                },
                _ => {
                    child_away = false;
                    proof {
                        assert(!expands_away(tv[0], st0.macros));
                    }
                },
            }
            proof {
                assert(child_away == expands_away(tv[0], st0.macros));
            }
            match self.expand_expr(maxd, depth, &es[start]) {
                Err(e) => Err(e),
                Ok(head) => {
                    match self.expand_elems(maxd, depth, es, start + 1) {
                        Err(e) => Err(e),
                        Ok(mut rest) => {
                            let head_is_nil = matches!(head, LispExpr::Nil);
                            if !(head_is_nil && child_away) {
                                rest.insert(0, head);
                                proof {
                                    assert(terms_view(rest@) =~= seq![rest@[0]@] + terms_view(
                                        rest@.drop_first(),
                                    ));
                                }
                            }
                            Ok(rest)
                        },
                    }
                },
            }
        }
    }

    fn expand_qq(&mut self, maxd: usize, depth: usize, t: &LispExpr) -> (r: Result<
        LispExpr,
        MacroError,
    >)
        requires
            maxd < usize::MAX,
            depth <= maxd + 1,
        ensures
            ({
                let (sr, st2) = expand_qq_spec(old(self).model(), maxd as int, depth as int, t@);
                final(self).model() == st2 && (match (r, sr) {
                    (Ok(e), Ok(tv)) => e@ == tv,
                    (Err(e), Err(ev)) => e@ == ev,
                    _ => false,
                })
            }),
        decreases fuel_left(maxd as int, depth as int), 0int, term_size(t@), 1int,
    {
        match t {
            LispExpr::Unquote(inner) => self.expand_expr(maxd, depth, inner),
            LispExpr::List(es) => {
                proof {
                    assert(terms_view(es@).skip(0) =~= terms_view(es@));
                }
                match self.expand_qq_elems(maxd, depth, es, 0) {
                    Ok(rs) => Ok(LispExpr::List(rs)),
                    Err(e) => Err(e),
                }
            },
            _ => Ok(t.deep_clone()),
        }
    }

    fn expand_qq_elems(&mut self, maxd: usize, depth: usize, es: &Vec<LispExpr>, start: usize) -> (r:
        Result<Vec<LispExpr>, MacroError>)
        requires
            start <= es.len(),
            maxd < usize::MAX,
            depth <= maxd + 1,
        ensures
            ({
                let (sr, st2) = expand_qq_elems_spec(
                    old(self).model(),
                    maxd as int,
                    depth as int,
                    terms_view(es@).skip(start as int),
                );
                final(self).model() == st2 && (match (r, sr) {
                    (Ok(rs), Ok(sv)) => terms_view(rs@) == sv,
                    (Err(e), Err(ev)) => e@ == ev,
                    _ => false,
                })
            }),
        decreases fuel_left(maxd as int, depth as int), 0int, seq_size(
            terms_view(es@).skip(start as int),
        ), 2int,
    {
        let ghost tv = terms_view(es@).skip(start as int);
        if start == es.len() {
            let r: Vec<LispExpr> = Vec::new();
            proof {
                assert(tv.len() == 0);
                assert(terms_view(r@) =~= Seq::<TermV>::empty());
            }
            Ok(r)
        } else {
            proof {
                lemma_seq_size_first(tv);
                assert(tv[0] == es@[start as int]@);
                assert(tv.drop_first() =~= terms_view(es@).skip(start as int + 1));
            }
            let mut head_items: Vec<LispExpr>;
            match &es[start] {
                LispExpr::Splice(p) => {
                    proof {
                        assert(term_size(tv[0]) == 1 + term_size((**p)@));
                    }
                    match self.expand_expr(maxd, depth, p) {
                        Err(e) => {
                            return Err(e);
                        },
                        Ok(sp) => {
                            match sp {
                                LispExpr::List(parts) => {
                                    head_items = parts;
                                },
                                other => {
                                    return Err(MacroError::ExpansionError {
                                        message:
                                            "Splice (unquote-splicing) must expand to a list"
                                            .to_owned(),
                                        context: Some(other.describe()),
                                    });
                                },
                            }
                        },
                    }
                },
                _ => {
                    match self.expand_qq(maxd, depth, &es[start]) {
                        Err(e) => {
                            return Err(e);
                        },
                        Ok(r0) => {
                            head_items = Vec::new();
                            head_items.push(r0);
                        },
                    }
                },
            }
            match self.expand_qq_elems(maxd, depth, es, start + 1) {
                Err(e) => Err(e),
                Ok(mut rest) => {
                    let ghost hv = terms_view(head_items@);
                    let ghost rv = terms_view(rest@);
                    head_items.append(&mut rest);
                    proof {
                        assert(terms_view(head_items@) =~= hv + rv);
                    }
                    Ok(head_items)
                },
            }
        }
    }
}

/// Keep only the first occurrence of each name.
fn dedup_introduced(raw: &Vec<String>) -> (r: Vec<String>)
    ensures
        names_view(r@) == dedup_first(names_view(raw@)),
{
    let mut out: Vec<String> = Vec::new();
    let mut i: usize = 0;
    while i < raw.len()
        invariant
            i <= raw.len(),
            names_view(out@) == dedup_first(names_view(raw@).take(i as int)),
        decreases raw.len() - i,
    {
        let ghost pref = names_view(raw@).take(i as int);
        let ghost next = names_view(raw@).take(i as int + 1);
        proof {
            assert(next.drop_last() =~= pref);
            assert(next.last() == raw@[i as int]@);
            lemma_dedup_first_contains(pref, raw@[i as int]@);
        }
        if !names_contains(&out, &raw[i]) {
            let ghost outpre = out@;
            out.push(raw[i].clone());
            proof {
                assert(names_view(out@) =~= names_view(outpre) + seq![raw@[i as int]@]);
            }
        }
        i += 1;
    }
    proof {
        assert(names_view(raw@).take(raw@.len() as int) =~= names_view(raw@));
    }
    out
}

// ---------------------------------------------------------------------------
// The public expander
// ---------------------------------------------------------------------------

/// The macro expander: a registry of macro definitions, a depth bound on
/// nested expansions, and a counter for minting fresh hygienic names.
pub struct MacroExpander {
    state: ExpanderState,
    max_depth: usize,
}

impl MacroExpander {
    /// The registry and counter that this expander denotes.
    pub closed spec fn model(&self) -> StV {
        self.state.model()
    }

    /// The configured bound on nested expansions.
    pub closed spec fn spec_max_depth(&self) -> int {
        self.max_depth as int
    }

    /// The depth bound leaves room for the final increment of the counter.
    pub open spec fn wf(&self) -> bool {
        self.spec_max_depth() < usize::MAX as int
    }

    /// A fresh expander with the default depth bound.
    pub fn new() -> (r: MacroExpander)
        ensures
            r.model() == (StV { macros: Map::empty(), counter: 0 }),
            r.spec_max_depth() == 100,
            r.wf(),
    {
        let r = MacroExpander {
            state: ExpanderState { macros: Vec::new(), counter: 0 },
            max_depth: 100,
        };
        proof {
            assert(r.model().macros =~= Map::<Seq<char>, DefV>::empty());
        }
        r
    }

    /// A fresh expander with the given depth bound.
    pub fn with_max_depth(max_depth: usize) -> (r: MacroExpander)
        requires
            max_depth < usize::MAX,
        ensures
            r.model() == (StV { macros: Map::empty(), counter: 0 }),
            r.spec_max_depth() == max_depth as int,
            r.wf(),
    {
        let r = MacroExpander {
            state: ExpanderState { macros: Vec::new(), counter: 0 },
            max_depth,
        };
        proof {
            assert(r.model().macros =~= Map::<Seq<char>, DefV>::empty());
        }
        r
    }

    /// Mint a unique name for hygienic renaming: the prefix, a `#g` marker,
    /// and the value of the advanced counter.
    pub fn gensym(&mut self, prefix: &str) -> (r: String)
        ensures
            final(self).model() == (StV {
                macros: old(self).model().macros,
                counter: bump(old(self).model().counter),
            }),
            final(self).spec_max_depth() == old(self).spec_max_depth(),
            r@ == gensym_name(prefix@, bump(old(self).model().counter)),
    {
        self.state.gensym_raw(prefix)
    }

    /// Mint a unique name and wrap it as a Gensym term.
    pub fn gen_gensym_expr(&mut self, prefix: &str) -> (r: LispExpr)
        ensures
            final(self).model() == (StV {
                macros: old(self).model().macros,
                counter: bump(old(self).model().counter),
            }),
            final(self).spec_max_depth() == old(self).spec_max_depth(),
            r@ == TermV::Gensym(gensym_name(prefix@, bump(old(self).model().counter))),
    {
        LispExpr::Gensym(self.state.gensym_raw(prefix))
    }

    /// Whether a macro of that name is registered.
    pub(crate) fn has_registered(&self, name: &String) -> (r: bool)
        ensures
            r == self.model().macros.dom().contains(name@),
    {
        self.state.has_macro(name)
    }

    /// Register a macro definition; a later definition of the same name
    /// replaces the earlier one.
    pub fn define_macro(&mut self, name: String, parameters: Vec<String>, body: LispExpr)
        ensures
            final(self).model() == (StV {
                macros: old(self).model().macros.insert(
                    name@,
                    DefV { params: names_view(parameters@), body: body@ },
                ),
                counter: old(self).model().counter,
            }),
            final(self).spec_max_depth() == old(self).spec_max_depth(),
    {
        self.state.install(&name, &parameters, &body)
    }

    /// Expand every macro call in `expr`, from a fresh depth of zero. The
    /// result and the new registry and counter are exactly what the
    /// mathematical expansion `expand_spec` yields; in particular a macro
    /// definition installs itself and expands to Nil.
    pub fn expand_all(&mut self, expr: LispExpr) -> (r: Result<LispExpr, MacroError>)
        requires
            old(self).wf(),
        ensures
            ({
                let (sr, st2) = expand_spec(
                    old(self).model(),
                    old(self).spec_max_depth(),
                    0,
                    expr@,
                );
                final(self).model() == st2 && (match (r, sr) {
                    (Ok(e), Ok(tv)) => e@ == tv,
                    (Err(e), Err(ev)) => e@ == ev,
                    _ => false,
                })
            }),
            final(self).spec_max_depth() == old(self).spec_max_depth(),
            expr@ is Macro ==> (r matches Ok(e) && e@ == TermV::Nil),
            expr@ is Quote ==> (r matches Ok(e) && e@ == expr@),
    {
        let maxd = self.max_depth;
        self.state.expand_expr(maxd, 0, &expr)
    }
}


// ---------------------------------------------------------------------------
// Laws of expansion
// ---------------------------------------------------------------------------

/// Quote opacity: a Quote subtree comes back exactly as it went in, whatever
/// the registry holds and at whatever depth.
pub proof fn lemma_quote_opacity(st: StV, maxd: int, depth: int, t: TermV)
    ensures
        expand_spec(st, maxd, depth, TermV::Quote(Box::new(t))) == (
            Ok::<TermV, ErrV>(TermV::Quote(Box::new(t))),
            st,
        ),
{
}

/// Macro definitions disappear: a Macro term expands to Nil, and installs
/// itself in the registry.
pub proof fn lemma_macro_definition_disappears(
    st: StV,
    maxd: int,
    depth: int,
    name: Seq<char>,
    parameters: Seq<Seq<char>>,
    body: TermV,
)
    ensures
        expand_spec(
            st,
            maxd,
            depth,
            TermV::Macro { name, parameters, body: Box::new(body) },
        ) == (
            Ok::<TermV, ErrV>(TermV::Nil),
            StV {
                macros: st.macros.insert(name, DefV { params: parameters, body }),
                counter: st.counter,
            },
        ),
{
}

/// No successful expansion ever returns a Macro variant: definitions turn
/// into Nil, and every other shape is rebuilt from non-Macro constructors.
pub proof fn lemma_expansion_yields_no_macro(st: StV, maxd: int, depth: int, t: TermV)
    ensures
        expand_spec(st, maxd, depth, t).0 matches Ok(r) ==> !(r is Macro),
    decreases fuel_left(maxd, depth), 0int, term_size(t), 0int,
{
    match t {
        TermV::MacroCall { name, args } => {
            if depth <= maxd {
                lemma_call_yields_no_macro(st, maxd, depth + 1, name, args);
            }
        },
        TermV::List(es) => {
            if es.len() > 0 && es[0] is Symbol && st.macros.dom().contains(es[0]->Symbol_0) {
                if depth <= maxd {
                    lemma_call_yields_no_macro(st, maxd, depth + 1, es[0]->Symbol_0, es.skip(1));
                }
            }
        },
        _ => {},
    }
}

proof fn lemma_call_yields_no_macro(st: StV, maxd: int, depth: int, name: Seq<char>, args: Seq<TermV>)
    ensures
        expand_call_spec(st, maxd, depth, name, args).0 matches Ok(r) ==> !(r is Macro),
    decreases fuel_left(maxd, depth), 1int, 0int, 0int,
{
    if st.macros.dom().contains(name) {
        let def = st.macros[name];
        match bind_spec(name, def.params, args) {
            Err(_) => {},
            Ok(b) => {
                let syms = introduced_syms(def.body, b.dom(), st.macros);
                let hm = mint_map(syms, st.counter);
                let st1 = StV { macros: st.macros, counter: bump_n(st.counter, syms.len() as int) };
                let renamed = rename_spec(def.body, hm);
                match subst_spec(renamed, b, subst_fuel(maxd)) {
                    Err(_) => {},
                    Ok(sb) => {
                        lemma_expansion_yields_no_macro(st1, maxd, depth, sb);
                    },
                }
            },
        }
    }
}

/// Splice flattening: in a quasiquote template, a list element `,@x` whose
/// binding is a List contributes exactly that list's elements, in place,
/// between its substituted neighbours.
pub proof fn lemma_splice_flattening(
    ea: TermV,
    x: Seq<char>,
    eb: TermV,
    b: Map<Seq<char>, TermV>,
    items: Seq<TermV>,
    ra: TermV,
    rb: TermV,
    fuel: nat,
)
    requires
        b.dom().contains(x),
        b[x] == TermV::List(items),
        !(ea is Splice),
        !(eb is Splice),
        qq_subst_spec(ea, b, fuel) == Ok::<TermV, ErrV>(ra),
        qq_subst_spec(eb, b, fuel) == Ok::<TermV, ErrV>(rb),
    ensures
        qq_subst_spec(
            TermV::List(seq![ea, TermV::Splice(Box::new(TermV::Symbol(x))), eb]),
            b,
            fuel,
        ) == Ok::<TermV, ErrV>(TermV::List(seq![ra] + items + seq![rb])),
{
    let es = seq![ea, TermV::Splice(Box::new(TermV::Symbol(x))), eb];
    let es1 = es.drop_first();
    let es2 = es1.drop_first();
    let es3 = es2.drop_first();
    assert(es1 =~= seq![TermV::Splice(Box::new(TermV::Symbol(x))), eb]);
    assert(es2 =~= seq![eb]);
    assert(es3 =~= Seq::<TermV>::empty());
    assert(qq_subst_seq(es3, b, fuel) == Ok::<Seq<TermV>, ErrV>(Seq::<TermV>::empty()));
    assert(qq_subst_seq(es2, b, fuel) == Ok::<Seq<TermV>, ErrV>(seq![rb] + Seq::<TermV>::empty()));
    assert(subst_spec(TermV::Symbol(x), b, fuel) == Ok::<TermV, ErrV>(TermV::List(items)));
    assert(qq_subst_seq(es1, b, fuel) == Ok::<Seq<TermV>, ErrV>(
        items + (seq![rb] + Seq::<TermV>::empty()),
    ));
    assert(qq_subst_seq(es, b, fuel) == Ok::<Seq<TermV>, ErrV>(
        seq![ra] + (items + (seq![rb] + Seq::<TermV>::empty())),
    ));
    assert(seq![ra] + (items + (seq![rb] + Seq::<TermV>::empty())) =~= seq![ra] + items + seq![rb]);
}

proof fn lemma_find_rest_from(params: Seq<Seq<char>>, j: int, k: int)
    requires
        0 <= j <= k < params.len(),
        params[k] == "&rest"@,
        forall|i: int| j <= i < k ==> params[i] != "&rest"@,
    ensures
        find_rest(params, j) == Some(k),
    decreases k - j,
{
    if j < k {
        lemma_find_rest_from(params, j + 1, k);
    }
}

proof fn lemma_bind_pointwise_at(params: Seq<Seq<char>>, args: Seq<TermV>, k: int, i: int)
    requires
        0 <= i < k,
        k <= params.len(),
        k <= args.len(),
        forall|j: int| i < j < k ==> params[j] != params[i],
    ensures
        bind_pointwise(params, args, k).dom().contains(params[i]),
        bind_pointwise(params, args, k)[params[i]] == args[i],
    decreases k,
{
    if i < k - 1 {
        lemma_bind_pointwise_at(params, args, k - 1, i);
    }
}

/// Rest-binding arity: with parameters `(p1 .. pk &rest r)`, a call with at
/// least `k` arguments binds each `pi` pointwise and `r` to the List of the
/// remaining arguments; a call with fewer than `k` arguments fails with a
/// count mismatch that expected `k`.
pub proof fn lemma_rest_binding_arity(
    name: Seq<char>,
    req: Seq<Seq<char>>,
    rest_name: Seq<char>,
    args: Seq<TermV>,
)
    requires
        forall|i: int| 0 <= i < req.len() ==> req[i] != "&rest"@,
        forall|i: int, j: int| 0 <= i < j < req.len() ==> req[i] != req[j],
        forall|i: int| 0 <= i < req.len() ==> req[i] != rest_name,
    ensures
        args.len() >= req.len() ==> (bind_spec(name, req + seq!["&rest"@, rest_name], args)
            matches Ok(m) && m.dom().contains(rest_name) && m[rest_name] == TermV::List(
            args.skip(req.len() as int),
        ) && (forall|i: int|
            0 <= i < req.len() ==> m.dom().contains(#[trigger] req[i]) && m[req[i]] == args[i])),
        args.len() < req.len() ==> bind_spec(name, req + seq!["&rest"@, rest_name], args) == Err::<
            Map<Seq<char>, TermV>,
            ErrV,
        >(
            ErrV::CountMismatch {
                name: name,
                expected: req.len() as int,
                actual: args.len() as int,
            },
        ),
{
    let params = req + seq!["&rest"@, rest_name];
    let k = req.len() as int;
    assert(params[k] == "&rest"@);
    assert(forall|i: int| 0 <= i < k ==> params[i] == req[i]);
    lemma_find_rest_from(params, 0, k);
    assert(params[k + 1] == rest_name);
    if args.len() >= req.len() {
        let m = bind_pointwise(params, args, k).insert(rest_name, TermV::List(args.skip(k)));
        assert(bind_spec(name, params, args) == Ok::<Map<Seq<char>, TermV>, ErrV>(m));
        assert forall|i: int| 0 <= i < req.len() implies m.dom().contains(#[trigger] req[i])
            && m[req[i]] == args[i] by {
            assert(forall|j: int| i < j < k ==> params[j] != params[i]);
            lemma_bind_pointwise_at(params, args, k, i);
        }
    }
}


/// The counter never moves backwards.
proof fn lemma_bump_n_ge(c: int, k: int)
    ensures
        k >= 0 ==> bump_n(c, k) >= c,
        bump(c) >= c,
    decreases k,
{
    if k > 0 {
        lemma_bump_n_ge(c, k - 1);
    }
}

/// Expansion only accumulates state: every registered macro name is still
/// registered afterwards, and the gensym counter never decreases.
pub proof fn lemma_expansion_accumulates(st: StV, maxd: int, depth: int, t: TermV)
    ensures
        ({
            let (_, st2) = expand_spec(st, maxd, depth, t);
            st.macros.dom().subset_of(st2.macros.dom()) && st.counter <= st2.counter
        }),
    decreases fuel_left(maxd, depth), 0int, term_size(t), 0int,
{
    match t {
        TermV::MacroCall { name, args } => {
            if depth <= maxd {
                lemma_call_accumulates(st, maxd, depth + 1, name, args);
            }
        },
        TermV::List(es) => {
            if es.len() > 0 && es[0] is Symbol && st.macros.dom().contains(es[0]->Symbol_0) {
                if depth <= maxd {
                    lemma_call_accumulates(st, maxd, depth + 1, es[0]->Symbol_0, es.skip(1));
                }
            } else {
                lemma_elems_accumulate(st, maxd, depth, es);
            }
        },
        TermV::Quasiquote(q) => {
            lemma_qq_accumulates(st, maxd, depth, *q);
        },
        TermV::Unquote(e) => {
            lemma_expansion_accumulates(st, maxd, depth, *e);
        },
        TermV::Splice(e) => {
            lemma_expansion_accumulates(st, maxd, depth, *e);
        },
        _ => {},
    }
}

proof fn lemma_call_accumulates(st: StV, maxd: int, depth: int, name: Seq<char>, args: Seq<TermV>)
    ensures
        ({
            let (_, st2) = expand_call_spec(st, maxd, depth, name, args);
            st.macros.dom().subset_of(st2.macros.dom()) && st.counter <= st2.counter
        }),
    decreases fuel_left(maxd, depth), 1int, 0int, 0int,
{
    if st.macros.dom().contains(name) {
        let def = st.macros[name];
        match bind_spec(name, def.params, args) {
            Err(_) => {},
            Ok(b) => {
                let syms = introduced_syms(def.body, b.dom(), st.macros);
                let st1 = StV { macros: st.macros, counter: bump_n(st.counter, syms.len() as int) };
                lemma_bump_n_ge(st.counter, syms.len() as int);
                let renamed = rename_spec(def.body, mint_map(syms, st.counter));
                match subst_spec(renamed, b, subst_fuel(maxd)) {
                    Err(_) => {},
                    Ok(sb) => {
                        lemma_expansion_accumulates(st1, maxd, depth, sb);
                    },
                }
            },
        }
    }
}

proof fn lemma_elems_accumulate(st: StV, maxd: int, depth: int, es: Seq<TermV>)
    ensures
        ({
            let (_, st2) = expand_elems_spec(st, maxd, depth, es);
            st.macros.dom().subset_of(st2.macros.dom()) && st.counter <= st2.counter
        }),
    decreases fuel_left(maxd, depth), 0int, seq_size(es), 1int,
{
    if es.len() > 0 {
        lemma_seq_size_first(es);
        lemma_expansion_accumulates(st, maxd, depth, es[0]);
        let (r1, st1) = expand_spec(st, maxd, depth, es[0]);
        if r1 is Ok {
            lemma_elems_accumulate(st1, maxd, depth, es.drop_first());
        }
    }
}

proof fn lemma_qq_accumulates(st: StV, maxd: int, depth: int, t: TermV)
    ensures
        ({
            let (_, st2) = expand_qq_spec(st, maxd, depth, t);
            st.macros.dom().subset_of(st2.macros.dom()) && st.counter <= st2.counter
        }),
    decreases fuel_left(maxd, depth), 0int, term_size(t), 1int,
{
    match t {
        TermV::Unquote(inner) => {
            lemma_expansion_accumulates(st, maxd, depth, *inner);
        },
        TermV::List(es) => {
            lemma_qq_elems_accumulate(st, maxd, depth, es);
        },
        _ => {},
    }
}

proof fn lemma_qq_elems_accumulate(st: StV, maxd: int, depth: int, es: Seq<TermV>)
    ensures
        ({
            let (_, st2) = expand_qq_elems_spec(st, maxd, depth, es);
            st.macros.dom().subset_of(st2.macros.dom()) && st.counter <= st2.counter
        }),
    decreases fuel_left(maxd, depth), 0int, seq_size(es), 2int,
{
    if es.len() > 0 {
        lemma_seq_size_first(es);
        let head = es[0];
        match head {
            TermV::Splice(p) => {
                assert(term_size(es[0]) == 1 + term_size(*p));
                lemma_expansion_accumulates(st, maxd, depth, *p);
                let (r1, st1) = expand_spec(st, maxd, depth, *p);
                if r1 matches Ok(v) && v is List {
                    lemma_qq_elems_accumulate(st1, maxd, depth, es.drop_first());
                }
            },
            _ => {
                lemma_qq_accumulates(st, maxd, depth, head);
                let (r1, st1) = expand_qq_spec(st, maxd, depth, head);
                if r1 is Ok {
                    lemma_qq_elems_accumulate(st1, maxd, depth, es.drop_first());
                }
            },
        }
    }
}

// ---------------------------------------------------------------------------
// Idempotence on macro-free terms
// ---------------------------------------------------------------------------

/// A term the expander leaves alone: it holds no Macro or MacroCall, no List
/// headed by a registered macro name, and its quasiquotes hold no Unquote
/// or Splice holes.
pub open spec fn inert_term(t: TermV, macros: Map<Seq<char>, DefV>) -> bool
    decreases term_size(t), 0int,
{
    match t {
        TermV::Macro { .. } => false,
        TermV::MacroCall { .. } => false,
        TermV::List(es) => (es.len() == 0 || !(es[0] is Symbol && macros.dom().contains(
            es[0]->Symbol_0,
        ))) && inert_seq(es, macros),
        TermV::Quote(_) => true,
        TermV::Quasiquote(q) => inert_qq(*q),
        TermV::Unquote(e) => inert_term(*e, macros),
        TermV::Splice(e) => inert_term(*e, macros),
        _ => true,
    }
}

pub open spec fn inert_seq(es: Seq<TermV>, macros: Map<Seq<char>, DefV>) -> bool
    decreases seq_size(es), 1int,
    via inert_seq_dec
{
    if es.len() == 0 {
        true
    } else {
        inert_term(es[0], macros) && inert_seq(es.drop_first(), macros)
    }
}

#[via_fn]
proof fn inert_seq_dec(es: Seq<TermV>, macros: Map<Seq<char>, DefV>) {
    if es.len() > 0 {
        lemma_seq_size_first(es);
    }
}

/// A quasiquote template the expander leaves alone: no Unquote and no
/// Splice anywhere the template walk reaches.
pub open spec fn inert_qq(t: TermV) -> bool
    decreases term_size(t), 0int,
{
    match t {
        TermV::Unquote(_) => false,
        TermV::Splice(_) => false,
        TermV::List(es) => inert_qq_seq(es),
        _ => true,
    }
}

pub open spec fn inert_qq_seq(es: Seq<TermV>) -> bool
    decreases seq_size(es), 1int,
    via inert_qq_seq_dec
{
    if es.len() == 0 {
        true
    } else {
        inert_qq(es[0]) && inert_qq_seq(es.drop_first())
    }
}

#[via_fn]
proof fn inert_qq_seq_dec(es: Seq<TermV>) {
    if es.len() > 0 {
        lemma_seq_size_first(es);
    }
}

/// Idempotence: on an inert term the expander is the identity, and neither
/// the registry nor the gensym counter moves.
pub proof fn lemma_idempotent_on_inert(st: StV, maxd: int, depth: int, t: TermV)
    requires
        inert_term(t, st.macros),
    ensures
        expand_spec(st, maxd, depth, t) == (Ok::<TermV, ErrV>(t), st),
    decreases fuel_left(maxd, depth), 0int, term_size(t), 0int,
{
    match t {
        TermV::List(es) => {
            if es.len() > 0 {
                lemma_idempotent_elems(st, maxd, depth, es);
            }
        },
        TermV::Quasiquote(q) => {
            lemma_idempotent_qq(st, maxd, depth, *q);
        },
        TermV::Unquote(e) => {
            lemma_idempotent_on_inert(st, maxd, depth, *e);
        },
        TermV::Splice(e) => {
            lemma_idempotent_on_inert(st, maxd, depth, *e);
        },
        _ => {},
    }
}

proof fn lemma_idempotent_elems(st: StV, maxd: int, depth: int, es: Seq<TermV>)
    requires
        inert_seq(es, st.macros),
    ensures
        expand_elems_spec(st, maxd, depth, es) == (Ok::<Seq<TermV>, ErrV>(es), st),
    decreases fuel_left(maxd, depth), 0int, seq_size(es), 1int,
{
    if es.len() == 0 {
        assert(expand_elems_spec(st, maxd, depth, es) == (Ok::<Seq<TermV>, ErrV>(
            Seq::<TermV>::empty(),
        ), st));
        assert(es =~= Seq::<TermV>::empty());
    } else {
        lemma_seq_size_first(es);
        lemma_idempotent_on_inert(st, maxd, depth, es[0]);
        lemma_idempotent_elems(st, maxd, depth, es.drop_first());
        assert(!expands_away(es[0], st.macros)) by {
            match es[0] {
                TermV::Macro { .. } => {
                    assert(!inert_term(es[0], st.macros));
                },
                TermV::MacroCall { .. } => {
                    assert(!inert_term(es[0], st.macros));
                },
                TermV::List(ls) => {
                    assert(ls.len() == 0 || !(ls[0] is Symbol && st.macros.dom().contains(
                        ls[0]->Symbol_0,
                    )));
                },
                _ => {},
            }
        }
        assert(seq![es[0]] + es.drop_first() =~= es);
    }
}

proof fn lemma_idempotent_qq(st: StV, maxd: int, depth: int, t: TermV)
    requires
        inert_qq(t),
    ensures
        expand_qq_spec(st, maxd, depth, t) == (Ok::<TermV, ErrV>(t), st),
    decreases fuel_left(maxd, depth), 0int, term_size(t), 1int,
{
    match t {
        TermV::List(es) => {
            lemma_idempotent_qq_elems(st, maxd, depth, es);
        },
        _ => {},
    }
}

proof fn lemma_idempotent_qq_elems(st: StV, maxd: int, depth: int, es: Seq<TermV>)
    requires
        inert_qq_seq(es),
    ensures
        expand_qq_elems_spec(st, maxd, depth, es) == (Ok::<Seq<TermV>, ErrV>(es), st),
    decreases fuel_left(maxd, depth), 0int, seq_size(es), 2int,
{
    if es.len() == 0 {
        assert(es =~= Seq::<TermV>::empty());
    } else {
        lemma_seq_size_first(es);
        lemma_idempotent_qq(st, maxd, depth, es[0]);
        lemma_idempotent_qq_elems(st, maxd, depth, es.drop_first());
        assert(seq![es[0]] + es.drop_first() =~= es);
    }
}

// ---------------------------------------------------------------------------
// Hygiene non-capture
// ---------------------------------------------------------------------------

/// Whether the symbol `s` occurs free in `t`, at the places the hygiene
/// renaming reaches: outside Quote subtrees, and inside a Quasiquote only in
/// the template itself, never in Unquote or Splice payloads.
pub open spec fn sym_free_in(t: TermV, s: Seq<char>) -> bool
    decreases term_size(t), 0int,
{
    match t {
        TermV::Symbol(n) => n == s,
        TermV::List(es) => sym_free_in_seq(es, s),
        TermV::Quote(_) => false,
        TermV::Quasiquote(q) => sym_free_in_qq(*q, s),
        TermV::Unquote(e) => sym_free_in(*e, s),
        TermV::Splice(e) => sym_free_in(*e, s),
        TermV::Macro { body, .. } => sym_free_in(*body, s),
        _ => false,
    }
}

pub open spec fn sym_free_in_seq(es: Seq<TermV>, s: Seq<char>) -> bool
    decreases seq_size(es), 1int,
    via sym_free_in_seq_dec
{
    if es.len() == 0 {
        false
    } else {
        sym_free_in(es[0], s) || sym_free_in_seq(es.drop_first(), s)
    }
}

#[via_fn]
proof fn sym_free_in_seq_dec(es: Seq<TermV>, s: Seq<char>) {
    if es.len() > 0 {
        lemma_seq_size_first(es);
    }
}

pub open spec fn sym_free_in_qq(t: TermV, s: Seq<char>) -> bool
    decreases term_size(t), 0int,
{
    match t {
        TermV::Unquote(_) => false,
        TermV::Splice(_) => false,
        TermV::Symbol(n) => n == s,
        TermV::List(es) => sym_free_in_qq_seq(es, s),
        _ => false,
    }
}

pub open spec fn sym_free_in_qq_seq(es: Seq<TermV>, s: Seq<char>) -> bool
    decreases seq_size(es), 1int,
    via sym_free_in_qq_seq_dec
{
    if es.len() == 0 {
        false
    } else {
        sym_free_in_qq(es[0], s) || sym_free_in_qq_seq(es.drop_first(), s)
    }
}

#[via_fn]
proof fn sym_free_in_qq_seq_dec(es: Seq<TermV>, s: Seq<char>) {
    if es.len() > 0 {
        lemma_seq_size_first(es);
    }
}

proof fn lemma_rename_removes(t: TermV, m: Map<Seq<char>, Seq<char>>, s: Seq<char>)
    requires
        m.dom().contains(s),
    ensures
        !sym_free_in(rename_spec(t, m), s),
    decreases term_size(t), 0int,
{
    match t {
        TermV::List(es) => {
            lemma_rename_removes_seq(es, m, s);
        },
        TermV::Quasiquote(q) => {
            lemma_rename_removes_qq(*q, m, s);
        },
        TermV::Unquote(e) => {
            lemma_rename_removes(*e, m, s);
        },
        TermV::Splice(e) => {
            lemma_rename_removes(*e, m, s);
        },
        TermV::Macro { body, .. } => {
            lemma_rename_removes(*body, m, s);
        },
        _ => {},
    }
}

proof fn lemma_rename_removes_seq(es: Seq<TermV>, m: Map<Seq<char>, Seq<char>>, s: Seq<char>)
    requires
        m.dom().contains(s),
    ensures
        !sym_free_in_seq(rename_seq(es, m), s),
    decreases seq_size(es), 1int,
{
    if es.len() > 0 {
        lemma_seq_size_first(es);
        lemma_rename_removes(es[0], m, s);
        lemma_rename_removes_seq(es.drop_first(), m, s);
        let rs = seq![rename_spec(es[0], m)] + rename_seq(es.drop_first(), m);
        assert(rs.drop_first() =~= rename_seq(es.drop_first(), m));
    }
}

proof fn lemma_rename_removes_qq(t: TermV, m: Map<Seq<char>, Seq<char>>, s: Seq<char>)
    requires
        m.dom().contains(s),
    ensures
        !sym_free_in_qq(rename_qq_spec(t, m), s),
    decreases term_size(t), 0int,
{
    match t {
        TermV::List(es) => {
            lemma_rename_removes_qq_seq(es, m, s);
        },
        _ => {},
    }
}

proof fn lemma_rename_removes_qq_seq(es: Seq<TermV>, m: Map<Seq<char>, Seq<char>>, s: Seq<char>)
    requires
        m.dom().contains(s),
    ensures
        !sym_free_in_qq_seq(rename_qq_seq(es, m), s),
    decreases seq_size(es), 1int,
{
    if es.len() > 0 {
        lemma_seq_size_first(es);
        lemma_rename_removes_qq(es[0], m, s);
        lemma_rename_removes_qq_seq(es.drop_first(), m, s);
        let rs = seq![rename_qq_spec(es[0], m)] + rename_qq_seq(es.drop_first(), m);
        assert(rs.drop_first() =~= rename_qq_seq(es.drop_first(), m));
    }
}

proof fn lemma_filter_syms_contains(s: Seq<Seq<char>>, macros: Map<Seq<char>, DefV>, x: Seq<char>)
    ensures
        filter_syms(s, macros).contains(x) <==> (s.contains(x) && keep_for_hygiene(x, macros)),
    decreases s.len(),
{
    if s.len() > 0 {
        lemma_filter_syms_contains(s.drop_last(), macros, x);
        assert(s.contains(x) <==> (s.drop_last().contains(x) || s.last() == x)) by {
            if s.contains(x) {
                let i = choose|i: int| 0 <= i < s.len() && s[i] == x;
                if i < s.len() - 1 {
                    assert(s.drop_last()[i] == x);
                }
            }
            if s.drop_last().contains(x) {
                let i = choose|i: int| 0 <= i < s.drop_last().len() && s.drop_last()[i] == x;
                assert(s[i] == x);
            }
            if s.last() == x {
                assert(s[s.len() - 1] == x);
            }
        }
        if keep_for_hygiene(s.last(), macros) {
            let d = filter_syms(s.drop_last(), macros) + seq![s.last()];
            assert(d.last() == s.last());
            if filter_syms(s.drop_last(), macros).contains(x) {
                let i = choose|i: int|
                    0 <= i < filter_syms(s.drop_last(), macros).len() && filter_syms(
                        s.drop_last(),
                        macros,
                    )[i] == x;
                assert(d[i] == x);
            }
        }
    }
}

proof fn lemma_mint_map_dom(syms: Seq<Seq<char>>, c: int, x: Seq<char>)
    ensures
        mint_map(syms, c).dom().contains(x) <==> syms.contains(x),
    decreases syms.len(),
{
    if syms.len() > 0 {
        lemma_mint_map_dom(syms.drop_last(), c, x);
        assert(syms.contains(x) <==> (syms.drop_last().contains(x) || syms.last() == x)) by {
            if syms.contains(x) {
                let i = choose|i: int| 0 <= i < syms.len() && syms[i] == x;
                if i < syms.len() - 1 {
                    assert(syms.drop_last()[i] == x);
                }
            }
            if syms.drop_last().contains(x) {
                let i = choose|i: int| 0 <= i < syms.drop_last().len() && syms.drop_last()[i] == x;
                assert(syms[i] == x);
            }
            if syms.last() == x {
                assert(syms[syms.len() - 1] == x);
            }
        }
    }
}

/// Hygiene non-capture: take a symbol `s` that a macro body uses freely,
/// where `s` is not a bound parameter, not a built-in form, and not the name
/// of a registered macro. After the hygiene renaming that expansion applies
/// to that body, no free occurrence of `s` remains: each one has become a
/// Gensym, so an `s` supplied by the caller can never be captured.
pub proof fn lemma_hygiene_non_capture(
    body: TermV,
    bound: Set<Seq<char>>,
    macros: Map<Seq<char>, DefV>,
    c: int,
    s: Seq<char>,
)
    requires
        collect_syms(body, bound).contains(s),
        !is_builtin(s),
        !macros.dom().contains(s),
    ensures
        !sym_free_in(rename_spec(body, mint_map(introduced_syms(body, bound, macros), c)), s),
{
    let syms = introduced_syms(body, bound, macros);
    lemma_filter_syms_contains(collect_syms(body, bound), macros, s);
    lemma_dedup_first_contains(filter_syms(collect_syms(body, bound), macros), s);
    lemma_mint_map_dom(syms, c, s);
    lemma_rename_removes(body, mint_map(syms, c), s);
}


// ---------------------------------------------------------------------------
// Depth safety
// ---------------------------------------------------------------------------

/// The body of the canonical self-recursive macro `m` with parameter `px`:
/// a quasiquote template that calls `m` again on the unquoted parameter.
pub open spec fn self_call_body(m: Seq<char>, px: Seq<char>) -> TermV {
    TermV::Quasiquote(
        Box::new(
            TermV::List(
                seq![
                    TermV::Symbol(m),
                    TermV::Unquote(Box::new(TermV::Symbol(px))),
                ],
            ),
        ),
    )
}

/// Depth safety: a macro whose expansion always produces another call to
/// itself fails with `DepthExceeded` carrying exactly the configured bound,
/// and leaves the registry and counter as they were.
pub proof fn lemma_depth_safety(
    st: StV,
    maxd: int,
    depth: int,
    m: Seq<char>,
    px: Seq<char>,
    arg: TermV,
)
    requires
        st.macros.dom().contains(m),
        st.macros[m] == (DefV { params: seq![px], body: self_call_body(m, px) }),
        px != m,
        px != "&rest"@,
        0 <= depth,
        0 <= maxd,
        arg is Number || arg is String || arg is Bool || arg is Nil || arg is Gensym,
    ensures
        expand_spec(st, maxd, depth, TermV::List(seq![TermV::Symbol(m), arg])) == (
            Err::<TermV, ErrV>(ErrV::DepthExceeded { depth: maxd, name: m }),
            st,
        ),
    decreases maxd + 1 - depth,
{
    let call = TermV::List(seq![TermV::Symbol(m), arg]);
    let es = seq![TermV::Symbol(m), arg];
    assert(es[0] == TermV::Symbol(m));
    if depth > maxd {
        assert(expand_spec(st, maxd, depth, call) == (
            Err::<TermV, ErrV>(ErrV::DepthExceeded { depth: maxd, name: m }),
            st,
        ));
    } else {
        let args = es.skip(1);
        assert(args =~= seq![arg]);
        let def = st.macros[m];
        let params = seq![px];

        // Binding: exactly one parameter, one argument.
        assert(find_rest(params, 0) is None) by {
            assert(params[0] == px);
            assert(find_rest(params, 1) is None);
        }
        let b = bind_pointwise(params, args, 1);
        assert(b == bind_pointwise(params, args, 0).insert(px, arg));
        assert(bind_spec(m, params, args) == Ok::<Map<Seq<char>, TermV>, ErrV>(b));
        assert(b.dom() =~= set![px]);
        assert(!b.dom().contains(m));

        // Hygiene: the only free symbol of the body is `m` itself, which is
        // a registered macro name, so nothing is renamed.
        let q = TermV::List(seq![TermV::Symbol(m), TermV::Unquote(Box::new(TermV::Symbol(px)))]);
        let qes = seq![TermV::Symbol(m), TermV::Unquote(Box::new(TermV::Symbol(px)))];
        assert(qes.drop_first() =~= seq![TermV::Unquote(Box::new(TermV::Symbol(px)))]);
        assert(qes.drop_first().drop_first() =~= Seq::<TermV>::empty());
        assert(collect_syms_qq_seq(qes.drop_first().drop_first(), b.dom()) =~= Seq::<
            Seq<char>,
        >::empty());
        assert(collect_syms_qq(qes[0], b.dom()) =~= seq![m]);
        assert(collect_syms_qq(qes.drop_first()[0], b.dom()) =~= Seq::<Seq<char>>::empty());
        assert(collect_syms_qq_seq(qes.drop_first(), b.dom()) =~= Seq::<Seq<char>>::empty());
        assert(collect_syms_qq_seq(qes, b.dom()) =~= collect_syms_qq(qes[0], b.dom())
            + collect_syms_qq_seq(qes.drop_first(), b.dom()));
        assert(collect_syms_qq_seq(qes, b.dom()) =~= seq![m]);
        assert(collect_syms(def.body, b.dom()) =~= seq![m]);

        let raw = collect_syms(def.body, b.dom());
        assert(raw.drop_last() =~= Seq::<Seq<char>>::empty());
        assert(raw.last() == m);
        assert(!keep_for_hygiene(m, st.macros));
        assert(filter_syms(raw, st.macros) == filter_syms(raw.drop_last(), st.macros));
        assert(filter_syms(raw.drop_last(), st.macros) =~= Seq::<Seq<char>>::empty());
        assert(filter_syms(raw, st.macros) =~= Seq::<Seq<char>>::empty());
        let syms = introduced_syms(def.body, b.dom(), st.macros);
        assert(syms =~= Seq::<Seq<char>>::empty());
        let hm = mint_map(syms, st.counter);
        assert(hm =~= Map::<Seq<char>, Seq<char>>::empty());
        assert(bump_n(st.counter, 0) == st.counter);
        let st1 = StV { macros: st.macros, counter: bump_n(st.counter, syms.len() as int) };
        assert(st1 == st);

        // Renaming with the empty map leaves the body as it stands.
        assert(!hm.dom().contains(m));
        assert(!hm.dom().contains(px));
        assert(rename_qq_seq(qes.drop_first().drop_first(), hm) =~= Seq::<TermV>::empty());
        assert(rename_qq_spec(qes[0], hm) == qes[0]);
        assert(rename_qq_spec(qes.drop_first()[0], hm) == qes.drop_first()[0]);
        assert(rename_qq_seq(qes.drop_first(), hm) =~= qes.drop_first());
        assert(rename_qq_seq(qes, hm) =~= qes);
        let renamed = rename_spec(def.body, hm);
        assert(renamed == self_call_body(m, px));

        // Substitution rebuilds the same call with the argument in place.
        let fuel = subst_fuel(maxd);
        assert(fuel >= 1);
        assert(subst_seq(qes.drop_first().drop_first(), b, fuel) == Ok::<Seq<TermV>, ErrV>(
            Seq::<TermV>::empty(),
        ));
        assert(subst_spec(qes[0], b, fuel) == Ok::<TermV, ErrV>(TermV::Symbol(m)));
        assert(subst_spec(TermV::Symbol(px), b, fuel) == Ok::<TermV, ErrV>(arg));
        assert(subst_spec(qes.drop_first()[0], b, fuel) == Ok::<TermV, ErrV>(
            TermV::Unquote(Box::new(arg)),
        ));
        assert(subst_seq(qes.drop_first(), b, fuel) == Ok::<Seq<TermV>, ErrV>(
            seq![TermV::Unquote(Box::new(arg))] + Seq::<TermV>::empty(),
        ));
        assert(subst_seq(qes, b, fuel) == Ok::<Seq<TermV>, ErrV>(
            seq![TermV::Symbol(m)] + (seq![TermV::Unquote(Box::new(arg))] + Seq::<TermV>::empty()),
        ));
        let sqes = seq![TermV::Symbol(m), TermV::Unquote(Box::new(arg))];
        assert(seq![TermV::Symbol(m)] + (seq![TermV::Unquote(Box::new(arg))] + Seq::<
            TermV,
        >::empty()) =~= sqes);
        assert(subst_spec(q, b, fuel) == Ok::<TermV, ErrV>(TermV::List(sqes)));

        let f1 = (fuel - 1) as nat;
        assert(sqes.drop_first() =~= seq![TermV::Unquote(Box::new(arg))]);
        assert(sqes.drop_first().drop_first() =~= Seq::<TermV>::empty());
        assert(qq_subst_seq(sqes.drop_first().drop_first(), b, f1) == Ok::<Seq<TermV>, ErrV>(
            Seq::<TermV>::empty(),
        ));
        assert(qq_subst_spec(sqes[0], b, f1) == Ok::<TermV, ErrV>(TermV::Symbol(m)));
        assert(subst_spec(arg, b, f1) == Ok::<TermV, ErrV>(arg));
        assert(qq_subst_spec(sqes.drop_first()[0], b, f1) == Ok::<TermV, ErrV>(arg));
        assert(qq_subst_seq(sqes.drop_first(), b, f1) == Ok::<Seq<TermV>, ErrV>(
            seq![arg] + Seq::<TermV>::empty(),
        ));
        assert(qq_subst_seq(sqes, b, f1) == Ok::<Seq<TermV>, ErrV>(
            seq![TermV::Symbol(m)] + (seq![arg] + Seq::<TermV>::empty()),
        ));
        assert(seq![TermV::Symbol(m)] + (seq![arg] + Seq::<TermV>::empty()) =~= es);
        assert(qq_subst_spec(TermV::List(sqes), b, f1) == Ok::<TermV, ErrV>(call));
        assert(subst_spec(renamed, b, fuel) == Ok::<TermV, ErrV>(call));

        // The rebuilt call expands one level deeper, and fails there.
        lemma_depth_safety(st, maxd, depth + 1, m, px, arg);
        assert(expand_call_spec(st, maxd, depth + 1, m, args) == (
            Err::<TermV, ErrV>(ErrV::DepthExceeded { depth: maxd, name: m }),
            st,
        ));
    }
}


// ---------------------------------------------------------------------------
// Error rendering
// ---------------------------------------------------------------------------

/// The one-line headline and the "Help:" remediation text of an error.
pub open spec fn err_text(e: ErrV) -> Seq<char> {
    match e {
        ErrV::Undefined(name) => "Undefined macro: '"@ + name + "'\n"@
            + "  Help: Check that the macro is defined with 'defmacro' before use"@,
        ErrV::CountMismatch { name, expected, actual } => "Parameter count mismatch in macro '"@
            + name + "'\n"@ + "  Expected: "@ + dec_digits(expected) + plural_arguments(expected)
            + "  Got: "@ + dec_digits(actual) + plural_arguments(actual)
            + "  Help: Check the macro definition and ensure you pass the correct number of arguments"@,
        ErrV::DepthExceeded { depth, name } => "Maximum expansion depth ("@ + dec_digits(depth)
            + ") exceeded in macro '"@ + name + "'\n"@
            + "  Help: This likely indicates infinite recursion in your macro expansion.\n"@
            + "        Check that recursive macros have a proper base case."@,
        ErrV::Expansion { message, context } => {
            let head = "Macro expansion error: "@ + message;
            (match context {
                Some(c) => head + "\n  Context: "@ + c,
                None => head,
            }) + "\n  Help: Check the macro body and the values supplied to this expansion"@
        },
        ErrV::Malformed { name, reason } => "Malformed macro definition for '"@ + name + "'\n"@
            + "  Reason: "@ + reason + "\n"@ + "  Help: Check the syntax of your defmacro form"@,
        ErrV::Pattern { pattern, reason } => "Invalid parameter pattern: '"@ + pattern + "'\n"@
            + "  Reason: "@ + reason + "\n"@
            + "  Help: Valid patterns include simple parameters and &rest patterns"@,
    }
}

/// The word "argument", pluralized to match the count, with its line break.
pub open spec fn plural_arguments(n: int) -> Seq<char> {
    if n == 1 {
        " argument\n"@
    } else {
        " arguments\n"@
    }
}

impl MacroError {
    /// The human-readable rendering of this error: a headline naming the
    /// kind and its key data, and a short "Help:" remediation line.
    pub fn message(&self) -> (r: String)
        ensures
            r@ == err_text(self@),
    {
        match self {
            MacroError::UndefinedMacro(name) => {
                let mut s = "Undefined macro: '".to_owned();
                s.append(name.as_str());
                s.append("'\n");
                s.append("  Help: Check that the macro is defined with 'defmacro' before use");
                proof {
                    assert(s@ =~= err_text(self@));
                }
                s
            },
            MacroError::ParameterCountMismatch { macro_name, expected, actual } => {
                let mut s = "Parameter count mismatch in macro '".to_owned();
                s.append(macro_name.as_str());
                s.append("'\n");
                s.append("  Expected: ");
                let e = usize_to_string(*expected);
                s.append(e.as_str());
                if *expected == 1 {
                    s.append(" argument\n");
                } else {
                    s.append(" arguments\n");
                }
                s.append("  Got: ");
                let a = usize_to_string(*actual);
                s.append(a.as_str());
                if *actual == 1 {
                    s.append(" argument\n");
                } else {
                    s.append(" arguments\n");
                }
                s.append(
                    "  Help: Check the macro definition and ensure you pass the correct number of arguments",
                );
                proof {
                    assert(s@ =~= err_text(self@));
                }
                s
            },
            MacroError::MaxDepthExceeded { depth, macro_name } => {
                let mut s = "Maximum expansion depth (".to_owned();
                let d = usize_to_string(*depth);
                s.append(d.as_str());
                s.append(") exceeded in macro '");
                s.append(macro_name.as_str());
                s.append("'\n");
                s.append(
                    "  Help: This likely indicates infinite recursion in your macro expansion.\n",
                );
                s.append("        Check that recursive macros have a proper base case.");
                proof {
                    assert(s@ =~= err_text(self@));
                }
                s
            },
            MacroError::ExpansionError { message, context } => {
                let mut s = "Macro expansion error: ".to_owned();
                s.append(message.as_str());
                match context {
                    Some(c) => {
                        s.append("\n  Context: ");
                        s.append(c.as_str());
                    },
                    None => {},
                }
                s.append(
                    "\n  Help: Check the macro body and the values supplied to this expansion",
                );
                proof {
                    assert(s@ =~= err_text(self@));
                }
                s
            },
            MacroError::MalformedDefinition { macro_name, reason } => {
                let mut s = "Malformed macro definition for '".to_owned();
                s.append(macro_name.as_str());
                s.append("'\n");
                s.append("  Reason: ");
                s.append(reason.as_str());
                s.append("\n");
                s.append("  Help: Check the syntax of your defmacro form");
                proof {
                    assert(s@ =~= err_text(self@));
                }
                s
            },
            MacroError::InvalidPattern { pattern, reason } => {
                let mut s = "Invalid parameter pattern: '".to_owned();
                s.append(pattern.as_str());
                s.append("'\n");
                s.append("  Reason: ");
                s.append(reason.as_str());
                s.append("\n");
                s.append("  Help: Valid patterns include simple parameters and &rest patterns");
                proof {
                    assert(s@ =~= err_text(self@));
                }
                s
            },
        }
    }
}

} // verus!
