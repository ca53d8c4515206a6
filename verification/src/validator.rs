use vstd::prelude::*;
use crate::ast::{LispExpr, TermV, contains_name, names_view, term_text, terms_view};
use crate::macro_expander::{term_size, seq_size, lemma_seq_size_first};
use crate::text::{dec_digits, has_prefix, str_has_prefix, usize_to_string};

verus! {

/// The four safety rules that gate expansion.
#[derive(Debug, Clone, Copy, PartialEq, Eq, Structural)]
pub enum ValidationRule {
    /// Basic type-shape safety checks.
    TypeSafety,
    /// Trivially non-terminating definitions.
    ResourceBounds,
    /// FFI and unsafe host-language restrictions.
    FFIRestrictions,
    /// Structural nesting-complexity limits.
    ComplexityLimits,
}

/// The rule's name, as the error headline spells it.
pub open spec fn rule_text(r: ValidationRule) -> Seq<char> {
    match r {
        ValidationRule::TypeSafety => "TypeSafety"@,
        ValidationRule::ResourceBounds => "ResourceBounds"@,
        ValidationRule::FFIRestrictions => "FFIRestrictions"@,
        ValidationRule::ComplexityLimits => "ComplexityLimits"@,
    }
}

/// The shape a sub-term is locally inferred to have.
#[derive(Debug, PartialEq)]
pub enum InferredType {
    Number,
    String,
    Bool,
    List(Box<InferredType>),
    Symbol,
    Unknown,
    Any,
}

impl Clone for InferredType {
    /// A copy equal to the original.
    fn clone(&self) -> (r: Self)
        ensures
            r == self,
        decreases self,
    {
        match self {
            InferredType::Number => InferredType::Number,
            InferredType::String => InferredType::String,
            InferredType::Bool => InferredType::Bool,
            InferredType::List(t) => InferredType::List(Box::new((**t).clone())),
            InferredType::Symbol => InferredType::Symbol,
            InferredType::Unknown => InferredType::Unknown,
            InferredType::Any => InferredType::Any,
        }
    }
}

/// The rendering of an inferred type inside error messages.
pub open spec fn type_text(t: InferredType) -> Seq<char>
    decreases t,
{
    match t {
        InferredType::Number => "Number"@,
        InferredType::String => "String"@,
        InferredType::Bool => "Bool"@,
        InferredType::List(inner) => "List("@ + type_text(*inner) + ")"@,
        InferredType::Symbol => "Symbol"@,
        InferredType::Unknown => "Unknown"@,
        InferredType::Any => "Any"@,
    }
}

fn render_type(t: &InferredType) -> (r: String)
    ensures
        r@ == type_text(*t),
    decreases t,
{
    match t {
        InferredType::Number => "Number".to_owned(),
        InferredType::String => "String".to_owned(),
        InferredType::Bool => "Bool".to_owned(),
        InferredType::List(inner) => {
            let mut r = "List(".to_owned();
            let i = render_type(inner);
            r.append(i.as_str());
            r.append(")");
            proof {
                assert(r@ =~= type_text(*t));
            }
            r
        },
        InferredType::Symbol => "Symbol".to_owned(),
        InferredType::Unknown => "Unknown".to_owned(),
        InferredType::Any => "Any".to_owned(),
    }
}

/// Mathematical model of a validation error.
pub struct ValErrV {
    pub rule: ValidationRule,
    pub message: Seq<char>,
    pub context: Option<Seq<char>>,
}

/// A broken rule, with a human message and an optional rendering of the
/// offending sub-term.
#[derive(Debug, PartialEq)]
pub struct ValidationError {
    pub rule: ValidationRule,
    pub message: String,
    pub context: Option<String>,
}

impl View for ValidationError {
    type V = ValErrV;

    open spec fn view(&self) -> ValErrV {
        ValErrV {
            rule: self.rule,
            message: self.message@,
            context: match self.context {
                Some(c) => Some(c@),
                None => None,
            },
        }
    }
}

impl Clone for ValidationError {
    /// A copy that models the same error.
    fn clone(&self) -> (r: Self)
        ensures
            r@ == self@,
    {
        ValidationError {
            rule: self.rule,
            message: self.message.clone(),
            context: match &self.context {
                Some(c) => Some(c.clone()),
                None => None,
            },
        }
    }
}

/// The rendering of a validation error.
pub open spec fn val_err_text(e: ValErrV) -> Seq<char> {
    let head = rule_text(e.rule) + " violation: "@ + e.message;
    match e.context {
        Some(c) => head + "\n  Context: "@ + c,
        None => head,
    }
}

impl ValidationError {
    /// The human-readable rendering: the rule, the message, and the context
    /// when one is attached.
    pub fn render(&self) -> (r: String)
        ensures
            r@ == val_err_text(self@),
    {
        let mut s = match self.rule {
            ValidationRule::TypeSafety => "TypeSafety".to_owned(),
            ValidationRule::ResourceBounds => "ResourceBounds".to_owned(),
            ValidationRule::FFIRestrictions => "FFIRestrictions".to_owned(),
            ValidationRule::ComplexityLimits => "ComplexityLimits".to_owned(),
        };
        s.append(" violation: ");
        s.append(self.message.as_str());
        match &self.context {
            Some(c) => {
                s.append("\n  Context: ");
                s.append(c.as_str());
            },
            None => {},
        }
        proof {
            assert(s@ =~= val_err_text(self@));
        }
        s
    }
}

pub type ValidationResult = Result<(), ValidationError>;

// ---------------------------------------------------------------------------
// Type-shape inference
// ---------------------------------------------------------------------------

pub open spec fn is_arith_op(op: Seq<char>) -> bool {
    op == "+"@ || op == "-"@ || op == "*"@ || op == "/"@
}

pub open spec fn is_cmp_op(op: Seq<char>) -> bool {
    op == "<"@ || op == ">"@ || op == "<="@ || op == ">="@ || op == "="@
}

/// The locally inferred shape of a term: literals have their obvious types,
/// arithmetic heads yield Number, comparison heads yield Bool, `if` takes
/// the type of its then-branch, and everything else is Unknown.
pub open spec fn infer_spec(env: Map<Seq<char>, InferredType>, t: TermV) -> InferredType
    decreases term_size(t),
    via infer_spec_dec
{
    match t {
        TermV::Number(_) => InferredType::Number,
        TermV::String(_) => InferredType::String,
        TermV::Bool(_) => InferredType::Bool,
        TermV::Nil => InferredType::Symbol,
        TermV::Symbol(s) => if env.dom().contains(s) {
            env[s]
        } else {
            InferredType::Unknown
        },
        TermV::List(es) => {
            if es.len() == 0 {
                InferredType::List(Box::new(InferredType::Any))
            } else if es[0] is Symbol {
                let op = es[0]->Symbol_0;
                if is_arith_op(op) {
                    InferredType::Number
                } else if is_cmp_op(op) {
                    InferredType::Bool
                } else if op == "if"@ {
                    if es.len() >= 3 {
                        infer_spec(env, es[2])
                    } else {
                        InferredType::Unknown
                    }
                } else {
                    InferredType::Unknown
                }
            } else {
                InferredType::List(Box::new(infer_spec(env, es[0])))
            }
        },
        TermV::Quote(_) => InferredType::Any,
        TermV::Quasiquote(_) => InferredType::Any,
        _ => InferredType::Unknown,
    }
}

#[via_fn]
proof fn infer_spec_dec(env: Map<Seq<char>, InferredType>, t: TermV) {
    match t {
        TermV::List(es) => {
            if es.len() > 0 {
                lemma_seq_size_first(es);
                if es.len() >= 3 {
                    lemma_seq_size_first(es.drop_first());
                    lemma_seq_size_first(es.drop_first().drop_first());
                    assert(es.drop_first()[1] == es[2]);
                    assert(es.drop_first().drop_first()[0] == es[2]);
                }
            }
        },
        _ => {},
    }
}

/// Two inferred shapes are compatible when either is Unknown or Any, or
/// they are equal.
pub open spec fn compatible_spec(t1: InferredType, t2: InferredType) -> bool {
    t1 is Unknown || t2 is Unknown || t1 is Any || t2 is Any || t1 == t2
}

/// The error raised for a non-numeric operand of an arithmetic head.
pub open spec fn arith_err(op: Seq<char>, ty: InferredType, arg: TermV) -> ValErrV {
    ValErrV {
        rule: ValidationRule::TypeSafety,
        message: "Type mismatch: arithmetic operation '"@ + op
            + "' requires numeric operands, got "@ + type_text(ty),
        context: Some(term_text(arg)),
    }
}

/// The error raised for incompatible operands of a comparison head.
pub open spec fn cmp_err(op: Seq<char>, t1: InferredType, t2: InferredType, a1: TermV, a2: TermV)
    -> ValErrV {
    ValErrV {
        rule: ValidationRule::TypeSafety,
        message: "Type mismatch: comparison '"@ + op + "' requires compatible types, got "@
            + type_text(t1) + " and "@ + type_text(t2),
        context: Some(term_text(a1) + " vs "@ + term_text(a2)),
    }
}

/// The leftmost arithmetic operand whose shape is neither Number nor
/// Unknown produces the error.
pub open spec fn check_arith_spec(
    env: Map<Seq<char>, InferredType>,
    op: Seq<char>,
    args: Seq<TermV>,
) -> Result<(), ValErrV>
    decreases args.len(),
{
    if args.len() == 0 {
        Ok(())
    } else {
        let ty = infer_spec(env, args[0]);
        if ty is Number || ty is Unknown {
            check_arith_spec(env, op, args.drop_first())
        } else {
            Err(arith_err(op, ty, args[0]))
        }
    }
}

/// What validating one operation yields: arithmetic heads need numeric
/// operands, a comparison of exactly two operands needs compatible shapes.
pub open spec fn check_op_spec(env: Map<Seq<char>, InferredType>, op: Seq<char>, args: Seq<TermV>)
    -> Result<(), ValErrV> {
    if is_arith_op(op) {
        check_arith_spec(env, op, args)
    } else if is_cmp_op(op) {
        if args.len() == 2 {
            let t1 = infer_spec(env, args[0]);
            let t2 = infer_spec(env, args[1]);
            if compatible_spec(t1, t2) {
                Ok(())
            } else {
                Err(cmp_err(op, t1, t2, args[0], args[1]))
            }
        } else {
            Ok(())
        }
    } else {
        Ok(())
    }
}

/// The whole type-shape walk: every List headed by a Symbol has its
/// operation checked, and every child is visited, macro bodies and
/// quasiquote templates included.
pub open spec fn ts_validate_spec(env: Map<Seq<char>, InferredType>, t: TermV) -> Result<
    (),
    ValErrV,
>
    decreases term_size(t), 0int,
{
    match t {
        TermV::List(es) => {
            if es.len() > 0 {
                if es[0] is Symbol {
                    match check_op_spec(env, es[0]->Symbol_0, es.skip(1)) {
                        Err(e) => Err(e),
                        Ok(()) => ts_validate_seq(env, es),
                    }
                } else {
                    ts_validate_seq(env, es)
                }
            } else {
                ts_validate_seq(env, es)
            }
        },
        TermV::Quote(e) => ts_validate_spec(env, *e),
        TermV::Quasiquote(e) => ts_validate_spec(env, *e),
        TermV::Unquote(e) => ts_validate_spec(env, *e),
        TermV::Splice(e) => ts_validate_spec(env, *e),
        TermV::Macro { body, .. } => ts_validate_spec(env, *body),
        TermV::MacroCall { args, .. } => ts_validate_seq(env, args),
        _ => Ok(()),
    }
}

pub open spec fn ts_validate_seq(env: Map<Seq<char>, InferredType>, es: Seq<TermV>) -> Result<
    (),
    ValErrV,
>
    decreases seq_size(es), 1int,
    via ts_validate_seq_dec
{
    if es.len() == 0 {
        Ok(())
    } else {
        match ts_validate_spec(env, es[0]) {
            Err(e) => Err(e),
            Ok(()) => ts_validate_seq(env, es.drop_first()),
        }
    }
}

#[via_fn]
proof fn ts_validate_seq_dec(env: Map<Seq<char>, InferredType>, es: Seq<TermV>) {
    if es.len() > 0 {
        lemma_seq_size_first(es);
    }
}

/// The type-shape validator: local, optimistic inference over arithmetic
/// and comparison heads.
pub struct TypeSafetyValidator {
    type_environment: Vec<(String, InferredType)>,
}

pub open spec fn env_map(s: Seq<(String, InferredType)>) -> Map<Seq<char>, InferredType>
    decreases s.len(),
{
    if s.len() == 0 {
        Map::empty()
    } else {
        env_map(s.drop_last()).insert(s.last().0@, s.last().1)
    }
}

impl TypeSafetyValidator {
    /// The environment this validator infers Symbol shapes from.
    pub closed spec fn env(&self) -> Map<Seq<char>, InferredType> {
        env_map(self.type_environment@)
    }

    /// A validator with an empty environment: every Symbol is Unknown.
    pub fn new() -> (r: TypeSafetyValidator)
        ensures
            r.env() == Map::<Seq<char>, InferredType>::empty(),
    {
        let r = TypeSafetyValidator { type_environment: Vec::new() };
        proof {
            assert(r.env() =~= Map::<Seq<char>, InferredType>::empty());
        }
        r
    }

    fn env_get(&self, name: &String) -> (r: Option<&InferredType>)
        ensures
            match r {
                Some(t) => self.env().dom().contains(name@) && *t == self.env()[name@],
                None => !self.env().dom().contains(name@),
            },
    {
        proof {
            assert(self.type_environment@.take(self.type_environment@.len() as int)
                =~= self.type_environment@);
        }
        env_get_from(&self.type_environment, self.type_environment.len(), name)
    }

    /// The locally inferred shape of a term.
    pub fn infer_type(&self, expr: &LispExpr) -> (r: InferredType)
        ensures
            r == infer_spec(self.env(), expr@),
        decreases term_size(expr@),
    {
        match expr {
            LispExpr::Number(_) => InferredType::Number,
            LispExpr::String(_) => InferredType::String,
            LispExpr::Bool(_) => InferredType::Bool,
            LispExpr::Nil => InferredType::Symbol,
            LispExpr::Symbol(s) => {
                match self.env_get(s) {
                    Some(t) => t.clone(),
                    None => InferredType::Unknown,
                }
            },
            LispExpr::List(es) => {
                if es.len() == 0 {
                    InferredType::List(Box::new(InferredType::Any))
                } else {
                    proof {
                        assert(terms_view(es@)[0] == es@[0]@);
                        lemma_seq_size_first(terms_view(es@));
                    }
                    match &es[0] {
                        LispExpr::Symbol(op) => {
                            if *op == "+".to_owned() || *op == "-".to_owned() || *op
                                == "*".to_owned() || *op == "/".to_owned() {
                                InferredType::Number
                            } else if *op == "<".to_owned() || *op == ">".to_owned() || *op
                                == "<=".to_owned() || *op == ">=".to_owned() || *op
                                == "=".to_owned() {
                                InferredType::Bool
                            } else if *op == "if".to_owned() {
                                if es.len() >= 3 {
                                    proof {
                                        assert(terms_view(es@)[2] == es@[2]@);
                                        lemma_seq_size_first(terms_view(es@).drop_first());
                                        lemma_seq_size_first(
                                            terms_view(es@).drop_first().drop_first(),
                                        );
                                        assert(terms_view(es@).drop_first().drop_first()[0]
                                            == terms_view(es@)[2]);
                                    }
                                    self.infer_type(&es[2])
                                } else {
                                    InferredType::Unknown
                                }
                            } else {
                                InferredType::Unknown
                            }
                        },
                        _ => {
                            InferredType::List(Box::new(self.infer_type(&es[0])))
                        },
                    }
                }
            },
            LispExpr::Quote(_) => InferredType::Any,
            LispExpr::Quasiquote(_) => InferredType::Any,
            _ => InferredType::Unknown,
        }
    }

    /// Whether two inferred shapes are compatible: either is Unknown or
    /// Any, or they are equal.
    pub fn types_compatible(&self, t1: &InferredType, t2: &InferredType) -> (r: bool)
        ensures
            r == compatible_spec(*t1, *t2),
    {
        matches!(t1, InferredType::Unknown | InferredType::Any) || matches!(
            t2,
            InferredType::Unknown | InferredType::Any,
        ) || type_eq(t1, t2)
    }

    fn check_arith(&self, op: &String, es: &Vec<LispExpr>, start: usize) -> (r: ValidationResult)
        requires
            1 <= start <= es.len(),
        ensures
            match r {
                Ok(()) => check_arith_spec(self.env(), op@, terms_view(es@).skip(start as int))
                    is Ok,
                Err(e) => check_arith_spec(self.env(), op@, terms_view(es@).skip(start as int))
                    matches Err(ev) && e@ == ev,
            },
        decreases es.len() - start,
    {
        let ghost tv = terms_view(es@).skip(start as int);
        if start == es.len() {
            proof {
                assert(tv.len() == 0);
            }
            Ok(())
        } else {
            proof {
                assert(tv[0] == es@[start as int]@);
                assert(tv.drop_first() =~= terms_view(es@).skip(start as int + 1));
            }
            let ty = self.infer_type(&es[start]);
            let numeric_ok = matches!(ty, InferredType::Number | InferredType::Unknown);
            if numeric_ok {
                self.check_arith(op, es, start + 1)
            } else {
                let mut msg = "Type mismatch: arithmetic operation '".to_owned();
                msg.append(op.as_str());
                msg.append("' requires numeric operands, got ");
                let tt = render_type(&ty);
                msg.append(tt.as_str());
                let ctx = es[start].describe();
                let e = ValidationError {
                    rule: ValidationRule::TypeSafety,
                    message: msg,
                    context: Some(ctx),
                };
                proof {
                    assert(e@.message =~= arith_err(op@, ty, tv[0]).message);
                }
                Err(e)
            }
        }
    }

    fn check_operation(&self, op: &String, es: &Vec<LispExpr>) -> (r: ValidationResult)
        requires
            es.len() >= 1,
        ensures
            match r {
                Ok(()) => check_op_spec(self.env(), op@, terms_view(es@).skip(1)) is Ok,
                Err(e) => check_op_spec(self.env(), op@, terms_view(es@).skip(1)) matches Err(ev)
                    && e@ == ev,
            },
    {
        let ghost args = terms_view(es@).skip(1);
        let is_arith = *op == "+".to_owned() || *op == "-".to_owned() || *op == "*".to_owned()
            || *op == "/".to_owned();
        let is_cmp = *op == "<".to_owned() || *op == ">".to_owned() || *op == "<=".to_owned()
            || *op == ">=".to_owned() || *op == "=".to_owned();
        if is_arith {
            self.check_arith(op, es, 1)
        } else if is_cmp {
            if es.len() == 3 {
                proof {
                    assert(args.len() == 2);
                    assert(args[0] == es@[1]@);
                    assert(args[1] == es@[2]@);
                }
                let t1 = self.infer_type(&es[1]);
                let t2 = self.infer_type(&es[2]);
                let comp = self.types_compatible(&t1, &t2);
                if comp {
                    Ok(())
                } else {
                    let mut msg = "Type mismatch: comparison '".to_owned();
                    msg.append(op.as_str());
                    msg.append("' requires compatible types, got ");
                    let s1 = render_type(&t1);
                    msg.append(s1.as_str());
                    msg.append(" and ");
                    let s2 = render_type(&t2);
                    msg.append(s2.as_str());
                    let mut ctx = es[1].describe();
                    ctx.append(" vs ");
                    let c2 = es[2].describe();
                    ctx.append(c2.as_str());
                    let e = ValidationError {
                        rule: ValidationRule::TypeSafety,
                        message: msg,
                        context: Some(ctx),
                    };
                    proof {
                        assert(e@.message =~= cmp_err(op@, t1, t2, args[0], args[1]).message);
                        assert(e@.context->0 =~= cmp_err(op@, t1, t2, args[0], args[1]).context->0);
                    }
                    Err(e)
                }
            } else {
                Ok(())
            }
        } else {
            Ok(())
        }
    }

    /// The whole type-shape walk over one term.
    pub fn validate(&self, expr: &LispExpr) -> (r: ValidationResult)
        ensures
            match r {
                Ok(()) => ts_validate_spec(self.env(), expr@) is Ok,
                Err(e) => ts_validate_spec(self.env(), expr@) matches Err(ev) && e@ == ev,
            },
        decreases term_size(expr@), 0int,
    {
        match expr {
            LispExpr::List(es) => {
                proof {
                    assert(terms_view(es@).skip(0) =~= terms_view(es@));
                }
                if es.len() > 0 {
                    proof {
                        assert(terms_view(es@)[0] == es@[0]@);
                    }
                    match &es[0] {
                        LispExpr::Symbol(op) => {
                            match self.check_operation(op, es) {
                                Err(e) => Err(e),
                                Ok(()) => self.validate_seq(es, 0),
                            }
                        },
                        _ => self.validate_seq(es, 0),
                    }
                } else {
                    self.validate_seq(es, 0)
                }
            },
            LispExpr::Quote(e) => self.validate(e),
            LispExpr::Quasiquote(e) => self.validate(e),
            LispExpr::Unquote(e) => self.validate(e),
            LispExpr::Splice(e) => self.validate(e),
            LispExpr::Macro { body, .. } => self.validate(body),
            LispExpr::MacroCall { args, .. } => {
                proof {
                    assert(terms_view(args@).skip(0) =~= terms_view(args@));
                }
                self.validate_seq(args, 0)
            },
            _ => Ok(()),
        }
    }

    fn validate_seq(&self, es: &Vec<LispExpr>, start: usize) -> (r: ValidationResult)
        requires
            start <= es.len(),
        ensures
            match r {
                Ok(()) => ts_validate_seq(self.env(), terms_view(es@).skip(start as int)) is Ok,
                Err(e) => ts_validate_seq(self.env(), terms_view(es@).skip(start as int))
                    matches Err(ev) && e@ == ev,
            },
        decreases seq_size(terms_view(es@).skip(start as int)), 1int,
    {
        let ghost tv = terms_view(es@).skip(start as int);
        if start == es.len() {
            proof {
                assert(tv.len() == 0);
            }
            Ok(())
        } else {
            proof {
                lemma_seq_size_first(tv);
                assert(tv[0] == es@[start as int]@);
                assert(tv.drop_first() =~= terms_view(es@).skip(start as int + 1));
            }
            match self.validate(&es[start]) {
                Err(e) => Err(e),
                Ok(()) => self.validate_seq(es, start + 1),
            }
        }
    }
}

fn env_get_from<'a>(env: &'a Vec<(String, InferredType)>, hi: usize, name: &String) -> (r: Option<
    &'a InferredType,
>)
    requires
        hi <= env.len(),
    ensures
        match r {
            Some(t) => env_map(env@.take(hi as int)).dom().contains(name@) && *t == env_map(
                env@.take(hi as int),
            )[name@],
            None => !env_map(env@.take(hi as int)).dom().contains(name@),
        },
    decreases hi,
{
    if hi == 0 {
        proof {
            assert(env@.take(0) =~= Seq::<(String, InferredType)>::empty());
        }
        None
    } else {
        let j = hi - 1;
        proof {
            assert(env@.take(hi as int).drop_last() =~= env@.take(j as int));
            assert(env@.take(hi as int).last() == env@[j as int]);
        }
        if env[j].0 == *name {
            Some(&env[j].1)
        } else {
            env_get_from(env, j, name)
        }
    }
}

/// Structural equality of inferred shapes.
fn type_eq(a: &InferredType, b: &InferredType) -> (r: bool)
    ensures
        r == (a == b),
    decreases a,
{
    match (a, b) {
        (InferredType::Number, InferredType::Number) => true,
        (InferredType::String, InferredType::String) => true,
        (InferredType::Bool, InferredType::Bool) => true,
        (InferredType::List(x), InferredType::List(y)) => type_eq(x, y),
        (InferredType::Symbol, InferredType::Symbol) => true,
        (InferredType::Unknown, InferredType::Unknown) => true,
        (InferredType::Any, InferredType::Any) => true,
        _ => false,
    }
}


// ---------------------------------------------------------------------------
// Resource bounds
// ---------------------------------------------------------------------------

/// The function name a `define` form defines, if its head has one.
pub open spec fn define_name(t: TermV) -> Option<Seq<char>> {
    match t {
        TermV::List(dl) => if dl.len() > 0 && dl[0] is Symbol {
            Some(dl[0]->Symbol_0)
        } else {
            None
        },
        TermV::Symbol(s) => Some(s),
        _ => None,
    }
}

/// A body that is nothing but a direct List call to the given name.
pub open spec fn is_self_call(body: TermV, name: Seq<char>) -> bool {
    body matches TermV::List(bs) && bs.len() > 0 && bs[0] is Symbol && bs[0]->Symbol_0 == name
}

/// The error raised for a trivially non-terminating definition.
pub open spec fn recursion_err(name: Seq<char>, t: TermV) -> ValErrV {
    ValErrV {
        rule: ValidationRule::ResourceBounds,
        message: "Infinite recursion detected: function '"@ + name
            + "' calls itself without any conditional base case"@,
        context: Some(term_text(t)),
    }
}

/// The resource-bounds walk: a `define` whose body is a direct call to the
/// defined name, with no conditional in between, is rejected; every child
/// is visited.
pub open spec fn rb_validate_spec(t: TermV) -> Result<(), ValErrV>
    decreases term_size(t), 0int,
{
    match t {
        TermV::List(es) => {
            if es.len() > 0 && es[0] == TermV::Symbol("define"@) && es.len() >= 3 {
                match define_name(es[1]) {
                    Some(name) => if is_self_call(es[2], name) {
                        Err(recursion_err(name, t))
                    } else {
                        rb_validate_seq(es)
                    },
                    None => rb_validate_seq(es),
                }
            } else {
                rb_validate_seq(es)
            }
        },
        TermV::Quote(e) => rb_validate_spec(*e),
        TermV::Quasiquote(e) => rb_validate_spec(*e),
        TermV::Unquote(e) => rb_validate_spec(*e),
        TermV::Splice(e) => rb_validate_spec(*e),
        TermV::Macro { body, .. } => rb_validate_spec(*body),
        TermV::MacroCall { args, .. } => rb_validate_seq(args),
        _ => Ok(()),
    }
}

pub open spec fn rb_validate_seq(es: Seq<TermV>) -> Result<(), ValErrV>
    decreases seq_size(es), 1int,
    via rb_validate_seq_dec
{
    if es.len() == 0 {
        Ok(())
    } else {
        match rb_validate_spec(es[0]) {
            Err(e) => Err(e),
            Ok(()) => rb_validate_seq(es.drop_first()),
        }
    }
}

#[via_fn]
proof fn rb_validate_seq_dec(es: Seq<TermV>) {
    if es.len() > 0 {
        lemma_seq_size_first(es);
    }
}

/// The resource-bounds validator: detects the narrow pattern of trivially
/// non-terminating definitions. Deeper termination analysis is out of scope.
pub struct ResourceBoundsValidator {
    max_recursion_depth: usize,
}

impl ResourceBoundsValidator {
    pub fn new() -> (r: ResourceBoundsValidator)
        ensures
            true,
    {
        ResourceBoundsValidator { max_recursion_depth: 100 }
    }

    pub fn with_max_depth(self, depth: usize) -> (r: ResourceBoundsValidator)
        ensures
            true,
    {
        ResourceBoundsValidator { max_recursion_depth: depth }
    }

    /// The whole resource-bounds walk over one term.
    #[verifier::rlimit(50)]
    pub fn validate(&self, expr: &LispExpr) -> (r: ValidationResult)
        ensures
            match r {
                Ok(()) => rb_validate_spec(expr@) is Ok,
                Err(e) => rb_validate_spec(expr@) matches Err(ev) && e@ == ev,
            },
        decreases term_size(expr@), 0int,
    {
        match expr {
            LispExpr::List(es) => {
                proof {
                    assert(terms_view(es@).skip(0) =~= terms_view(es@));
                }
                let ghost tv = terms_view(es@);
                if es.len() >= 3 {
                    proof {
                        assert(tv[0] == es@[0]@);
                        assert(tv[1] == es@[1]@);
                        assert(tv[2] == es@[2]@);
                    }
                    let head_is_define = match &es[0] {
                        LispExpr::Symbol(h) => *h == "define".to_owned(),
                        _ => false,
                    };
                    proof {
                        assert(head_is_define == (tv[0] == TermV::Symbol("define"@)));
                    }
                    if head_is_define {
                        let name: Option<&String> = match &es[1] {
                            LispExpr::List(dl) => {
                                proof {
                                    assert(tv[1] == TermV::List(terms_view(dl@)));
                                }
                                if dl.len() > 0 {
                                    proof {
                                        assert(terms_view(dl@)[0] == dl@[0]@);
                                    }
                                    match &dl[0] {
                                        LispExpr::Symbol(n) => {
                                            proof {
                                                assert(define_name(tv[1]) == Some(n@));
                                            }
                                            Some(n)
                                        },
                                        _ => {
                                            proof {
                                                assert(define_name(tv[1]) is None);
                                            }
                                            None
                                        },
                                    }
                                } else {
                                    proof {
                                        assert(define_name(tv[1]) is None);
                                    }
                                    None
                                }
                            },
                            LispExpr::Symbol(n) => {
                                proof {
                                    assert(tv[1] == TermV::Symbol(n@));
                                    assert(define_name(tv[1]) == Some(n@));
                                }
                                Some(n)
                            },
                            _ => {
                                proof {
                                    assert(define_name(tv[1]) is None);
                                }
                                None
                            },
                        };
                        proof {
                            assert(match name {
                                Some(n) => define_name(tv[1]) == Some(n@),
                                None => define_name(tv[1]) is None,
                            });
                        }
                        match name {
                            Some(n) => {
                                let selfcall = match &es[2] {
                                    LispExpr::List(bs) => {
                                        proof {
                                            assert(tv[2] == TermV::List(terms_view(bs@)));
                                        }
                                        if bs.len() > 0 {
                                            proof {
                                                assert(terms_view(bs@)[0] == bs@[0]@);
                                            }
                                            match &bs[0] {
                                                LispExpr::Symbol(c) => {
                                                    let same = *c == *n;
                                                    proof {
                                                        assert(same == is_self_call(tv[2], n@));
                                                    }
                                                    same
                                                },
                                                _ => {
                                                    proof {
                                                        assert(!is_self_call(tv[2], n@));
                                                    }
                                                    false
                                                },
                                            }
                                        } else {
                                            proof {
                                                assert(!is_self_call(tv[2], n@));
                                            }
                                            false
                                        }
                                    },
                                    _ => {
                                        proof {
                                            assert(!is_self_call(tv[2], n@));
                                        }
                                        false
                                    },
                                };
                                proof {
                                    assert(selfcall == is_self_call(tv[2], n@));
                                }
                                if selfcall {
                                    proof {
                                        assert(rb_validate_spec(expr@) == Err::<(), ValErrV>(
                                            recursion_err(n@, expr@),
                                        ));
                                    }
                                    let mut msg =
                                        "Infinite recursion detected: function '".to_owned();
                                    msg.append(n.as_str());
                                    msg.append(
                                        "' calls itself without any conditional base case",
                                    );
                                    let ctx = expr.describe();
                                    let e = ValidationError {
                                        rule: ValidationRule::ResourceBounds,
                                        message: msg,
                                        context: Some(ctx),
                                    };
                                    proof {
                                        assert(e@.message =~= recursion_err(n@, expr@).message);
                                    }
                                    return Err(e);
                                }
                                proof {
                                    assert(rb_validate_spec(expr@) == rb_validate_seq(tv));
                                }
                            },
                            None => {
                                proof {
                                    assert(rb_validate_spec(expr@) == rb_validate_seq(tv));
                                }
                            },
                        }
                    } else {
                        proof {
                            assert(rb_validate_spec(expr@) == rb_validate_seq(tv));
                        }
                    }
                } else {
                    proof {
                        assert(rb_validate_spec(expr@) == rb_validate_seq(tv));
                    }
                }
                self.validate_seq(es, 0)
            },
            LispExpr::Quote(e) => self.validate(e),
            LispExpr::Quasiquote(e) => self.validate(e),
            LispExpr::Unquote(e) => self.validate(e),
            LispExpr::Splice(e) => self.validate(e),
            LispExpr::Macro { body, .. } => self.validate(body),
            LispExpr::MacroCall { args, .. } => {
                proof {
                    assert(terms_view(args@).skip(0) =~= terms_view(args@));
                }
                self.validate_seq(args, 0)
            },
            _ => Ok(()),
        }
    }

    fn validate_seq(&self, es: &Vec<LispExpr>, start: usize) -> (r: ValidationResult)
        requires
            start <= es.len(),
        ensures
            match r {
                Ok(()) => rb_validate_seq(terms_view(es@).skip(start as int)) is Ok,
                Err(e) => rb_validate_seq(terms_view(es@).skip(start as int)) matches Err(ev)
                    && e@ == ev,
            },
        decreases seq_size(terms_view(es@).skip(start as int)), 1int,
    {
        let ghost tv = terms_view(es@).skip(start as int);
        if start == es.len() {
            proof {
                assert(tv.len() == 0);
            }
            Ok(())
        } else {
            proof {
                lemma_seq_size_first(tv);
                assert(tv[0] == es@[start as int]@);
                assert(tv.drop_first() =~= terms_view(es@).skip(start as int + 1));
            }
            match self.validate(&es[start]) {
                Err(e) => Err(e),
                Ok(()) => self.validate_seq(es, start + 1),
            }
        }
    }
}

// ---------------------------------------------------------------------------
// FFI restrictions
// ---------------------------------------------------------------------------

/// Whether a head name falls under the FFI restriction.
pub open spec fn is_ffi_head(op: Seq<char>) -> bool {
    has_prefix(op, "rust-unsafe"@) || has_prefix(op, "ffi-"@)
}

/// The error raised for an unpermitted FFI or unsafe head.
pub open spec fn ffi_err(op: Seq<char>, t: TermV) -> ValErrV {
    ValErrV {
        rule: ValidationRule::FFIRestrictions,
        message: "FFI restriction: unsafe operation '"@ + op + "' is not allowed"@,
        context: Some(term_text(t)),
    }
}

/// The FFI walk: a List whose head Symbol starts with `rust-unsafe` or
/// `ffi-` and is not in the permitted set is rejected; every child is
/// visited.
pub open spec fn ffi_validate_spec(allowed: Seq<Seq<char>>, t: TermV) -> Result<(), ValErrV>
    decreases term_size(t), 0int,
{
    match t {
        TermV::List(es) => {
            if es.len() > 0 && es[0] is Symbol && is_ffi_head(es[0]->Symbol_0)
                && !allowed.contains(es[0]->Symbol_0) {
                Err(ffi_err(es[0]->Symbol_0, t))
            } else {
                ffi_validate_seq(allowed, es)
            }
        },
        TermV::Quote(e) => ffi_validate_spec(allowed, *e),
        TermV::Quasiquote(e) => ffi_validate_spec(allowed, *e),
        TermV::Unquote(e) => ffi_validate_spec(allowed, *e),
        TermV::Splice(e) => ffi_validate_spec(allowed, *e),
        TermV::Macro { body, .. } => ffi_validate_spec(allowed, *body),
        TermV::MacroCall { args, .. } => ffi_validate_seq(allowed, args),
        _ => Ok(()),
    }
}

pub open spec fn ffi_validate_seq(allowed: Seq<Seq<char>>, es: Seq<TermV>) -> Result<(), ValErrV>
    decreases seq_size(es), 1int,
    via ffi_validate_seq_dec
{
    if es.len() == 0 {
        Ok(())
    } else {
        match ffi_validate_spec(allowed, es[0]) {
            Err(e) => Err(e),
            Ok(()) => ffi_validate_seq(allowed, es.drop_first()),
        }
    }
}

#[via_fn]
proof fn ffi_validate_seq_dec(allowed: Seq<Seq<char>>, es: Seq<TermV>) {
    if es.len() > 0 {
        lemma_seq_size_first(es);
    }
}

/// The FFI-restrictions validator, with its set of permitted head names
/// (empty by default).
pub struct FFIRestrictionsValidator {
    allowed_ffi_functions: Vec<String>,
}

impl FFIRestrictionsValidator {
    /// The permitted FFI head names.
    pub closed spec fn allowed(&self) -> Seq<Seq<char>> {
        names_view(self.allowed_ffi_functions@)
    }

    pub fn new() -> (r: FFIRestrictionsValidator)
        ensures
            r.allowed() == Seq::<Seq<char>>::empty(),
    {
        let r = FFIRestrictionsValidator { allowed_ffi_functions: Vec::new() };
        proof {
            assert(r.allowed() =~= Seq::<Seq<char>>::empty());
        }
        r
    }

    /// Permit one FFI head name.
    pub fn allow_function(self, name: String) -> (r: FFIRestrictionsValidator)
        ensures
            r.allowed() == self.allowed().push(name@),
    {
        let ghost pre = names_view(self.allowed_ffi_functions@);
        let mut v = self;
        v.allowed_ffi_functions.push(name);
        proof {
            assert(v.allowed() =~= pre.push(v.allowed_ffi_functions@.last()@));
        }
        v
    }

    /// The whole FFI walk over one term.
    pub fn validate(&self, expr: &LispExpr) -> (r: ValidationResult)
        ensures
            match r {
                Ok(()) => ffi_validate_spec(self.allowed(), expr@) is Ok,
                Err(e) => ffi_validate_spec(self.allowed(), expr@) matches Err(ev) && e@ == ev,
            },
        decreases term_size(expr@), 0int,
    {
        match expr {
            LispExpr::List(es) => {
                proof {
                    assert(terms_view(es@).skip(0) =~= terms_view(es@));
                }
                let mut bad: Option<&String> = None;
                if es.len() > 0 {
                    proof {
                        assert(terms_view(es@)[0] == es@[0]@);
                    }
                    match &es[0] {
                        LispExpr::Symbol(op) => {
                            if (str_has_prefix(op, "rust-unsafe") || str_has_prefix(op, "ffi-"))
                                && !contains_name(&self.allowed_ffi_functions, op) {
                                bad = Some(op);
                            }
                        },
                        _ => {},
                    }
                }
                match bad {
                    Some(op) => {
                        let mut msg = "FFI restriction: unsafe operation '".to_owned();
                        msg.append(op.as_str());
                        msg.append("' is not allowed");
                        let ctx = expr.describe();
                        let e = ValidationError {
                            rule: ValidationRule::FFIRestrictions,
                            message: msg,
                            context: Some(ctx),
                        };
                        proof {
                            assert(e@.message =~= ffi_err(op@, expr@).message);
                        }
                        Err(e)
                    },
                    None => self.validate_seq(es, 0),
                }
            },
            LispExpr::Quote(e) => self.validate(e),
            LispExpr::Quasiquote(e) => self.validate(e),
            LispExpr::Unquote(e) => self.validate(e),
            LispExpr::Splice(e) => self.validate(e),
            LispExpr::Macro { body, .. } => self.validate(body),
            LispExpr::MacroCall { args, .. } => {
                proof {
                    assert(terms_view(args@).skip(0) =~= terms_view(args@));
                }
                self.validate_seq(args, 0)
            },
            _ => Ok(()),
        }
    }

    fn validate_seq(&self, es: &Vec<LispExpr>, start: usize) -> (r: ValidationResult)
        requires
            start <= es.len(),
        ensures
            match r {
                Ok(()) => ffi_validate_seq(self.allowed(), terms_view(es@).skip(start as int))
                    is Ok,
                Err(e) => ffi_validate_seq(self.allowed(), terms_view(es@).skip(start as int))
                    matches Err(ev) && e@ == ev,
            },
        decreases seq_size(terms_view(es@).skip(start as int)), 1int,
    {
        let ghost tv = terms_view(es@).skip(start as int);
        if start == es.len() {
            proof {
                assert(tv.len() == 0);
            }
            Ok(())
        } else {
            proof {
                lemma_seq_size_first(tv);
                assert(tv[0] == es@[start as int]@);
                assert(tv.drop_first() =~= terms_view(es@).skip(start as int + 1));
            }
            match self.validate(&es[start]) {
                Err(e) => Err(e),
                Ok(()) => self.validate_seq(es, start + 1),
            }
        }
    }
}

// ---------------------------------------------------------------------------
// Complexity limits
// ---------------------------------------------------------------------------

/// The error raised when the structural nesting depth passes the bound.
pub open spec fn depth_err(depth: int, max: int) -> ValErrV {
    ValErrV {
        rule: ValidationRule::ComplexityLimits,
        message: "Complexity limit exceeded: nesting depth "@ + dec_digits(depth)
            + " exceeds maximum "@ + dec_digits(max),
        context: None,
    }
}

/// The complexity walk: each List, quote-family wrapper, Macro body or
/// MacroCall argument deepens the count by one; passing the bound fails.
pub open spec fn cl_validate_spec(max: int, depth: int, t: TermV) -> Result<(), ValErrV>
    decreases term_size(t), 0int,
{
    if depth > max {
        Err(depth_err(depth, max))
    } else {
        match t {
            TermV::List(es) => cl_validate_seq(max, depth + 1, es),
            TermV::Quote(e) => cl_validate_spec(max, depth + 1, *e),
            TermV::Quasiquote(e) => cl_validate_spec(max, depth + 1, *e),
            TermV::Unquote(e) => cl_validate_spec(max, depth + 1, *e),
            TermV::Splice(e) => cl_validate_spec(max, depth + 1, *e),
            TermV::Macro { body, .. } => cl_validate_spec(max, depth + 1, *body),
            TermV::MacroCall { args, .. } => cl_validate_seq(max, depth + 1, args),
            _ => Ok(()),
        }
    }
}

pub open spec fn cl_validate_seq(max: int, depth: int, es: Seq<TermV>) -> Result<(), ValErrV>
    decreases seq_size(es), 1int,
    via cl_validate_seq_dec
{
    if es.len() == 0 {
        Ok(())
    } else {
        match cl_validate_spec(max, depth, es[0]) {
            Err(e) => Err(e),
            Ok(()) => cl_validate_seq(max, depth, es.drop_first()),
        }
    }
}

#[via_fn]
proof fn cl_validate_seq_dec(max: int, depth: int, es: Seq<TermV>) {
    if es.len() > 0 {
        lemma_seq_size_first(es);
    }
}

/// The complexity-limits validator, with its configured maximum nesting
/// depth (50 by default).
pub struct ComplexityLimitsValidator {
    max_nesting_depth: usize,
}

impl ComplexityLimitsValidator {
    /// The configured maximum nesting depth.
    pub closed spec fn max_nesting(&self) -> int {
        self.max_nesting_depth as int
    }

    /// The bound leaves room for counting one level past it.
    pub open spec fn wf(&self) -> bool {
        self.max_nesting() < usize::MAX as int
    }

    pub fn new() -> (r: ComplexityLimitsValidator)
        ensures
            r.max_nesting() == 50,
            r.wf(),
    {
        ComplexityLimitsValidator { max_nesting_depth: 50 }
    }

    pub fn with_max_nesting(self, depth: usize) -> (r: ComplexityLimitsValidator)
        requires
            depth < usize::MAX,
        ensures
            r.max_nesting() == depth as int,
            r.wf(),
    {
        ComplexityLimitsValidator { max_nesting_depth: depth }
    }

    /// The whole complexity walk over one term, from depth zero.
    pub fn validate(&self, expr: &LispExpr) -> (r: ValidationResult)
        requires
            self.wf(),
        ensures
            match r {
                Ok(()) => cl_validate_spec(self.max_nesting(), 0, expr@) is Ok,
                Err(e) => cl_validate_spec(self.max_nesting(), 0, expr@) matches Err(ev) && e@
                    == ev,
            },
    {
        self.check_depth(expr, 0)
    }

    fn check_depth(&self, expr: &LispExpr, depth: usize) -> (r: ValidationResult)
        requires
            self.wf(),
            depth <= self.max_nesting() + 1,
        ensures
            match r {
                Ok(()) => cl_validate_spec(self.max_nesting(), depth as int, expr@) is Ok,
                Err(e) => cl_validate_spec(self.max_nesting(), depth as int, expr@) matches Err(ev)
                    && e@ == ev,
            },
        decreases term_size(expr@), 0int,
    {
        if depth > self.max_nesting_depth {
            let mut msg = "Complexity limit exceeded: nesting depth ".to_owned();
            let d = usize_to_string(depth);
            msg.append(d.as_str());
            msg.append(" exceeds maximum ");
            let m = usize_to_string(self.max_nesting_depth);
            msg.append(m.as_str());
            let e = ValidationError {
                rule: ValidationRule::ComplexityLimits,
                message: msg,
                context: None,
            };
            proof {
                assert(e@.message =~= depth_err(depth as int, self.max_nesting()).message);
            }
            Err(e)
        } else {
            match expr {
                LispExpr::List(es) => {
                    proof {
                        assert(terms_view(es@).skip(0) =~= terms_view(es@));
                    }
                    self.check_depth_seq(es, 0, depth + 1)
                },
                LispExpr::Quote(e) => self.check_depth(e, depth + 1),
                LispExpr::Quasiquote(e) => self.check_depth(e, depth + 1),
                LispExpr::Unquote(e) => self.check_depth(e, depth + 1),
                LispExpr::Splice(e) => self.check_depth(e, depth + 1),
                LispExpr::Macro { body, .. } => self.check_depth(body, depth + 1),
                LispExpr::MacroCall { args, .. } => {
                    proof {
                        assert(terms_view(args@).skip(0) =~= terms_view(args@));
                    }
                    self.check_depth_seq(args, 0, depth + 1)
                },
                _ => Ok(()),
            }
        }
    }

    fn check_depth_seq(&self, es: &Vec<LispExpr>, start: usize, depth: usize) -> (r:
        ValidationResult)
        requires
            self.wf(),
            depth <= self.max_nesting() + 1,
            start <= es.len(),
        ensures
            match r {
                Ok(()) => cl_validate_seq(
                    self.max_nesting(),
                    depth as int,
                    terms_view(es@).skip(start as int),
                ) is Ok,
                Err(e) => cl_validate_seq(
                    self.max_nesting(),
                    depth as int,
                    terms_view(es@).skip(start as int),
                ) matches Err(ev) && e@ == ev,
            },
        decreases seq_size(terms_view(es@).skip(start as int)), 1int,
    {
        let ghost tv = terms_view(es@).skip(start as int);
        if start == es.len() {
            proof {
                assert(tv.len() == 0);
            }
            Ok(())
        } else {
            proof {
                lemma_seq_size_first(tv);
                assert(tv[0] == es@[start as int]@);
                assert(tv.drop_first() =~= terms_view(es@).skip(start as int + 1));
            }
            match self.check_depth(&es[start], depth) {
                Err(e) => Err(e),
                Ok(()) => self.check_depth_seq(es, start + 1, depth),
            }
        }
    }
}


// ---------------------------------------------------------------------------
// The composite validator
// ---------------------------------------------------------------------------

/// A validator of any of the four kinds. The rules share one interface:
/// each checks one orthogonal property of a term.
pub enum ASTValidator {
    TypeSafety(TypeSafetyValidator),
    ResourceBounds(ResourceBoundsValidator),
    FFIRestrictions(FFIRestrictionsValidator),
    ComplexityLimits(ComplexityLimitsValidator),
}

/// The rule a validator enforces.
pub open spec fn av_rule(v: ASTValidator) -> ValidationRule {
    match v {
        ASTValidator::TypeSafety(_) => ValidationRule::TypeSafety,
        ASTValidator::ResourceBounds(_) => ValidationRule::ResourceBounds,
        ASTValidator::FFIRestrictions(_) => ValidationRule::FFIRestrictions,
        ASTValidator::ComplexityLimits(_) => ValidationRule::ComplexityLimits,
    }
}

pub open spec fn av_wf(v: ASTValidator) -> bool {
    match v {
        ASTValidator::ComplexityLimits(c) => c.wf(),
        _ => true,
    }
}

/// The error this validator, run in isolation, raises on a term — if any.
pub open spec fn av_error(v: ASTValidator, t: TermV) -> Option<ValErrV> {
    let r = match v {
        ASTValidator::TypeSafety(ts) => ts_validate_spec(ts.env(), t),
        ASTValidator::ResourceBounds(_) => rb_validate_spec(t),
        ASTValidator::FFIRestrictions(f) => ffi_validate_spec(f.allowed(), t),
        ASTValidator::ComplexityLimits(c) => cl_validate_spec(c.max_nesting(), 0, t),
    };
    match r {
        Ok(()) => None,
        Err(e) => Some(e),
    }
}

impl ASTValidator {
    /// Run this one rule on a term.
    pub fn validate(&self, expr: &LispExpr) -> (r: ValidationResult)
        requires
            av_wf(*self),
        ensures
            match r {
                Ok(()) => av_error(*self, expr@) is None,
                Err(e) => av_error(*self, expr@) matches Some(ev) && e@ == ev,
            },
    {
        match self {
            ASTValidator::TypeSafety(ts) => ts.validate(expr),
            ASTValidator::ResourceBounds(rb) => rb.validate(expr),
            ASTValidator::FFIRestrictions(f) => f.validate(expr),
            ASTValidator::ComplexityLimits(c) => c.validate(expr),
        }
    }

    /// The rules this validator enforces: exactly its own.
    pub fn enabled_rules(&self) -> (r: Vec<ValidationRule>)
        ensures
            r@ == seq![av_rule(*self)],
    {
        let mut v: Vec<ValidationRule> = Vec::new();
        let rule = match self {
            ASTValidator::TypeSafety(_) => ValidationRule::TypeSafety,
            ASTValidator::ResourceBounds(_) => ValidationRule::ResourceBounds,
            ASTValidator::FFIRestrictions(_) => ValidationRule::FFIRestrictions,
            ASTValidator::ComplexityLimits(_) => ValidationRule::ComplexityLimits,
        };
        v.push(rule);
        proof {
            assert(v@ =~= seq![av_rule(*self)]);
        }
        v
    }
}

/// The views of a list of validation errors, element by element.
pub open spec fn errs_view(s: Seq<ValidationError>) -> Seq<ValErrV> {
    Seq::new(s.len(), |i: int| s[i]@)
}

/// The errors that each constituent validator, run in isolation and in
/// registration order, raises on a term.
pub open spec fn collected_errors(vs: Seq<ASTValidator>, t: TermV) -> Seq<ValErrV>
    decreases vs.len(),
{
    if vs.len() == 0 {
        Seq::empty()
    } else {
        collected_errors(vs.drop_last(), t) + (match av_error(vs.last(), t) {
            Some(e) => seq![e],
            None => Seq::<ValErrV>::empty(),
        })
    }
}

/// The composite validator: it runs every registered rule and reports all
/// of their complaints at once, never stopping at the first.
pub struct CompositeValidator {
    validators: Vec<ASTValidator>,
}

impl CompositeValidator {
    /// The registered validators, in registration order.
    pub closed spec fn spec_validators(&self) -> Seq<ASTValidator> {
        self.validators@
    }

    pub open spec fn wf(&self) -> bool {
        forall|i: int| 0 <= i < self.spec_validators().len() ==> av_wf(
            #[trigger] self.spec_validators()[i],
        )
    }

    /// A composite with no rules: it accepts everything.
    pub fn new() -> (r: CompositeValidator)
        ensures
            r.spec_validators() == Seq::<ASTValidator>::empty(),
            r.wf(),
    {
        CompositeValidator { validators: Vec::new() }
    }

    /// Register one more rule, to run after those already registered.
    pub fn add_validator(self, validator: ASTValidator) -> (r: CompositeValidator)
        requires
            self.wf(),
            av_wf(validator),
        ensures
            r.spec_validators() == self.spec_validators().push(validator),
            r.wf(),
    {
        let ghost pre = self.spec_validators();
        let mut v = self;
        v.validators.push(validator);
        proof {
            assert(v.spec_validators() == pre.push(validator));
            assert forall|i: int|
                0 <= i < v.spec_validators().len() implies av_wf(
                #[trigger] v.spec_validators()[i],
            ) by {
                if i < pre.len() {
                    assert(v.spec_validators()[i] == pre[i]);
                } else {
                    assert(v.spec_validators()[i] == validator);
                }
            }
        }
        v
    }

    /// Run every registered rule on the term. Success means no rule
    /// objected; otherwise the result carries exactly the errors that each
    /// constituent validator would produce in isolation, in registration
    /// order.
    pub fn validate_all(&self, expr: &LispExpr) -> (r: Result<(), Vec<ValidationError>>)
        requires
            self.wf(),
        ensures
            match r {
                Ok(()) => collected_errors(self.spec_validators(), expr@).len() == 0,
                Err(es) => errs_view(es@) == collected_errors(self.spec_validators(), expr@)
                    && es@.len() > 0,
            },
    {
        let mut errors: Vec<ValidationError> = Vec::new();
        let mut i: usize = 0;
        while i < self.validators.len()
            invariant
                i <= self.validators.len(),
                self.wf(),
                errs_view(errors@) == collected_errors(self.spec_validators().take(i as int), expr@),
            decreases self.validators.len() - i,
        {
            let ghost pref = self.spec_validators().take(i as int);
            let ghost next = self.spec_validators().take(i as int + 1);
            proof {
                assert(next.drop_last() =~= pref);
                assert(next.last() == self.spec_validators()[i as int]);
            }
            match self.validators[i].validate(expr) {
                Ok(()) => {
                    proof {
                        assert(errs_view(errors@) =~= collected_errors(next, expr@));
                    }
                },
                Err(e) => {
                    errors.push(e);
                    proof {
                        assert(errs_view(errors@) =~= collected_errors(next, expr@));
                    }
                },
            }
            i += 1;
        }
        proof {
            assert(self.spec_validators().take(self.spec_validators().len() as int)
                =~= self.spec_validators());
        }
        if errors.len() == 0 {
            Ok(())
        } else {
            Err(errors)
        }
    }
}

} // verus!
