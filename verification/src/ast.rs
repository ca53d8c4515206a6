use vstd::prelude::*;

verus! {

/// Mathematical model of a term: the same tree shape as `LispExpr`, with
/// every piece of text abstracted to a sequence of characters.
#[verifier::ext_equal]
pub enum TermV {
    Number(Seq<char>),
    Symbol(Seq<char>),
    String(Seq<char>),
    List(Seq<TermV>),
    Bool(bool),
    Nil,
    Macro { name: Seq<char>, parameters: Seq<Seq<char>>, body: Box<TermV> },
    MacroCall { name: Seq<char>, args: Seq<TermV> },
    Quote(Box<TermV>),
    Quasiquote(Box<TermV>),
    Unquote(Box<TermV>),
    Splice(Box<TermV>),
    Gensym(Seq<char>),
}

/// A term of the surface language. Numeric literals keep the text of the
/// number they were written with, in the canonical form that
/// `is_number_text` describes.
#[derive(Debug, PartialEq)]
pub enum LispExpr {
    Number(String),
    Symbol(String),
    String(String),
    List(Vec<LispExpr>),
    Bool(bool),
    Nil,
    Macro { name: String, parameters: Vec<String>, body: Box<LispExpr> },
    MacroCall { name: String, args: Vec<LispExpr> },
    Quote(Box<LispExpr>),
    Quasiquote(Box<LispExpr>),
    Unquote(Box<LispExpr>),
    Splice(Box<LispExpr>),
    Gensym(String),
}

impl View for LispExpr {
    type V = TermV;

    open spec fn view(&self) -> TermV
        decreases self,
    {
        match self {
            LispExpr::Number(s) => TermV::Number(s@),
            LispExpr::Symbol(s) => TermV::Symbol(s@),
            LispExpr::String(s) => TermV::String(s@),
            LispExpr::List(es) => TermV::List(terms_view(es@)),
            LispExpr::Bool(b) => TermV::Bool(*b),
            LispExpr::Nil => TermV::Nil,
            LispExpr::Macro { name, parameters, body } => TermV::Macro {
                name: name@,
                parameters: names_view(parameters@),
                body: Box::new((**body)@),
            },
            LispExpr::MacroCall { name, args } => TermV::MacroCall {
                name: name@,
                args: terms_view(args@),
            },
            LispExpr::Quote(e) => TermV::Quote(Box::new((**e)@)),
            LispExpr::Quasiquote(e) => TermV::Quasiquote(Box::new((**e)@)),
            LispExpr::Unquote(e) => TermV::Unquote(Box::new((**e)@)),
            LispExpr::Splice(e) => TermV::Splice(Box::new((**e)@)),
            LispExpr::Gensym(s) => TermV::Gensym(s@),
        }
    }
}

/// The view of a sequence of terms, element by element.
pub open spec fn terms_view(s: Seq<LispExpr>) -> Seq<TermV>
    decreases s,
{
    Seq::new(s.len(), |i: int| if 0 <= i < s.len() { s[i]@ } else { TermV::Nil })
}

/// The view of a sequence of names, element by element.
pub open spec fn names_view(s: Seq<String>) -> Seq<Seq<char>> {
    Seq::new(s.len(), |i: int| s[i]@)
}

pub open spec fn is_digit_char(c: char) -> bool {
    '0' <= c && c <= '9'
}

/// Position of the first non-digit character at or after `i`.
pub open spec fn digits_end(s: Seq<char>, i: int) -> int
    decreases s.len() - i,
{
    if 0 <= i < s.len() && is_digit_char(s[i]) {
        digits_end(s, i + 1)
    } else {
        i
    }
}

/// An unsigned numeric literal: digits without a superfluous leading zero,
/// then optionally a dot and at least one more digit.
pub open spec fn is_unsigned_number_text(s: Seq<char>) -> bool {
    &&& s.len() > 0
    &&& is_digit_char(s[0])
    &&& (s[0] == '0' ==> s.len() == 1 || s[1] == '.')
    &&& {
        let d = digits_end(s, 0);
        ||| d == s.len()
        ||| (d < s.len() && s[d] == '.' && d + 1 < s.len() && digits_end(s, d + 1) == s.len())
    }
}

/// The canonical text of a numeric literal: an optional minus sign, then an
/// unsigned numeric literal.
pub open spec fn is_number_text(s: Seq<char>) -> bool {
    if s.len() > 0 && s[0] == '-' {
        is_unsigned_number_text(s.skip(1))
    } else {
        is_unsigned_number_text(s)
    }
}

/// A term is well formed when every numeric literal in it carries canonical
/// number text.
pub open spec fn wf_term(t: TermV) -> bool
    decreases t,
{
    match t {
        TermV::Number(s) => is_number_text(s),
        TermV::Symbol(_) => true,
        TermV::String(_) => true,
        TermV::List(es) => forall|i: int| 0 <= i < es.len() ==> wf_term(#[trigger] es[i]),
        TermV::Bool(_) => true,
        TermV::Nil => true,
        TermV::Macro { body, .. } => wf_term(*body),
        TermV::MacroCall { args, .. } => forall|i: int|
            0 <= i < args.len() ==> wf_term(#[trigger] args[i]),
        TermV::Quote(e) => wf_term(*e),
        TermV::Quasiquote(e) => wf_term(*e),
        TermV::Unquote(e) => wf_term(*e),
        TermV::Splice(e) => wf_term(*e),
        TermV::Gensym(_) => true,
    }
}

impl LispExpr {
    /// A leaf term: a literal, a name, or the unit marker.
    pub fn is_atom(&self) -> (r: bool)
        ensures
            r == (self@ is Number || self@ is Symbol || self@ is String || self@ is Bool
                || self@ is Nil || self@ is Gensym),
    {
        matches!(self,
            LispExpr::Number(_)
            | LispExpr::Symbol(_)
            | LispExpr::String(_)
            | LispExpr::Bool(_)
            | LispExpr::Nil
            | LispExpr::Gensym(_))
    }

    pub fn is_list(&self) -> (r: bool)
        ensures
            r == (self@ is List),
    {
        matches!(self, LispExpr::List(_))
    }

    pub fn as_symbol(&self) -> (r: Option<&str>)
        ensures
            match r {
                Some(s) => self@ matches TermV::Symbol(n) && s@ == n,
                None => !(self@ is Symbol),
            },
    {
        match self {
            LispExpr::Symbol(s) => Some(s.as_str()),
            _ => None,
        }
    }

    pub fn as_list(&self) -> (r: Option<&Vec<LispExpr>>)
        ensures
            match r {
                Some(l) => self@ matches TermV::List(es) && terms_view(l@) == es,
                None => !(self@ is List),
            },
    {
        match self {
            LispExpr::List(l) => {
                Some(l)
            },
            _ => None,
        }
    }

    pub fn is_macro(&self) -> (r: bool)
        ensures
            r == (self@ is Macro),
    {
        matches!(self, LispExpr::Macro { .. })
    }

    pub fn is_macro_call(&self) -> (r: bool)
        ensures
            r == (self@ is MacroCall),
    {
        matches!(self, LispExpr::MacroCall { .. })
    }

    /// One of the four wrapper variants that suppress or shape evaluation.
    pub fn is_quote_family(&self) -> (r: bool)
        ensures
            r == (self@ is Quote || self@ is Quasiquote || self@ is Unquote || self@ is Splice),
    {
        matches!(self,
            LispExpr::Quote(_)
            | LispExpr::Quasiquote(_)
            | LispExpr::Unquote(_)
            | LispExpr::Splice(_))
    }

    pub fn as_macro(&self) -> (r: Option<(&str, &Vec<String>, &LispExpr)>)
        ensures
            match r {
                Some((n, ps, b)) => self@ matches TermV::Macro { name, parameters, body }
                    && n@ == name && names_view(ps@) == parameters && b@ == *body,
                None => !(self@ is Macro),
            },
    {
        match self {
            LispExpr::Macro { name, parameters, body } => {
                Some((name.as_str(), parameters, body))
            },
            _ => None,
        }
    }

    pub fn as_macro_call(&self) -> (r: Option<(&str, &Vec<LispExpr>)>)
        ensures
            match r {
                Some((n, a)) => self@ matches TermV::MacroCall { name, args } && n@ == name
                    && terms_view(a@) == args,
                None => !(self@ is MacroCall),
            },
    {
        match self {
            LispExpr::MacroCall { name, args } => {
                Some((name.as_str(), args))
            },
            _ => None,
        }
    }

    pub fn as_quote(&self) -> (r: Option<&LispExpr>)
        ensures
            match r {
                Some(e) => self@ matches TermV::Quote(inner) && e@ == *inner,
                None => !(self@ is Quote),
            },
    {
        match self {
            LispExpr::Quote(e) => Some(e),
            _ => None,
        }
    }

    pub fn as_quasiquote(&self) -> (r: Option<&LispExpr>)
        ensures
            match r {
                Some(e) => self@ matches TermV::Quasiquote(inner) && e@ == *inner,
                None => !(self@ is Quasiquote),
            },
    {
        match self {
            LispExpr::Quasiquote(e) => Some(e),
            _ => None,
        }
    }

    pub fn as_unquote(&self) -> (r: Option<&LispExpr>)
        ensures
            match r {
                Some(e) => self@ matches TermV::Unquote(inner) && e@ == *inner,
                None => !(self@ is Unquote),
            },
    {
        match self {
            LispExpr::Unquote(e) => Some(e),
            _ => None,
        }
    }

    pub fn as_splice(&self) -> (r: Option<&LispExpr>)
        ensures
            match r {
                Some(e) => self@ matches TermV::Splice(inner) && e@ == *inner,
                None => !(self@ is Splice),
            },
    {
        match self {
            LispExpr::Splice(e) => Some(e),
            _ => None,
        }
    }

    pub fn as_gensym(&self) -> (r: Option<&str>)
        ensures
            match r {
                Some(s) => self@ matches TermV::Gensym(n) && s@ == n,
                None => !(self@ is Gensym),
            },
    {
        match self {
            LispExpr::Gensym(s) => Some(s.as_str()),
            _ => None,
        }
    }

    /// A structural copy whose model is the same term.
    pub fn deep_clone(&self) -> (r: LispExpr)
        ensures
            r@ == self@,
        decreases self,
    {
        match self {
            LispExpr::Number(s) => LispExpr::Number(s.clone()),
            LispExpr::Symbol(s) => LispExpr::Symbol(s.clone()),
            LispExpr::String(s) => LispExpr::String(s.clone()),
            LispExpr::Bool(b) => LispExpr::Bool(*b),
            LispExpr::Nil => LispExpr::Nil,
            LispExpr::Gensym(s) => LispExpr::Gensym(s.clone()),
            LispExpr::List(es) => {
                let copied = clone_terms(es);
                proof {
                    assert((LispExpr::List(copied))@ =~= self@);
                }
                LispExpr::List(copied)
            },
            LispExpr::Macro { name, parameters, body } => {
                let ps = clone_names(parameters);
                let r = LispExpr::Macro {
                    name: name.clone(),
                    parameters: ps,
                    body: Box::new(body.deep_clone()),
                };
                proof {
                    assert(r@ =~= self@);
                }
                r
            },
            LispExpr::MacroCall { name, args } => {
                let a = clone_terms(args);
                let r = LispExpr::MacroCall { name: name.clone(), args: a };
                proof {
                    assert(r@ =~= self@);
                }
                r
            },
            LispExpr::Quote(e) => LispExpr::Quote(Box::new(e.deep_clone())),
            LispExpr::Quasiquote(e) => LispExpr::Quasiquote(Box::new(e.deep_clone())),
            LispExpr::Unquote(e) => LispExpr::Unquote(Box::new(e.deep_clone())),
            LispExpr::Splice(e) => LispExpr::Splice(Box::new(e.deep_clone())),
        }
    }
}

impl Clone for LispExpr {
    /// A structural copy whose model is the same term.
    fn clone(&self) -> (r: Self)
        ensures
            r@ == self@,
    {
        self.deep_clone()
    }
}

/// A structural copy of a sequence of terms, model for model.
pub fn clone_terms(es: &Vec<LispExpr>) -> (r: Vec<LispExpr>)
    ensures
        terms_view(r@) == terms_view(es@),
        r@.len() == es@.len(),
    decreases es,
{
    let mut out: Vec<LispExpr> = Vec::new();
    let mut i: usize = 0;
    while i < es.len()
        invariant
            i <= es.len(),
            out@.len() == i,
            forall|j: int| 0 <= j < i ==> out@[j]@ == es@[j]@,
        decreases es.len() - i,
    {
        proof {
            assert(decreases_to!(es => es@[i as int]));
        }
        out.push(es[i].deep_clone());
        i += 1;
    }
    proof {
        assert(terms_view(out@) =~= terms_view(es@));
    }
    out
}

/// A copy of a sequence of names, model for model.
pub fn clone_names(ps: &Vec<String>) -> (r: Vec<String>)
    ensures
        names_view(r@) == names_view(ps@),
        r@.len() == ps@.len(),
{
    let mut out: Vec<String> = Vec::new();
    let mut i: usize = 0;
    while i < ps.len()
        invariant
            i <= ps.len(),
            out@.len() == i,
            forall|j: int| 0 <= j < i ==> out@[j]@ == ps@[j]@,
        decreases ps.len() - i,
    {
        out.push(ps[i].clone());
        i += 1;
    }
    proof {
        assert(names_view(out@) =~= names_view(ps@));
    }
    out
}


/// The rendering of a term for error contexts and diagnostics.
pub open spec fn term_text(t: TermV) -> Seq<char>
    decreases t, 0int,
{
    match t {
        TermV::Number(s) => "Number("@ + s + ")"@,
        TermV::Symbol(s) => "Symbol("@ + s + ")"@,
        TermV::String(s) => "String(\""@ + s + "\")"@,
        TermV::Bool(b) => if b { "Bool(true)"@ } else { "Bool(false)"@ },
        TermV::Nil => "Nil"@,
        TermV::Gensym(s) => "Gensym("@ + s + ")"@,
        TermV::List(es) => "List(["@ + terms_text(es) + "])"@,
        TermV::Macro { name, .. } => "Macro("@ + name + ")"@,
        TermV::MacroCall { name, args } => "MacroCall("@ + name + ", ["@ + terms_text(args)
            + "])"@,
        TermV::Quote(e) => "Quote("@ + term_text(*e) + ")"@,
        TermV::Quasiquote(e) => "Quasiquote("@ + term_text(*e) + ")"@,
        TermV::Unquote(e) => "Unquote("@ + term_text(*e) + ")"@,
        TermV::Splice(e) => "Splice("@ + term_text(*e) + ")"@,
    }
}

/// The renderings of a sequence of terms, separated by commas.
pub open spec fn terms_text(es: Seq<TermV>) -> Seq<char>
    decreases es, 1int,
{
    if es.len() == 0 {
        Seq::empty()
    } else if es.len() == 1 {
        term_text(es[0])
    } else {
        term_text(es[0]) + ", "@ + terms_text(es.drop_first())
    }
}

impl LispExpr {
    /// Render this term for error contexts and diagnostics.
    pub fn describe(&self) -> (r: String)
        ensures
            r@ == term_text(self@),
        decreases self, 0int,
    {
        match self {
            LispExpr::Number(s) => {
                let mut r = "Number(".to_owned();
                r.append(s.as_str());
                r.append(")");
                proof {
                    assert(r@ =~= term_text(self@));
                }
                r
            },
            LispExpr::Symbol(s) => {
                let mut r = "Symbol(".to_owned();
                r.append(s.as_str());
                r.append(")");
                proof {
                    assert(r@ =~= term_text(self@));
                }
                r
            },
            LispExpr::String(s) => {
                let mut r = "String(\"".to_owned();
                r.append(s.as_str());
                r.append("\")");
                proof {
                    assert(r@ =~= term_text(self@));
                }
                r
            },
            LispExpr::Bool(b) => {
                if *b {
                    "Bool(true)".to_owned()
                } else {
                    "Bool(false)".to_owned()
                }
            },
            LispExpr::Nil => "Nil".to_owned(),
            LispExpr::Gensym(s) => {
                let mut r = "Gensym(".to_owned();
                r.append(s.as_str());
                r.append(")");
                proof {
                    assert(r@ =~= term_text(self@));
                }
                r
            },
            LispExpr::List(es) => {
                let mut r = "List([".to_owned();
                let inner = describe_all(es, 0);
                r.append(inner.as_str());
                r.append("])");
                proof {
                    assert(terms_view(es@).skip(0) =~= terms_view(es@));
                    assert(r@ =~= term_text(self@));
                }
                r
            },
            LispExpr::Macro { name, .. } => {
                let mut r = "Macro(".to_owned();
                r.append(name.as_str());
                r.append(")");
                proof {
                    assert(r@ =~= term_text(self@));
                }
                r
            },
            LispExpr::MacroCall { name, args } => {
                let mut r = "MacroCall(".to_owned();
                r.append(name.as_str());
                r.append(", [");
                let inner = describe_all(args, 0);
                r.append(inner.as_str());
                r.append("])");
                proof {
                    assert(terms_view(args@).skip(0) =~= terms_view(args@));
                    assert(r@ =~= term_text(self@));
                }
                r
            },
            LispExpr::Quote(e) => {
                let mut r = "Quote(".to_owned();
                let inner = e.describe();
                r.append(inner.as_str());
                r.append(")");
                proof {
                    assert(r@ =~= term_text(self@));
                }
                r
            },
            LispExpr::Quasiquote(e) => {
                let mut r = "Quasiquote(".to_owned();
                let inner = e.describe();
                r.append(inner.as_str());
                r.append(")");
                proof {
                    assert(r@ =~= term_text(self@));
                }
                r
            },
            LispExpr::Unquote(e) => {
                let mut r = "Unquote(".to_owned();
                let inner = e.describe();
                r.append(inner.as_str());
                r.append(")");
                proof {
                    assert(r@ =~= term_text(self@));
                }
                r
            },
            LispExpr::Splice(e) => {
                let mut r = "Splice(".to_owned();
                let inner = e.describe();
                r.append(inner.as_str());
                r.append(")");
                proof {
                    assert(r@ =~= term_text(self@));
                }
                r
            },
        }
    }
}

/// Render the terms from `start` on, separated by commas.
fn describe_all(es: &Vec<LispExpr>, start: usize) -> (r: String)
    requires
        start <= es.len(),
    ensures
        r@ == terms_text(terms_view(es@).skip(start as int)),
    decreases es, 1int, es.len() - start,
{
    let ghost tv = terms_view(es@).skip(start as int);
    if start == es.len() {
        let r = String::new();
        proof {
            assert(tv.len() == 0);
        }
        r
    } else {
        proof {
            assert(tv[0] == es@[start as int]@);
            assert(tv.drop_first() =~= terms_view(es@).skip(start as int + 1));
            assert(decreases_to!(es, 1int, es.len() - start => es@[start as int], 0int, 0int));
        }
        let mut r = es[start].describe();
        if start + 1 < es.len() {
            r.append(", ");
            let rest = describe_all(es, start + 1);
            r.append(rest.as_str());
            proof {
                assert(r@ =~= terms_text(tv));
            }
        } else {
            proof {
                assert(tv.len() == 1);
                assert(r@ =~= terms_text(tv));
            }
        }
        r
    }
}

/// Whether some entry of `v` reads `x`.
pub fn contains_name(v: &Vec<String>, x: &String) -> (r: bool)
    ensures
        r == names_view(v@).contains(x@),
{
    let mut i: usize = 0;
    while i < v.len()
        invariant
            i <= v.len(),
            forall|k: int| 0 <= k < i ==> v@[k]@ != x@,
        decreases v.len() - i,
    {
        if v[i] == *x {
            proof {
                assert(names_view(v@)[i as int] == x@);
            }
            return true;
        }
        i += 1;
    }
    proof {
        assert forall|k: int| 0 <= k < names_view(v@).len() implies names_view(v@)[k] != x@ by {}
    }
    false
}

} // verus!
