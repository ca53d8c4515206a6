use vstd::prelude::*;
use crate::ast::{LispExpr, TermV, names_view, terms_view};
use crate::macro_expander::{term_size, seq_size, lemma_seq_size_first};
use crate::text::usize_to_string;

verus! {

/// Mathematical model of a transform error.
pub enum TransformErrV {
    Failed(Seq<char>),
    InvalidAst(Seq<char>),
    PluginNotFound(Seq<char>),
}

/// What can go wrong while rewriting a tree.
#[derive(Debug, PartialEq)]
pub enum TransformError {
    /// The transform failed with a custom message.
    TransformFailed(String),
    /// An invalid tree structure was encountered.
    InvalidAst(String),
    /// A transform of that name is not registered.
    PluginNotFound(String),
}

impl View for TransformError {
    type V = TransformErrV;

    open spec fn view(&self) -> TransformErrV {
        match self {
            TransformError::TransformFailed(m) => TransformErrV::Failed(m@),
            TransformError::InvalidAst(m) => TransformErrV::InvalidAst(m@),
            TransformError::PluginNotFound(m) => TransformErrV::PluginNotFound(m@),
        }
    }
}

impl Clone for TransformError {
    /// A copy that models the same error.
    fn clone(&self) -> (r: Self)
        ensures
            r@ == self@,
    {
        match self {
            TransformError::TransformFailed(m) => TransformError::TransformFailed(m.clone()),
            TransformError::InvalidAst(m) => TransformError::InvalidAst(m.clone()),
            TransformError::PluginNotFound(m) => TransformError::PluginNotFound(m.clone()),
        }
    }
}

/// The rendering of a transform error.
pub open spec fn transform_err_text(e: TransformErrV) -> Seq<char> {
    match e {
        TransformErrV::Failed(m) => "Transform failed: "@ + m,
        TransformErrV::InvalidAst(m) => "Invalid AST: "@ + m,
        TransformErrV::PluginNotFound(m) => "Plugin not found: "@ + m,
    }
}

impl TransformError {
    /// The human-readable rendering of this error.
    pub fn render(&self) -> (r: String)
        ensures
            r@ == transform_err_text(self@),
    {
        match self {
            TransformError::TransformFailed(m) => {
                let mut s = "Transform failed: ".to_owned();
                s.append(m.as_str());
                s
            },
            TransformError::InvalidAst(m) => {
                let mut s = "Invalid AST: ".to_owned();
                s.append(m.as_str());
                s
            },
            TransformError::PluginNotFound(m) => {
                let mut s = "Plugin not found: ".to_owned();
                s.append(m.as_str());
                s
            },
        }
    }
}

/// A tree rewriter that runs between parsing and macro expansion. Users
/// implement this trait; what a rewrite does to the tree is the
/// implementor's own business, so the registry promises nothing of it
/// beyond each transform reporting the name it declares.
pub trait ASTTransform {
    /// The name this transform declares, as a mathematical value.
    /// Implementors override this with the text their `name` method
    /// returns; left alone, it stands for the empty text.
    open spec fn spec_name(&self) -> Seq<char> {
        Seq::empty()
    }

    /// The name of this transform.
    fn name(&self) -> (r: &str)
        ensures
            r@ == self.spec_name(),
    ;

    /// Rewrite the tree in place, or report why that cannot be done.
    fn transform(&mut self, ast: &mut LispExpr) -> Result<(), TransformError>;
}

/// An ordered registry of tree rewriters of one kind, applied first to
/// last.
pub struct TransformRegistry<T: ASTTransform> {
    transforms: Vec<T>,
}

impl<T: ASTTransform> TransformRegistry<T> {
    /// The registered transforms, in registration order.
    pub closed spec fn spec_transforms(&self) -> Seq<T> {
        self.transforms@
    }

    /// How many transforms are registered.
    pub open spec fn spec_count(&self) -> int {
        self.spec_transforms().len() as int
    }

    /// An empty registry.
    pub fn new() -> (r: TransformRegistry<T>)
        ensures
            r.spec_count() == 0,
    {
        TransformRegistry { transforms: Vec::new() }
    }

    /// Register one more transform, to run after those already registered.
    pub fn register(&mut self, transform: T)
        ensures
            final(self).spec_transforms() == old(self).spec_transforms().push(transform),
    {
        self.transforms.push(transform);
    }

    /// Run every registered transform on the tree, in registration order;
    /// the first failure stops the run and is returned. What each rewrite
    /// does to the tree is up to the registered transforms.
    pub fn apply_all(&mut self, ast: &mut LispExpr) -> (r: Result<(), TransformError>)
        ensures
            final(self).spec_count() == old(self).spec_count(),
            old(self).spec_count() == 0 ==> *final(ast) == *old(ast) && r is Ok,
    {
        let mut i: usize = 0;
        let n = self.transforms.len();
        while i < n
            invariant
                i <= n,
                n == self.transforms@.len(),
                self.spec_count() == old(self).spec_count(),
                n as int == old(self).spec_count(),
                old(self).spec_count() == 0 ==> *ast == *old(ast),
            decreases n - i,
        {
            match self.transforms[i].transform(ast) {
                Ok(()) => {},
                Err(e) => {
                    return Err(e);
                },
            }
            i += 1;
        }
        Ok(())
    }

    /// How many transforms are registered.
    pub fn count(&self) -> (r: usize)
        ensures
            r as int == self.spec_count(),
    {
        self.transforms.len()
    }

    /// The names of the registered transforms, in registration order: the
    /// name each transform declares.
    pub fn transform_names(&self) -> (r: Vec<String>)
        ensures
            r@.len() as int == self.spec_count(),
            forall|i: int| 0 <= i < r@.len() ==> r@[i]@
                == #[trigger] self.spec_transforms()[i].spec_name(),
    {
        let mut names: Vec<String> = Vec::new();
        let mut i: usize = 0;
        while i < self.transforms.len()
            invariant
                i <= self.transforms@.len(),
                names@.len() == i,
                forall|k: int| 0 <= k < i ==> names@[k]@
                    == #[trigger] self.spec_transforms()[k].spec_name(),
            decreases self.transforms@.len() - i,
        {
            names.push(self.transforms[i].name().to_owned());
            i += 1;
        }
        names
    }
}

// ---------------------------------------------------------------------------
// The echo transform
// ---------------------------------------------------------------------------

/// The next indentation level; it sticks at the machine limit.
pub open spec fn next_indent(n: int) -> int {
    if n < usize::MAX as int {
        n + 1
    } else {
        n
    }
}

/// The indentation of the given depth: two blanks per level.
pub open spec fn indent_text(n: int) -> Seq<char>
    decreases n,
{
    if n <= 0 {
        Seq::empty()
    } else {
        indent_text(n - 1) + "  "@
    }
}

/// The echo rendering of a term at the given indentation.
pub open spec fn echo_text(t: TermV, ind: int) -> Seq<char>
    decreases term_size(t), 0int,
{
    match t {
        TermV::Number(s) => indent_text(ind) + "Number("@ + s + ")"@,
        TermV::Symbol(s) => indent_text(ind) + "Symbol("@ + s + ")"@,
        TermV::String(s) => indent_text(ind) + "String(\""@ + s + "\")"@,
        TermV::Bool(b) => indent_text(ind) + (if b { "Bool(true)"@ } else { "Bool(false)"@ }),
        TermV::Nil => indent_text(ind) + "Nil"@,
        TermV::Gensym(s) => indent_text(ind) + "Gensym("@ + s + ")"@,
        TermV::List(es) => indent_text(ind) + "List[\n"@ + echo_items(es, next_indent(ind))
            + indent_text(ind) + "]"@,
        TermV::Macro { name, parameters, .. } => indent_text(ind) + "Macro(name: "@ + name
            + ", parameters: ["@ + quoted_names(parameters) + "], body: ...)"@,
        TermV::MacroCall { name, args } => indent_text(ind) + "MacroCall(name: "@ + name
            + ", args: "@ + crate::text::dec_digits(args.len() as int) + " items)"@,
        TermV::Quote(e) => indent_text(ind) + "Quote[\n"@ + echo_text(*e, next_indent(ind)) + "\n"@
            + indent_text(ind) + "]"@,
        TermV::Quasiquote(e) => indent_text(ind) + "Quasiquote[\n"@ + echo_text(*e, next_indent(ind))
            + "\n"@ + indent_text(ind) + "]"@,
        TermV::Unquote(e) => indent_text(ind) + "Unquote[\n"@ + echo_text(*e, next_indent(ind)) + "\n"@
            + indent_text(ind) + "]"@,
        TermV::Splice(e) => indent_text(ind) + "Splice[\n"@ + echo_text(*e, next_indent(ind)) + "\n"@
            + indent_text(ind) + "]"@,
    }
}

/// The echo renderings of list items, one per line.
pub open spec fn echo_items(es: Seq<TermV>, ind: int) -> Seq<char>
    decreases seq_size(es), 1int,
    via echo_items_dec
{
    if es.len() == 0 {
        Seq::empty()
    } else {
        echo_text(es[0], ind) + "\n"@ + echo_items(es.drop_first(), ind)
    }
}

#[via_fn]
proof fn echo_items_dec(es: Seq<TermV>, ind: int) {
    if es.len() > 0 {
        lemma_seq_size_first(es);
    }
}

/// The names, each in quotes, joined by commas.
pub open spec fn quoted_names(ps: Seq<Seq<char>>) -> Seq<char>
    decreases ps.len(),
{
    if ps.len() == 0 {
        Seq::empty()
    } else if ps.len() == 1 {
        "\""@ + ps[0] + "\""@
    } else {
        "\""@ + ps[0] + "\", "@ + quoted_names(ps.drop_first())
    }
}

/// The indentation of the given depth.
pub fn indent_exec(n: usize) -> (r: String)
    ensures
        r@ == indent_text(n as int),
    decreases n,
{
    if n == 0 {
        String::new()
    } else {
        let mut s = indent_exec(n - 1);
        s.append("  ");
        s
    }
}

fn quoted_names_exec(ps: &Vec<String>, start: usize) -> (r: String)
    requires
        start <= ps.len(),
    ensures
        r@ == quoted_names(names_view(ps@).skip(start as int)),
    decreases ps.len() - start,
{
    let ghost pv = names_view(ps@).skip(start as int);
    if start == ps.len() {
        let r = String::new();
        proof {
            assert(pv.len() == 0);
        }
        r
    } else {
        proof {
            assert(pv[0] == ps@[start as int]@);
            assert(pv.drop_first() =~= names_view(ps@).skip(start as int + 1));
        }
        let mut s = "\"".to_owned();
        s.append(ps[start].as_str());
        if start + 1 < ps.len() {
            s.append("\", ");
            let rest = quoted_names_exec(ps, start + 1);
            s.append(rest.as_str());
            proof {
                assert(s@ =~= quoted_names(pv));
            }
        } else {
            s.append("\"");
            proof {
                assert(pv.len() == 1);
                assert(s@ =~= quoted_names(pv));
            }
        }
        s
    }
}

/// Render one term in the echo style.
fn echo_render(t: &LispExpr, ind: usize) -> (r: String)
    ensures
        r@ == echo_text(t@, ind as int),
    decreases term_size(t@), 0int,
{
    match t {
        LispExpr::Number(s) => {
            let mut r = indent_exec(ind);
            r.append("Number(");
            r.append(s.as_str());
            r.append(")");
            proof {
                assert(r@ =~= echo_text(t@, ind as int));
            }
            r
        },
        LispExpr::Symbol(s) => {
            let mut r = indent_exec(ind);
            r.append("Symbol(");
            r.append(s.as_str());
            r.append(")");
            proof {
                assert(r@ =~= echo_text(t@, ind as int));
            }
            r
        },
        LispExpr::String(s) => {
            let mut r = indent_exec(ind);
            r.append("String(\"");
            r.append(s.as_str());
            r.append("\")");
            proof {
                assert(r@ =~= echo_text(t@, ind as int));
            }
            r
        },
        LispExpr::Bool(b) => {
            let mut r = indent_exec(ind);
            if *b {
                r.append("Bool(true)");
            } else {
                r.append("Bool(false)");
            }
            proof {
                assert(r@ =~= echo_text(t@, ind as int));
            }
            r
        },
        LispExpr::Nil => {
            let mut r = indent_exec(ind);
            r.append("Nil");
            proof {
                assert(r@ =~= echo_text(t@, ind as int));
            }
            r
        },
        LispExpr::Gensym(s) => {
            let mut r = indent_exec(ind);
            r.append("Gensym(");
            r.append(s.as_str());
            r.append(")");
            proof {
                assert(r@ =~= echo_text(t@, ind as int));
            }
            r
        },
        LispExpr::List(es) => {
            let mut r = indent_exec(ind);
            r.append("List[\n");
            proof {
                assert(terms_view(es@).skip(0) =~= terms_view(es@));
            }
            let nxt = if ind < usize::MAX {
                ind + 1
            } else {
                ind
            };
            let items = echo_render_items(es, 0, nxt);
            r.append(items.as_str());
            let tail = indent_exec(ind);
            r.append(tail.as_str());
            r.append("]");
            proof {
                assert(r@ =~= echo_text(t@, ind as int));
            }
            r
        },
        LispExpr::Macro { name, parameters, .. } => {
            let mut r = indent_exec(ind);
            r.append("Macro(name: ");
            r.append(name.as_str());
            r.append(", parameters: [");
            proof {
                assert(names_view(parameters@).skip(0) =~= names_view(parameters@));
            }
            let ps = quoted_names_exec(parameters, 0);
            r.append(ps.as_str());
            r.append("], body: ...)");
            proof {
                assert(r@ =~= echo_text(t@, ind as int));
            }
            r
        },
        LispExpr::MacroCall { name, args } => {
            let mut r = indent_exec(ind);
            r.append("MacroCall(name: ");
            r.append(name.as_str());
            r.append(", args: ");
            let n = usize_to_string(args.len());
            r.append(n.as_str());
            r.append(" items)");
            proof {
                assert(terms_view(args@).len() == args@.len());
                assert(r@ =~= echo_text(t@, ind as int));
            }
            r
        },
        LispExpr::Quote(e) => {
            let mut r = indent_exec(ind);
            r.append("Quote[\n");
            let nxt = if ind < usize::MAX {
                ind + 1
            } else {
                ind
            };
            let inner = echo_render(e, nxt);
            r.append(inner.as_str());
            r.append("\n");
            let tail = indent_exec(ind);
            r.append(tail.as_str());
            r.append("]");
            proof {
                assert(r@ =~= echo_text(t@, ind as int));
            }
            r
        },
        LispExpr::Quasiquote(e) => {
            let mut r = indent_exec(ind);
            r.append("Quasiquote[\n");
            let nxt = if ind < usize::MAX {
                ind + 1
            } else {
                ind
            };
            let inner = echo_render(e, nxt);
            r.append(inner.as_str());
            r.append("\n");
            let tail = indent_exec(ind);
            r.append(tail.as_str());
            r.append("]");
            proof {
                assert(r@ =~= echo_text(t@, ind as int));
            }
            r
        },
        LispExpr::Unquote(e) => {
            let mut r = indent_exec(ind);
            r.append("Unquote[\n");
            let nxt = if ind < usize::MAX {
                ind + 1
            } else {
                ind
            };
            let inner = echo_render(e, nxt);
            r.append(inner.as_str());
            r.append("\n");
            let tail = indent_exec(ind);
            r.append(tail.as_str());
            r.append("]");
            proof {
                assert(r@ =~= echo_text(t@, ind as int));
            }
            r
        },
        LispExpr::Splice(e) => {
            let mut r = indent_exec(ind);
            r.append("Splice[\n");
            let nxt = if ind < usize::MAX {
                ind + 1
            } else {
                ind
            };
            let inner = echo_render(e, nxt);
            r.append(inner.as_str());
            r.append("\n");
            let tail = indent_exec(ind);
            r.append(tail.as_str());
            r.append("]");
            proof {
                assert(r@ =~= echo_text(t@, ind as int));
            }
            r
        },
    }
}

fn echo_render_items(es: &Vec<LispExpr>, start: usize, ind: usize) -> (r: String)
    requires
        start <= es.len(),
    ensures
        r@ == echo_items(terms_view(es@).skip(start as int), ind as int),
    decreases seq_size(terms_view(es@).skip(start as int)), 1int,
{
    let ghost tv = terms_view(es@).skip(start as int);
    if start == es.len() {
        let r = String::new();
        proof {
            assert(tv.len() == 0);
        }
        r
    } else {
        proof {
            lemma_seq_size_first(tv);
            assert(tv[0] == es@[start as int]@);
            assert(tv.drop_first() =~= terms_view(es@).skip(start as int + 1));
        }
        let mut r = echo_render(&es[start], ind);
        r.append("\n");
        let rest = echo_render_items(es, start + 1, ind);
        r.append(rest.as_str());
        proof {
            assert(r@ =~= echo_items(tv, ind as int));
        }
        r
    }
}

/// The built-in reference transform: it captures an indented rendering of
/// the tree and leaves the tree untouched.
pub struct EchoTransform {
    output: String,
}

impl EchoTransform {
    /// What the transform has captured so far.
    pub closed spec fn spec_output(&self) -> Seq<char> {
        self.output@
    }

    /// A fresh echo transform with empty output.
    pub fn new() -> (r: EchoTransform)
        ensures
            r.spec_output() == Seq::<char>::empty(),
    {
        EchoTransform { output: String::new() }
    }

    /// The captured output.
    pub fn get_output(&self) -> (r: String)
        ensures
            r@ == self.spec_output(),
    {
        self.output.clone()
    }
}

impl ASTTransform for EchoTransform {
    open spec fn spec_name(&self) -> Seq<char> {
        "echo"@
    }

    fn name(&self) -> (r: &str) {
        "echo"
    }

    /// The echo transform always succeeds, leaves the tree exactly as it
    /// was, and appends the tree's rendering and a line break to its
    /// captured output.
    fn transform(&mut self, ast: &mut LispExpr) -> (r: Result<(), TransformError>)
        ensures
            r is Ok,
            final(ast)@ == old(ast)@,
            final(self).spec_output() == old(self).spec_output() + echo_text(old(ast)@, 0)
                + "\n"@,
    {
        let rendered = echo_render(ast, 0);
        self.output.append(rendered.as_str());
        self.output.append("\n");
        Ok(())
    }
}

} // verus!
