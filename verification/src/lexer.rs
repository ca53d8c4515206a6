use vstd::prelude::*;
use crate::ast::{digits_end, is_digit_char};
use crate::sandbox::is_space_char;
use crate::text::{chars_to_string, dec_digits, str_to_chars, usize_to_string};

verus! {

/// Mathematical model of a token.
pub enum TokenV {
    LeftParen,
    RightParen,
    Number(Seq<char>),
    Symbol(Seq<char>),
    String(Seq<char>),
    Bool(bool),
    Nil,
    Quote,
    Quasiquote,
    Unquote,
    Splice,
}

/// One token of the surface syntax. Numbers carry their canonical text.
#[derive(Debug, PartialEq)]
pub enum Token {
    LeftParen,
    RightParen,
    Number(String),
    Symbol(String),
    String(String),
    Bool(bool),
    Nil,
    /// The `'` reader marker.
    Quote,
    /// The backtick reader marker.
    Quasiquote,
    /// The `,` reader marker.
    Unquote,
    /// The `,@` reader marker.
    Splice,
}

impl View for Token {
    type V = TokenV;

    open spec fn view(&self) -> TokenV {
        match self {
            Token::LeftParen => TokenV::LeftParen,
            Token::RightParen => TokenV::RightParen,
            Token::Number(s) => TokenV::Number(s@),
            Token::Symbol(s) => TokenV::Symbol(s@),
            Token::String(s) => TokenV::String(s@),
            Token::Bool(b) => TokenV::Bool(*b),
            Token::Nil => TokenV::Nil,
            Token::Quote => TokenV::Quote,
            Token::Quasiquote => TokenV::Quasiquote,
            Token::Unquote => TokenV::Unquote,
            Token::Splice => TokenV::Splice,
        }
    }
}

impl Clone for Token {
    /// A copy that models the same token.
    fn clone(&self) -> (r: Self)
        ensures
            r@ == self@,
    {
        match self {
            Token::LeftParen => Token::LeftParen,
            Token::RightParen => Token::RightParen,
            Token::Number(s) => Token::Number(s.clone()),
            Token::Symbol(s) => Token::Symbol(s.clone()),
            Token::String(s) => Token::String(s.clone()),
            Token::Bool(b) => Token::Bool(*b),
            Token::Nil => Token::Nil,
            Token::Quote => Token::Quote,
            Token::Quasiquote => Token::Quasiquote,
            Token::Unquote => Token::Unquote,
            Token::Splice => Token::Splice,
        }
    }
}

/// The views of a list of tokens, element by element.
pub open spec fn tokens_view(s: Seq<Token>) -> Seq<TokenV> {
    Seq::new(s.len(), |i: int| s[i]@)
}

// ---------------------------------------------------------------------------
// Scanning
// ---------------------------------------------------------------------------

/// Position of the end-of-line that closes a comment starting at `i`.
pub open spec fn comment_end(s: Seq<char>, i: int) -> int
    decreases s.len() - i,
{
    if 0 <= i < s.len() && s[i] != '\n' {
        comment_end(s, i + 1)
    } else {
        i
    }
}

/// What one escape character stands for; an unknown escape keeps the
/// backslash and the character.
pub open spec fn escape_text(c: char) -> Seq<char> {
    if c == 'n' {
        seq!['\n']
    } else if c == 't' {
        seq!['\t']
    } else if c == 'r' {
        seq!['\r']
    } else if c == '\\' {
        seq!['\\']
    } else if c == '"' {
        seq!['"']
    } else {
        seq!['\\', c]
    }
}

/// The content of a string literal from `i` on, and the position after its
/// closing quote. A string the input ends inside is taken whole.
pub open spec fn scan_string(s: Seq<char>, i: int) -> (Seq<char>, int)
    decreases s.len() - i,
{
    if i < 0 || i >= s.len() {
        (Seq::empty(), if i < 0 { 0 } else { i })
    } else if s[i] == '\\' {
        if i + 1 >= s.len() {
            (Seq::empty(), s.len() as int)
        } else {
            let r = scan_string(s, i + 2);
            (escape_text(s[i + 1]) + r.0, r.1)
        }
    } else if s[i] == '"' {
        (Seq::empty(), i + 1)
    } else {
        let r = scan_string(s, i + 1);
        (seq![s[i]] + r.0, r.1)
    }
}

pub open spec fn is_symbol_terminator(c: char) -> bool {
    is_space_char(c) || c == '(' || c == ')' || c == '"' || c == '\'' || c == '`' || c == ','
}

/// Position of the first symbol terminator at or after `i`.
pub open spec fn symbol_end(s: Seq<char>, i: int) -> int
    decreases s.len() - i,
{
    if 0 <= i < s.len() && !is_symbol_terminator(s[i]) {
        symbol_end(s, i + 1)
    } else {
        i
    }
}

/// Digits with their superfluous leading zeros removed; one zero stays.
pub open spec fn strip_zeros(d: Seq<char>) -> Seq<char>
    decreases d.len(),
{
    if d.len() > 1 && d[0] == '0' {
        strip_zeros(d.drop_first())
    } else {
        d
    }
}

/// The canonical text of a scanned numeric literal: the sign kept only when
/// negative, leading zeros dropped, an empty integer part written as zero,
/// and an empty fractional part dropped together with its dot. A literal
/// with no digits at all denotes nothing.
pub open spec fn normalize_number(neg: bool, ip: Seq<char>, has_frac: bool, fp: Seq<char>)
    -> Option<Seq<char>> {
    if ip.len() == 0 && fp.len() == 0 {
        None
    } else {
        let ip2 = if ip.len() == 0 {
            seq!['0']
        } else {
            strip_zeros(ip)
        };
        let base = if neg {
            seq!['-'] + ip2
        } else {
            ip2
        };
        if has_frac && fp.len() > 0 {
            Some(base + seq!['.'] + fp)
        } else {
            Some(base)
        }
    }
}

/// Where a numeric literal starting at `i0` ends: its digits, at most one
/// dot, and more digits.
pub open spec fn number_end(s: Seq<char>, i0: int) -> int {
    let start = if 0 <= i0 < s.len() && (s[i0] == '+' || s[i0] == '-') {
        i0 + 1
    } else {
        i0
    };
    let d = digits_end(s, start);
    if d < s.len() && s[d] == '.' {
        digits_end(s, d + 1)
    } else {
        d
    }
}

/// The canonical number text of the literal at `i0`, if it denotes one.
pub open spec fn number_token(s: Seq<char>, i0: int) -> Option<Seq<char>> {
    let neg = 0 <= i0 < s.len() && s[i0] == '-';
    let start = if 0 <= i0 < s.len() && (s[i0] == '+' || s[i0] == '-') {
        i0 + 1
    } else {
        i0
    };
    let d = digits_end(s, start);
    let ip = s.subrange(start, d);
    if d < s.len() && s[d] == '.' {
        let e = digits_end(s, d + 1);
        normalize_number(neg, ip, true, s.subrange(d + 1, e))
    } else {
        normalize_number(neg, ip, false, Seq::empty())
    }
}

/// Mathematical model of a lexing error: where it happened and the text
/// that would not scan.
pub struct LexErrV {
    pub pos: int,
    pub text: Seq<char>,
}

/// The rendering of a lexing error.
pub open spec fn lex_err_text(e: LexErrV) -> Seq<char> {
    "Invalid number at position "@ + dec_digits(e.pos) + ": "@ + e.text
}

// ---------------------------------------------------------------------------
// The lexer
// ---------------------------------------------------------------------------

/// The tokens of the input from position `i` on. Comments run to the end of
/// the line; `,@` scans as one Splice marker; a lone sign is a Symbol; the
/// words `true`, `false` and `nil` are keywords.
pub open spec fn lex_spec(s: Seq<char>, i: int) -> Result<Seq<TokenV>, LexErrV>
    decreases s.len() - i,
    via lex_spec_dec
{
    if i < 0 || i >= s.len() {
        Ok(Seq::empty())
    } else {
        let c = s[i];
        if c == '(' {
            lex_cons(TokenV::LeftParen, lex_spec(s, i + 1))
        } else if c == ')' {
            lex_cons(TokenV::RightParen, lex_spec(s, i + 1))
        } else if c == '"' {
            let r = scan_string(s, i + 1);
            lex_cons(TokenV::String(r.0), lex_spec(s, r.1))
        } else if c == ';' {
            lex_spec(s, comment_end(s, i))
        } else if c == '\'' {
            lex_cons(TokenV::Quote, lex_spec(s, i + 1))
        } else if c == '`' {
            lex_cons(TokenV::Quasiquote, lex_spec(s, i + 1))
        } else if c == ',' {
            if i + 1 < s.len() && s[i + 1] == '@' {
                lex_cons(TokenV::Splice, lex_spec(s, i + 2))
            } else {
                lex_cons(TokenV::Unquote, lex_spec(s, i + 1))
            }
        } else if is_space_char(c) {
            lex_spec(s, i + 1)
        } else if is_digit_char(c) || c == '+' || c == '-' {
            let e = number_end(s, i);
            if e == i + 1 && (c == '+' || c == '-') {
                lex_cons(TokenV::Symbol(seq![c]), lex_spec(s, i + 1))
            } else {
                match number_token(s, i) {
                    Some(text) => lex_cons(TokenV::Number(text), lex_spec(s, e)),
                    None => Err(LexErrV { pos: i, text: s.subrange(i, e) }),
                }
            }
        } else {
            let j = symbol_end(s, i + 1);
            let name = s.subrange(i, j);
            let tok = if name == "true"@ {
                TokenV::Bool(true)
            } else if name == "false"@ {
                TokenV::Bool(false)
            } else if name == "nil"@ {
                TokenV::Nil
            } else {
                TokenV::Symbol(name)
            };
            lex_cons(tok, lex_spec(s, j))
        }
    }
}

/// One token in front of the rest of a lexing outcome.
pub open spec fn lex_cons(t: TokenV, rest: Result<Seq<TokenV>, LexErrV>) -> Result<
    Seq<TokenV>,
    LexErrV,
> {
    match rest {
        Ok(ts) => Ok(seq![t] + ts),
        Err(e) => Err(e),
    }
}

proof fn lemma_digits_end_bounds(s: Seq<char>, i: int)
    requires
        0 <= i <= s.len(),
    ensures
        i <= digits_end(s, i) <= s.len(),
    decreases s.len() - i,
{
    if i < s.len() && is_digit_char(s[i]) {
        lemma_digits_end_bounds(s, i + 1);
    }
}

proof fn lemma_comment_end_bounds(s: Seq<char>, i: int)
    requires
        0 <= i <= s.len(),
    ensures
        i <= comment_end(s, i) <= s.len(),
    decreases s.len() - i,
{
    if i < s.len() && s[i] != '\n' {
        lemma_comment_end_bounds(s, i + 1);
    }
}

proof fn lemma_symbol_end_bounds(s: Seq<char>, i: int)
    requires
        0 <= i <= s.len(),
    ensures
        i <= symbol_end(s, i) <= s.len(),
    decreases s.len() - i,
{
    if i < s.len() && !is_symbol_terminator(s[i]) {
        lemma_symbol_end_bounds(s, i + 1);
    }
}

proof fn lemma_scan_string_bounds(s: Seq<char>, i: int)
    requires
        0 <= i <= s.len(),
    ensures
        i <= scan_string(s, i).1 <= s.len(),
    decreases s.len() - i,
{
    if i < s.len() {
        if s[i] == '\\' {
            if i + 1 < s.len() {
                lemma_scan_string_bounds(s, i + 2);
            }
        } else if s[i] == '"' {
        } else {
            lemma_scan_string_bounds(s, i + 1);
        }
    }
}

proof fn lemma_number_end_bounds(s: Seq<char>, i: int)
    requires
        0 <= i < s.len(),
    ensures
        i <= number_end(s, i) <= s.len(),
{
    let start = if s[i] == '+' || s[i] == '-' {
        i + 1
    } else {
        i
    };
    lemma_digits_end_bounds(s, start);
    let d = digits_end(s, start);
    if d < s.len() && s[d] == '.' {
        lemma_digits_end_bounds(s, d + 1);
    }
}

#[via_fn]
proof fn lex_spec_dec(s: Seq<char>, i: int) {
    if 0 <= i < s.len() {
        let c = s[i];
        if c == '"' {
            lemma_scan_string_bounds(s, i + 1);
        } else if c == ';' {
            lemma_comment_end_bounds(s, i + 1);
            assert(comment_end(s, i) == comment_end(s, i + 1));
        } else if is_digit_char(c) || c == '+' || c == '-' {
            lemma_number_end_bounds(s, i);
            let start = if c == '+' || c == '-' {
                i + 1
            } else {
                i
            };
            assert(digits_end(s, start) >= start) by {
                lemma_digits_end_bounds(s, start);
            }
            let d0 = digits_end(s, start);
            if d0 < s.len() && s[d0] == '.' {
                lemma_digits_end_bounds(s, d0 + 1);
            }
            if !(c == '+' || c == '-') {
                assert(digits_end(s, i) == digits_end(s, i + 1));
                lemma_digits_end_bounds(s, i + 1);
                assert(digits_end(s, i) >= i + 1);
                let d = digits_end(s, i);
                if d < s.len() && s[d] == '.' {
                    lemma_digits_end_bounds(s, d + 1);
                }
            }
        } else if !(c == '(' || c == ')' || c == '\'' || c == '`' || c == ',' || is_space_char(c)) {
            lemma_symbol_end_bounds(s, i + 1);
        }
    }
}


// ---------------------------------------------------------------------------
// The lexer, executable
// ---------------------------------------------------------------------------

fn comment_end_exec(v: &Vec<char>, i: usize) -> (r: usize)
    requires
        i <= v.len(),
    ensures
        r as int == comment_end(v@, i as int),
        i <= r <= v.len(),
    decreases v.len() - i,
{
    if i < v.len() && v[i] != '\n' {
        comment_end_exec(v, i + 1)
    } else {
        i
    }
}

fn symbol_end_exec(v: &Vec<char>, i: usize) -> (r: usize)
    requires
        i <= v.len(),
    ensures
        r as int == symbol_end(v@, i as int),
        i <= r <= v.len(),
    decreases v.len() - i,
{
    if i < v.len() {
        let c = v[i];
        let term = c == ' ' || c == '\t' || c == '\n' || c == '\r' || c == '(' || c == ')'
            || c == '"' || c == '\'' || c == '`' || c == ',';
        proof {
            assert(term == is_symbol_terminator(c));
        }
        if !term {
            symbol_end_exec(v, i + 1)
        } else {
            i
        }
    } else {
        i
    }
}

fn digits_end_exec(v: &Vec<char>, i: usize) -> (r: usize)
    requires
        i <= v.len(),
    ensures
        r as int == digits_end(v@, i as int),
        i <= r <= v.len(),
    decreases v.len() - i,
{
    if i < v.len() && '0' <= v[i] && v[i] <= '9' {
        digits_end_exec(v, i + 1)
    } else {
        i
    }
}

fn scan_string_exec(v: &Vec<char>, i: usize) -> (r: (Vec<char>, usize))
    requires
        i <= v.len(),
    ensures
        r.0@ == scan_string(v@, i as int).0,
        r.1 as int == scan_string(v@, i as int).1,
        i <= r.1 <= v.len(),
    decreases v.len() - i,
{
    proof {
        lemma_scan_string_bounds(v@, i as int);
    }
    if i >= v.len() {
        (Vec::new(), i)
    } else if v[i] == '\\' {
        if i + 1 >= v.len() {
            (Vec::new(), v.len())
        } else {
            let e = v[i + 1];
            let (mut rest, j) = scan_string_exec(v, i + 2);
            if e == 'n' {
                rest.insert(0, '\n');
            } else if e == 't' {
                rest.insert(0, '\t');
            } else if e == 'r' {
                rest.insert(0, '\r');
            } else if e == '\\' {
                rest.insert(0, '\\');
            } else if e == '"' {
                rest.insert(0, '"');
            } else {
                rest.insert(0, e);
                rest.insert(0, '\\');
            }
            proof {
                assert(rest@ =~= escape_text(e) + scan_string(v@, i as int + 2).0);
            }
            (rest, j)
        }
    } else if v[i] == '"' {
        (Vec::new(), i + 1)
    } else {
        let c = v[i];
        let (mut rest, j) = scan_string_exec(v, i + 1);
        rest.insert(0, c);
        proof {
            assert(rest@ =~= seq![c] + scan_string(v@, i as int + 1).0);
        }
        (rest, j)
    }
}

/// Copy `v[a..b]`.
fn copy_range(v: &Vec<char>, a: usize, b: usize) -> (r: Vec<char>)
    requires
        a <= b <= v.len(),
    ensures
        r@ == v@.subrange(a as int, b as int),
{
    let mut out: Vec<char> = Vec::new();
    let mut i: usize = a;
    while i < b
        invariant
            a <= i <= b <= v.len(),
            out@.len() == i - a,
            forall|k: int| 0 <= k < i - a ==> out@[k] == v@[a + k],
        decreases b - i,
    {
        out.push(v[i]);
        i += 1;
    }
    proof {
        assert(out@ =~= v@.subrange(a as int, b as int));
    }
    out
}

fn strip_zeros_exec(d: &Vec<char>) -> (r: Vec<char>)
    ensures
        r@ == strip_zeros(d@),
{
    let mut k: usize = 0;
    proof {
        assert(d@.skip(0) =~= d@);
    }
    while k + 1 < d.len() && d[k] == '0'
        invariant
            k < d.len() || d.len() == 0,
            k <= d.len(),
            strip_zeros(d@) == strip_zeros(d@.skip(k as int)),
        decreases d.len() - k,
    {
        proof {
            assert(d@.skip(k as int).drop_first() =~= d@.skip(k as int + 1));
        }
        k += 1;
    }
    let r = copy_range(d, k, d.len());
    proof {
        assert(r@ =~= d@.skip(k as int));
        assert(strip_zeros(d@.skip(k as int)) == d@.skip(k as int));
    }
    r
}

/// Build the canonical number text.
fn normalize_number_exec(neg: bool, ip: &Vec<char>, has_frac: bool, fp: &Vec<char>) -> (r: Option<
    Vec<char>,
>)
    ensures
        match r {
            Some(t) => normalize_number(neg, ip@, has_frac, fp@) == Some(t@),
            None => normalize_number(neg, ip@, has_frac, fp@) is None,
        },
{
    if ip.len() == 0 && fp.len() == 0 {
        return None;
    }
    let mut out: Vec<char> = Vec::new();
    if neg {
        out.push('-');
    }
    let ghost base_pre = out@;
    if ip.len() == 0 {
        out.push('0');
    } else {
        let ip2 = strip_zeros_exec(ip);
        let mut q: usize = 0;
        while q < ip2.len()
            invariant
                q <= ip2.len(),
                out@ == base_pre + ip2@.take(q as int),
            decreases ip2.len() - q,
        {
            out.push(ip2[q]);
            proof {
                assert(out@ =~= base_pre + ip2@.take(q as int + 1));
            }
            q += 1;
        }
        proof {
            assert(ip2@.take(ip2@.len() as int) =~= ip2@);
        }
    }
    if has_frac && fp.len() > 0 {
        out.push('.');
        let ghost frac_pre = out@;
        let mut q: usize = 0;
        while q < fp.len()
            invariant
                q <= fp.len(),
                out@ == frac_pre + fp@.take(q as int),
            decreases fp.len() - q,
        {
            out.push(fp[q]);
            proof {
                assert(out@ =~= frac_pre + fp@.take(q as int + 1));
            }
            q += 1;
        }
        proof {
            assert(fp@.take(fp@.len() as int) =~= fp@);
        }
    }
    proof {
        assert(out@ =~= normalize_number(neg, ip@, has_frac, fp@)->0);
    }
    Some(out)
}

fn lex_from(v: &Vec<char>, i: usize) -> (r: Result<Vec<Token>, (usize, Vec<char>)>)
    requires
        i <= v.len(),
    ensures
        match r {
            Ok(ts) => lex_spec(v@, i as int) matches Ok(tv) && tokens_view(ts@) == tv,
            Err((p, t)) => lex_spec(v@, i as int) matches Err(e) && p as int == e.pos && t@
                == e.text,
        },
    decreases v.len() - i,
{
    if i >= v.len() {
        let r: Vec<Token> = Vec::new();
        proof {
            assert(tokens_view(r@) =~= Seq::<TokenV>::empty());
        }
        return Ok(r);
    }
    let c = v[i];
    if c == '(' {
        lex_push(Token::LeftParen, lex_from(v, i + 1))
    } else if c == ')' {
        lex_push(Token::RightParen, lex_from(v, i + 1))
    } else if c == '"' {
        let (content, j) = scan_string_exec(v, i + 1);
        proof {
            lemma_scan_string_bounds(v@, i as int + 1);
        }
        lex_push(Token::String(chars_to_string(&content)), lex_from(v, j))
    } else if c == ';' {
        let j = comment_end_exec(v, i);
        proof {
            assert(comment_end(v@, i as int) == comment_end(v@, i as int + 1));
            lemma_comment_end_bounds(v@, i as int + 1);
        }
        lex_from(v, j)
    } else if c == '\'' {
        lex_push(Token::Quote, lex_from(v, i + 1))
    } else if c == '`' {
        lex_push(Token::Quasiquote, lex_from(v, i + 1))
    } else if c == ',' {
        if i + 1 < v.len() && v[i + 1] == '@' {
            lex_push(Token::Splice, lex_from(v, i + 2))
        } else {
            lex_push(Token::Unquote, lex_from(v, i + 1))
        }
    } else if c == ' ' || c == '\t' || c == '\n' || c == '\r' {
        lex_from(v, i + 1)
    } else if ('0' <= c && c <= '9') || c == '+' || c == '-' {
        let signed = c == '+' || c == '-';
        let start = if signed {
            i + 1
        } else {
            i
        };
        let d = digits_end_exec(v, start);
        let e = if d < v.len() && v[d] == '.' {
            digits_end_exec(v, d + 1)
        } else {
            d
        };
        proof {
            assert(e as int == number_end(v@, i as int));
            if !signed {
                assert(digits_end(v@, i as int) == digits_end(v@, i as int + 1));
                lemma_digits_end_bounds(v@, i as int + 1);
            }
        }
        if e == i + 1 && signed {
            let mut name: Vec<char> = Vec::new();
            name.push(c);
            proof {
                assert(name@ =~= seq![c]);
            }
            lex_push(Token::Symbol(chars_to_string(&name)), lex_from(v, i + 1))
        } else {
            let ip = copy_range(v, start, d);
            let has_frac = d < v.len() && {
                let dc = v[d];
                dc == '.'
            };
            let fp = if has_frac {
                copy_range(v, d + 1, e)
            } else {
                Vec::new()
            };
            proof {
                if !has_frac {
                    assert(fp@ =~= Seq::<char>::empty());
                }
            }
            match normalize_number_exec(c == '-', &ip, has_frac, &fp) {
                Some(text) => {
                    proof {
                        assert(number_token(v@, i as int) == Some(text@));
                    }
                    lex_push(Token::Number(chars_to_string(&text)), lex_from(v, e))
                },
                None => {
                    proof {
                        assert(number_token(v@, i as int) is None);
                    }
                    Err((i, copy_range(v, i, e)))
                },
            }
        }
    } else {
        let j = symbol_end_exec(v, i + 1);
        let name = copy_range(v, i, j);
        let name_s = chars_to_string(&name);
        let tok = if name_s == "true".to_owned() {
            Token::Bool(true)
        } else if name_s == "false".to_owned() {
            Token::Bool(false)
        } else if name_s == "nil".to_owned() {
            Token::Nil
        } else {
            Token::Symbol(name_s)
        };
        lex_push(tok, lex_from(v, j))
    }
}

/// One token in front of the rest of a lexing outcome.
fn lex_push(t: Token, rest: Result<Vec<Token>, (usize, Vec<char>)>) -> (r: Result<
    Vec<Token>,
    (usize, Vec<char>),
>)
    ensures
        match r {
            Ok(ts) => rest matches Ok(rs) && tokens_view(ts@) == seq![t@] + tokens_view(rs@),
            Err(e) => rest matches Err(e2) && e == e2,
        },
{
    match rest {
        Ok(mut rs) => {
            rs.insert(0, t);
            proof {
                assert(tokens_view(rs@) =~= seq![rs@[0]@] + tokens_view(rs@.drop_first()));
            }
            Ok(rs)
        },
        Err(e) => Err(e),
    }
}

/// Turn source text into tokens, or report the first invalid numeric
/// literal with its position.
pub fn tokenize(input: &str) -> (r: Result<Vec<Token>, String>)
    ensures
        match r {
            Ok(ts) => lex_spec(input@, 0) matches Ok(tv) && tokens_view(ts@) == tv,
            Err(m) => lex_spec(input@, 0) matches Err(e) && m@ == lex_err_text(e),
        },
{
    let v = str_to_chars(input);
    match lex_from(&v, 0) {
        Ok(ts) => Ok(ts),
        Err((p, t)) => {
            let mut msg = "Invalid number at position ".to_owned();
            let ps = usize_to_string(p);
            msg.append(ps.as_str());
            msg.append(": ");
            let ts = chars_to_string(&t);
            msg.append(ts.as_str());
            proof {
                assert(msg@ =~= lex_err_text(lex_spec(input@, 0)->Err_0));
            }
            Err(msg)
        },
    }
}

} // verus!
