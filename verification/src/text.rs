use vstd::prelude::*;

verus! {

/// Relies on `core::iter::Iterator::collect`: collecting characters yields the
/// string made of exactly those characters, in order.
#[verifier::external_body]
pub fn chars_to_string(v: &Vec<char>) -> (r: String)
    ensures
        r@ == v@,
{
    v.iter().collect()
}

/// Relies on `str::chars`: the characters of a string slice, in order.
#[verifier::external_body]
pub fn str_to_chars(s: &str) -> (r: Vec<char>)
    ensures
        r@ == s@,
{
    s.chars().collect()
}

pub open spec fn digit_char_of(d: int) -> char {
    if d == 0 { '0' }
    else if d == 1 { '1' }
    else if d == 2 { '2' }
    else if d == 3 { '3' }
    else if d == 4 { '4' }
    else if d == 5 { '5' }
    else if d == 6 { '6' }
    else if d == 7 { '7' }
    else if d == 8 { '8' }
    else { '9' }
}

/// The decimal rendering of a nonnegative integer.
pub open spec fn dec_digits(n: int) -> Seq<char>
    decreases n,
{
    if n < 10 {
        seq![digit_char_of(n)]
    } else {
        dec_digits(n / 10) + seq![digit_char_of(n % 10)]
    }
}

fn digit_to_char(d: usize) -> (c: char)
    requires
        d < 10,
    ensures
        c == digit_char_of(d as int),
{
    match d {
        0 => '0',
        1 => '1',
        2 => '2',
        3 => '3',
        4 => '4',
        5 => '5',
        6 => '6',
        7 => '7',
        8 => '8',
        _ => '9',
    }
}

/// The decimal digits of `n`, as characters.
pub fn usize_to_chars(n: usize) -> (r: Vec<char>)
    ensures
        r@ == dec_digits(n as int),
    decreases n,
{
    if n < 10 {
        let mut v: Vec<char> = Vec::new();
        v.push(digit_to_char(n));
        proof {
            assert(v@ =~= dec_digits(n as int));
        }
        v
    } else {
        let mut v = usize_to_chars(n / 10);
        v.push(digit_to_char(n % 10));
        proof {
            assert(v@ =~= dec_digits(n as int));
        }
        v
    }
}

/// The decimal rendering of `n`.
pub fn usize_to_string(n: usize) -> (r: String)
    ensures
        r@ == dec_digits(n as int),
{
    let v = usize_to_chars(n);
    chars_to_string(&v)
}


/// Whether `p` is a prefix of `s`.
pub open spec fn has_prefix(s: Seq<char>, p: Seq<char>) -> bool {
    p.len() <= s.len() && s.take(p.len() as int) == p
}

/// Whether the string starts with the given prefix.
pub fn str_has_prefix(s: &String, p: &str) -> (r: bool)
    ensures
        r == has_prefix(s@, p@),
{
    let sc = str_to_chars(s.as_str());
    let pc = str_to_chars(p);
    if pc.len() > sc.len() {
        return false;
    }
    let mut i: usize = 0;
    while i < pc.len()
        invariant
            i <= pc.len(),
            pc.len() <= sc.len(),
            sc@ == s@,
            pc@ == p@,
            forall|k: int| 0 <= k < i ==> sc@[k] == pc@[k],
        decreases pc.len() - i,
    {
        if sc[i] != pc[i] {
            proof {
                assert(s@.take(p@.len() as int)[i as int] != p@[i as int]);
            }
            return false;
        }
        i += 1;
    }
    proof {
        assert(s@.take(p@.len() as int) =~= p@);
    }
    true
}


fn digit_to_char64(d: u64) -> (c: char)
    requires
        d < 10,
    ensures
        c == digit_char_of(d as int),
{
    match d {
        0 => '0',
        1 => '1',
        2 => '2',
        3 => '3',
        4 => '4',
        5 => '5',
        6 => '6',
        7 => '7',
        8 => '8',
        _ => '9',
    }
}

/// The decimal digits of `n`, as characters.
pub fn u64_to_chars(n: u64) -> (r: Vec<char>)
    ensures
        r@ == dec_digits(n as int),
    decreases n,
{
    if n < 10 {
        let mut v: Vec<char> = Vec::new();
        v.push(digit_to_char64(n));
        proof {
            assert(v@ =~= dec_digits(n as int));
        }
        v
    } else {
        let mut v = u64_to_chars(n / 10);
        v.push(digit_to_char64(n % 10));
        proof {
            assert(v@ =~= dec_digits(n as int));
        }
        v
    }
}

/// The decimal rendering of `n`.
pub fn u64_to_string(n: u64) -> (r: String)
    ensures
        r@ == dec_digits(n as int),
{
    let v = u64_to_chars(n);
    chars_to_string(&v)
}


/// The marker lengths used when a capability carries a path.
pub proof fn reveal_strlit_len_file_read()
    ensures
        "FileRead:"@.len() == 9,
{
    reveal_strlit("FileRead:");
}

pub proof fn reveal_strlit_len_file_write()
    ensures
        "FileWrite:"@.len() == 10,
{
    reveal_strlit("FileWrite:");
}



/// The tag and marker texts of the IR format, with their contents.
pub proof fn reveal_strlit_nil_tag()
    ensures
        "\"Nil\""@.len() == 5,
{
    reveal_strlit("\"Nil\"");
}

pub proof fn reveal_strlit_bool_tags()
    ensures
        ":true}"@.len() == 6,
        ":false}"@.len() == 7,
{
    reveal_strlit(":true}");
    reveal_strlit(":false}");
}

pub proof fn reveal_strlit_macro_markers()
    ensures
        ":{\"name\":"@.len() == 9,
        ",\"parameters\":["@.len() == 15,
        ",\"body\":"@.len() == 8,
        ",\"args\":["@.len() == 9,
        "}}"@.len() == 2,
{
    reveal_strlit(":{\"name\":");
    reveal_strlit(",\"parameters\":[");
    reveal_strlit(",\"body\":");
    reveal_strlit(",\"args\":[");
    reveal_strlit("}}");
}


} // verus!
