//! Character-level helpers: equality, ASCII case-insensitive containment and
//! decimal rendering of integers.

use vstd::prelude::*;
use vstd::string::*;

verus! {

/// Relies on `String::push`: the character is appended at the end.
#[verifier::external_body]
pub(crate) fn push_char(s: &mut String, c: char)
    ensures
        final(s)@ == old(s)@.push(c),
{
    s.push(c)
}

/// An owned copy of a string slice.
pub fn owned(s: &str) -> (r: String)
    ensures
        r@ == s@,
{
    s.to_owned()
}

/// Concatenation of two string slices.
pub fn concat(a: &str, b: &str) -> (r: String)
    ensures
        r@ == a@ + b@,
{
    let mut r = a.to_owned();
    r.append(b);
    r
}

/// The characters of `s`, in order.
pub fn chars_of(s: &str) -> (r: Vec<char>)
    ensures
        r@ == s@,
{
    let n = s.unicode_len();
    let mut v: Vec<char> = Vec::new();
    let mut i: usize = 0;
    while i < n
        invariant
            n == s@.len(),
            i <= n,
            v@ == s@.subrange(0, i as int),
        decreases n - i,
    {
        v.push(s.get_char(i));
        i += 1;
    }
    assert(v@ == s@);
    v
}

/// Whether two string slices hold the same characters.
pub fn str_eq(a: &str, b: &str) -> (r: bool)
    ensures
        r == (a@ == b@),
{
    let x = chars_of(a);
    let y = chars_of(b);
    if x.len() != y.len() {
        return false;
    }
    let mut i: usize = 0;
    while i < x.len()
        invariant
            x@ == a@,
            y@ == b@,
            x.len() == y.len(),
            i <= x.len(),
            forall|k: int| 0 <= k < i ==> x@[k] == y@[k],
        decreases x.len() - i,
    {
        if x[i] != y[i] {
            return false;
        }
        i += 1;
    }
    assert(x@ =~= y@);
    true
}

pub open spec fn is_ascii_upper(c: char) -> bool {
    'A' <= c <= 'Z'
}

/// Two characters that are equal, or the same ASCII letter in two cases.
pub open spec fn same_letter(a: char, b: char) -> bool {
    ||| a == b
    ||| is_ascii_upper(a) && b as u32 == a as u32 + 32
    ||| is_ascii_upper(b) && a as u32 == b as u32 + 32
}

/// `needle` occurs in `hay` at position `i`, ignoring ASCII case.
pub open spec fn matches_at(hay: Seq<char>, needle: Seq<char>, i: int) -> bool {
    &&& 0 <= i
    &&& i + needle.len() <= hay.len()
    &&& forall|k: int| 0 <= k < needle.len() ==> same_letter(#[trigger] hay[i + k], needle[k])
}

/// `needle` is a substring of `hay`, ignoring ASCII case (the rule of SQL `LIKE '%v%'`
/// with the pattern's wildcards taken literally).
pub open spec fn contains_ci(hay: Seq<char>, needle: Seq<char>) -> bool {
    exists|i: int| matches_at(hay, needle, i)
}

fn same_letter_exec(a: char, b: char) -> (r: bool)
    ensures
        r == same_letter(a, b),
{
    let x = a as u32;
    let y = b as u32;
    if x == y {
        true
    } else if 65 <= x && x <= 90 {
        y == x + 32
    } else if 65 <= y && y <= 90 {
        x == y + 32
    } else {
        false
    }
}

/// Whether `needle` occurs in `hay`, ignoring ASCII case.
pub fn contains_ci_exec(hay: &str, needle: &str) -> (r: bool)
    ensures
        r == contains_ci(hay@, needle@),
{
    let h = chars_of(hay);
    let n = chars_of(needle);
    if n.len() > h.len() {
        assert forall|i: int| !matches_at(hay@, needle@, i) by {}
        return false;
    }
    let last = h.len() - n.len();
    let mut i: usize = 0;
    while i <= last
        invariant
            h@ == hay@,
            n@ == needle@,
            last == h.len() - n.len(),
            n.len() <= h.len(),
            forall|j: int| 0 <= j < i ==> !matches_at(hay@, needle@, j),
        decreases last + 1 - i,
    {
        let mut k: usize = 0;
        let mut ok = true;
        while k < n.len()
            invariant
                h@ == hay@,
                n@ == needle@,
                i <= last,
                last == h.len() - n.len(),
                k <= n.len(),
                ok ==> forall|m: int| 0 <= m < k ==> same_letter(h@[i + m], n@[m]),
                !ok ==> !matches_at(hay@, needle@, i as int),
            decreases n.len() - k,
        {
            if !same_letter_exec(h[i + k], n[k]) {
                ok = false;
                assert(!same_letter(hay@[i + k], needle@[k as int]));
            }
            k += 1;
        }
        if ok {
            assert(matches_at(hay@, needle@, i as int)) by {
                assert forall|m: int| 0 <= m < needle@.len() implies same_letter(
                    #[trigger] hay@[i + m],
                    needle@[m],
                ) by {
                    assert(same_letter(h@[i + m], n@[m]));
                }
            }
            return true;
        }
        i += 1;
    }
    false
}

pub open spec fn digit_char(d: int) -> char {
    if d == 0 { '0' }
    else if d == 1 { '1' }
    else if d == 2 { '2' }
    else if d == 3 { '3' }
    else if d == 4 { '4' }
    else if d == 5 { '5' }
    else if d == 6 { '6' }
    else if d == 7 { '7' }
    else if d == 8 { '8' }
    else { '9' }
}

/// The decimal digits of `n`, without leading zeros.
pub open spec fn decimal(n: nat) -> Seq<char>
    decreases n,
{
    if n < 10 {
        seq![digit_char(n as int)]
    } else {
        decimal(n / 10).push(digit_char((n % 10) as int))
    }
}

/// The decimal rendering of a signed integer, with a leading `-` when negative.
pub open spec fn signed_decimal(n: int) -> Seq<char> {
    if n < 0 {
        seq!['-'] + decimal((-n) as nat)
    } else {
        decimal(n as nat)
    }
}

fn digit_exec(d: u64) -> (c: char)
    requires
        d < 10,
    ensures
        c == digit_char(d as int),
{
    if d == 0 { '0' }
    else if d == 1 { '1' }
    else if d == 2 { '2' }
    else if d == 3 { '3' }
    else if d == 4 { '4' }
    else if d == 5 { '5' }
    else if d == 6 { '6' }
    else if d == 7 { '7' }
    else if d == 8 { '8' }
    else { '9' }
}

/// Appends the decimal digits of `n` to `s`.
pub fn push_decimal(s: &mut String, n: u64)
    ensures
        final(s)@ == old(s)@ + decimal(n as nat),
    decreases n,
{
    if n < 10 {
        push_char(s, digit_exec(n));
        assert(old(s)@.push(digit_char(n as int)) =~= old(s)@ + decimal(n as nat));
    } else {
        push_decimal(s, n / 10);
        push_char(s, digit_exec(n % 10));
        assert((old(s)@ + decimal((n / 10) as nat)).push(digit_char((n % 10) as int))
            =~= old(s)@ + decimal(n as nat));
    }
}

/// The decimal rendering of `n`.
pub fn decimal_string(n: i64) -> (r: String)
    ensures
        r@ == signed_decimal(n as int),
{
    let mut s = String::new();
    if n < 0 {
        push_char(&mut s, '-');
        let m: u64 = if n == i64::MIN { 9223372036854775808u64 } else { (-n) as u64 };
        push_decimal(&mut s, m);
    } else {
        push_decimal(&mut s, n as u64);
    }
    assert(s@ =~= signed_decimal(n as int));
    s
}

} // verus!

verus! {

/// The characters of an optional string.
pub open spec fn opt_view(o: Option<String>) -> Option<Seq<char>> {
    match o {
        Some(s) => Some(s@),
        None => None,
    }
}

/// The characters of an optional string slice.
pub open spec fn opt_str_view(o: Option<&str>) -> Option<Seq<char>> {
    match o {
        Some(s) => Some(s@),
        None => None,
    }
}

/// A copy of an optional string.
pub fn clone_opt(o: &Option<String>) -> (r: Option<String>)
    ensures
        r == *o,
{
    match o {
        Some(s) => Some(s.clone()),
        None => None,
    }
}

/// An owned copy of an optional string slice.
pub fn owned_opt(o: Option<&str>) -> (r: Option<String>)
    ensures
        opt_view(r) == opt_str_view(o),
{
    match o {
        Some(s) => Some(s.to_owned()),
        None => None,
    }
}

/// The string held, or `default` when there is none.
pub fn or_default(o: &Option<String>, default: &str) -> (r: String)
    ensures
        r@ == (match o {
            Some(s) => s@,
            None => default@,
        }),
{
    match o {
        Some(s) => s.clone(),
        None => default.to_owned(),
    }
}

} // verus!
