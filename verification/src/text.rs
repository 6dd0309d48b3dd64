//! Texts: building, comparing and searching strings, and decimal
//! numerals.
use vstd::prelude::*;
use vstd::std_specs::iter::IteratorSpec;
use vstd::string::*;

verus! {

/// Appends one character to a string.
///
/// Trusted: `String::push` appends the given `char` to the end of the string.
#[verifier::external_body]
pub(crate) fn push_char(s: &mut String, c: char)
    ensures
        final(s)@ == old(s)@.push(c),
{
    s.push(c)
}

/// An owned copy of a string slice.
pub fn owned(s: &str) -> (r: String)
    ensures
        r@ == s@,
{
    s.to_owned()
}

/// The concatenation of two strings.
pub fn concat2(a: &str, b: &str) -> (r: String)
    ensures
        r@ == a@ + b@,
{
    let mut r = a.to_owned();
    r.append(b);
    r
}

/// The concatenation of three strings.
pub fn concat3(a: &str, b: &str, c: &str) -> (r: String)
    ensures
        r@ == a@ + b@ + c@,
{
    let mut r = a.to_owned();
    r.append(b);
    r.append(c);
    r
}

/// The decimal digit that stands for `d`.
pub open spec fn digit_char(d: nat) -> char
    recommends
        d < 10,
{
    if d == 0 {
        '0'
    } else if d == 1 {
        '1'
    } else if d == 2 {
        '2'
    } else if d == 3 {
        '3'
    } else if d == 4 {
        '4'
    } else if d == 5 {
        '5'
    } else if d == 6 {
        '6'
    } else if d == 7 {
        '7'
    } else if d == 8 {
        '8'
    } else {
        '9'
    }
}

/// The decimal numeral of a natural number, without leading zeros.
pub open spec fn decimal(n: nat) -> Seq<char>
    decreases n,
{
    if n < 10 {
        seq![digit_char(n)]
    } else {
        decimal(n / 10).push(digit_char(n % 10))
    }
}

/// The decimal numeral of an integer, with a leading `-` when negative.
pub open spec fn signed_decimal(n: int) -> Seq<char> {
    if n < 0 {
        seq!['-'] + decimal((-n) as nat)
    } else {
        decimal(n as nat)
    }
}

fn digit_to_char(d: u64) -> (c: char)
    requires
        d < 10,
    ensures
        c == digit_char(d as nat),
{
    if d == 0 {
        '0'
    } else if d == 1 {
        '1'
    } else if d == 2 {
        '2'
    } else if d == 3 {
        '3'
    } else if d == 4 {
        '4'
    } else if d == 5 {
        '5'
    } else if d == 6 {
        '6'
    } else if d == 7 {
        '7'
    } else if d == 8 {
        '8'
    } else {
        '9'
    }
}

/// Writes the decimal numeral of `n`.
pub fn u64_to_string(n: u64) -> (r: String)
    ensures
        r@ == decimal(n as nat),
    decreases n,
{
    if n < 10 {
        let mut r = String::new();
        push_char(&mut r, digit_to_char(n));
        assert(r@ =~= seq![digit_char(n as nat)]);
        r
    } else {
        let mut r = u64_to_string(n / 10);
        push_char(&mut r, digit_to_char(n % 10));
        r
    }
}

/// Writes the decimal numeral of a length or count.
pub fn usize_to_string(n: usize) -> (r: String)
    ensures
        r@ == decimal(n as nat),
{
    u64_to_string(n as u64)
}

/// Writes the decimal numeral of a signed integer.
pub fn i64_to_string(n: i64) -> (r: String)
    ensures
        r@ == signed_decimal(n as int),
{
    if n < 0 {
        let magnitude: u64 = if n == i64::MIN {
            9223372036854775808u64
        } else {
            (-n) as u64
        };
        let digits = u64_to_string(magnitude);
        let mut r = String::new();
        push_char(&mut r, '-');
        r.append(digits.as_str());
        assert(r@ =~= seq!['-'] + digits@);
        r
    } else {
        u64_to_string(n as u64)
    }
}

/// The characters of a string, in order.
pub fn chars_of(s: &str) -> (chars: Vec<char>)
    ensures
        chars@ == s@,
{
    let mut chars: Vec<char> = Vec::new();
    let mut it = s.chars();
    let ghost all = s@;
    loop
        invariant
            chars@ + it.remaining() == all,
        ensures
            chars@ == all,
        decreases all.len() - chars.len(),
    {
        match it.next() {
            Some(c) => {
                chars.push(c);
            },
            None => {
                assert(chars@ =~= chars@ + it.remaining());
                break;
            },
        }
    }
    chars
}

/// Whether two strings hold the same characters.
pub fn equal(a: &str, b: &str) -> (same: bool)
    ensures
        same == (a@ == b@),
{
    let mut left = a.chars();
    let mut right = b.chars();
    let ghost mut k: int = 0;
    loop
        invariant
            0 <= k <= a@.len(),
            k <= b@.len(),
            a@.subrange(0, k) == b@.subrange(0, k),
            left.remaining() == a@.subrange(k, a@.len() as int),
            right.remaining() == b@.subrange(k, b@.len() as int),
        decreases a@.len() - k,
    {
        let x = left.next();
        let y = right.next();
        match (x, y) {
            (Some(c), Some(d)) => {
                if c != d {
                    assert(a@[k] != b@[k]);
                    return false;
                }
                proof {
                    assert(a@.subrange(0, k + 1) =~= a@.subrange(0, k).push(c));
                    assert(b@.subrange(0, k + 1) =~= b@.subrange(0, k).push(d));
                    assert(a@.subrange(k, a@.len() as int).drop_first() =~= a@.subrange(
                        k + 1,
                        a@.len() as int,
                    ));
                    assert(b@.subrange(k, b@.len() as int).drop_first() =~= b@.subrange(
                        k + 1,
                        b@.len() as int,
                    ));
                    k = k + 1;
                }
            },
            (None, None) => {
                assert(a@ =~= a@.subrange(0, k));
                assert(b@ =~= b@.subrange(0, k));
                return true;
            },
            _ => {
                assert(a@.len() != b@.len());
                return false;
            },
        }
    }
}

/// The concatenation of four strings.
pub fn concat4(a: &str, b: &str, c: &str, d: &str) -> (r: String)
    ensures
        r@ == a@ + b@ + c@ + d@,
{
    let mut r = a.to_owned();
    r.append(b);
    r.append(c);
    r.append(d);
    r
}

/// The concatenation of five strings.
pub fn concat5(a: &str, b: &str, c: &str, d: &str, e: &str) -> (r: String)
    ensures
        r@ == a@ + b@ + c@ + d@ + e@,
{
    let mut r = a.to_owned();
    r.append(b);
    r.append(c);
    r.append(d);
    r.append(e);
    r
}

/// Whether `part` occurs in `whole` at index `at`.
pub open spec fn occurs_at(whole: Seq<char>, part: Seq<char>, at: int) -> bool {
    0 <= at && at + part.len() <= whole.len() && whole.subrange(at, at + part.len()) == part
}

/// Whether `part` occurs somewhere in `whole`.
pub open spec fn occurs_in(whole: Seq<char>, part: Seq<char>) -> bool {
    exists|at: int| occurs_at(whole, part, at)
}

/// Whether `part` occurs somewhere in `whole`.
pub fn contains(whole: &str, part: &str) -> (found: bool)
    ensures
        found == occurs_in(whole@, part@),
{
    let w = chars_of(whole);
    let p = chars_of(part);
    if p.len() > w.len() {
        assert forall|at: int| !occurs_at(whole@, part@, at) by {}
        return false;
    }
    let last: usize = w.len() - p.len();
    let mut at: usize = 0;
    while at <= last
        invariant
            w@ == whole@,
            p@ == part@,
            p.len() <= w.len(),
            last == w.len() - p.len(),
            at <= last + 1,
            forall|k: int| 0 <= k < at ==> !occurs_at(whole@, part@, k),
        decreases last + 1 - at,
    {
        let mut k: usize = 0;
        while k < p.len() && w[at + k] == p[k]
            invariant
                w@ == whole@,
                p@ == part@,
                at <= last,
                last == w.len() - p.len(),
                k <= p.len(),
                forall|j: int| 0 <= j < k ==> w@[at + j] == p@[j],
            decreases p.len() - k,
        {
            k += 1;
        }
        if k == p.len() {
            assert(whole@.subrange(at as int, at + part@.len()) =~= part@);
            assert(occurs_at(whole@, part@, at as int));
            return true;
        }
        assert(!occurs_at(whole@, part@, at as int)) by {
            if occurs_at(whole@, part@, at as int) {
                assert(whole@.subrange(at as int, at + part@.len())[k as int] == part@[k as int]);
            }
        }
        at += 1;
    }
    assert forall|k: int| !occurs_at(whole@, part@, k) by {}
    false
}

/// The text with every occurrence of a pattern replaced: the occurrences
/// are taken from the left and do not overlap. The pattern is not empty.
pub open spec fn replaced(text: Seq<char>, pattern: Seq<char>, with: Seq<char>) -> Seq<char>
    decreases text.len(),
{
    if pattern.len() == 0 || text.len() < pattern.len() {
        text
    } else if text.subrange(0, pattern.len() as int) == pattern {
        with + replaced(text.subrange(pattern.len() as int, text.len() as int), pattern, with)
    } else {
        seq![text[0]] + replaced(text.subrange(1, text.len() as int), pattern, with)
    }
}

/// A text in which the pattern does not occur is left as it is.
pub proof fn lemma_replaced_without(text: Seq<char>, pattern: Seq<char>, with: Seq<char>)
    requires
        !occurs_in(text, pattern),
    ensures
        replaced(text, pattern, with) == text,
    decreases text.len(),
{
    if pattern.len() > 0 && text.len() >= pattern.len() {
        assert(!occurs_at(text, pattern, 0));
        let rest = text.subrange(1, text.len() as int);
        assert forall|k: int| !occurs_at(rest, pattern, k) by {
            if occurs_at(rest, pattern, k) {
                assert(rest.subrange(k, k + pattern.len()) =~= text.subrange(
                    k + 1,
                    k + 1 + pattern.len(),
                ));
                assert(occurs_at(text, pattern, k + 1));
            }
        }
        lemma_replaced_without(rest, pattern, with);
        assert(seq![text[0]] + rest =~= text);
    }
}

/// Replaces every occurrence of a pattern in a text.
///
/// Trusted: `str::replace` returns a new string in which every match of
/// the pattern is replaced; the matches of a pattern are found from the
/// left and are disjoint.
#[verifier::external_body]
pub(crate) fn replace(text: &str, pattern: &str, with: &str) -> (result: String)
    requires
        pattern@.len() > 0,
    ensures
        result@ == replaced(text@, pattern@, with@),
{
    text.replace(pattern, with)
}

} // verus!
