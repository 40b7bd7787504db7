//! Small verified helpers on strings: equality of slices, the
//! parent-segment scan for submitted paths, and rendering integers as
//! decimal text.

use vstd::prelude::*;

verus! {

/// True iff the two string slices hold the same character sequence.
pub fn str_eq(a: &str, b: &str) -> (r: bool)
    ensures
        r == (a@ == b@),
{
    let n = a.unicode_len();
    if n != b.unicode_len() {
        return false;
    }
    let mut i: usize = 0;
    while i < n
        invariant
            n == a@.len(),
            n == b@.len(),
            i <= n,
            forall|k: int| 0 <= k < i ==> a@[k] == b@[k],
        decreases n - i,
    {
        if a.get_char(i) != b.get_char(i) {
            return false;
        }
        i = i + 1;
    }
    proof {
        assert(a@ =~= b@);
    }
    true
}

/// A `..` standing at position `i` as a whole path segment: two dots
/// bounded by separators or by the ends of the text.
pub open spec fn parent_segment_at(s: Seq<char>, i: int) -> bool {
    &&& 0 <= i
    &&& i + 2 <= s.len()
    &&& s[i] == '.'
    &&& s[i + 1] == '.'
    &&& (i == 0 || s[i - 1] == '/')
    &&& (i + 2 == s.len() || s[i + 2] == '/')
}

/// Some `/`-delimited segment of `s` is exactly `..`: the shape of a
/// parent-directory traversal in a submitted file path. Dots inside a
/// name, such as `a..b`, are not traversal.
pub open spec fn has_parent_segment(s: Seq<char>) -> bool {
    exists|i: int| #[trigger] parent_segment_at(s, i)
}

/// Scans for a whole `..` segment anywhere in the slice.
pub fn contains_parent_segment(s: &str) -> (r: bool)
    ensures
        r == has_parent_segment(s@),
{
    let n = s.unicode_len();
    if n < 2 {
        return false;
    }
    let mut i: usize = 0;
    while i < n - 1
        invariant
            n == s@.len(),
            2 <= n,
            i <= n - 1,
            forall|k: int| 0 <= k < i ==> !parent_segment_at(s@, k),
        decreases n - i,
    {
        if s.get_char(i) == '.' && s.get_char(i + 1) == '.' && (i == 0 || s.get_char(i - 1)
            == '/') && (i + 2 == n || s.get_char(i + 2) == '/') {
            proof {
                assert(parent_segment_at(s@, i as int));
            }
            return true;
        }
        proof {
            assert(!parent_segment_at(s@, i as int));
        }
        i = i + 1;
    }
    proof {
        assert forall|k: int| 0 <= k implies !parent_segment_at(s@, k) by {
            if k < n - 1 {
            } else {
                assert(!(k + 2 <= s@.len()));
            }
        }
    }
    false
}

/// The character for a single decimal digit.
pub open spec fn digit_char(d: nat) -> char {
    if d == 0 { '0' }
    else if d == 1 { '1' }
    else if d == 2 { '2' }
    else if d == 3 { '3' }
    else if d == 4 { '4' }
    else if d == 5 { '5' }
    else if d == 6 { '6' }
    else if d == 7 { '7' }
    else if d == 8 { '8' }
    else { '9' }
}

/// Decimal rendering of a natural number, most significant digit first.
pub open spec fn dec_digits(n: nat) -> Seq<char>
    decreases n,
{
    if n < 10 {
        seq![digit_char(n)]
    } else {
        dec_digits(n / 10).push(digit_char(n % 10))
    }
}

fn digit_to_char(d: u16) -> (c: char)
    requires
        d < 10,
    ensures
        c == digit_char(d as nat),
{
    if d == 0 { '0' }
    else if d == 1 { '1' }
    else if d == 2 { '2' }
    else if d == 3 { '3' }
    else if d == 4 { '4' }
    else if d == 5 { '5' }
    else if d == 6 { '6' }
    else if d == 7 { '7' }
    else if d == 8 { '8' }
    else { '9' }
}

/// Renders a `u16` as decimal text, e.g. for the port part of a URL.
pub fn u16_to_dec(n: u16) -> (r: String)
    ensures
        r@ == dec_digits(n as nat),
{
    let mut rev: Vec<char> = Vec::new();
    let mut rest: u16 = n;
    proof {
        assert(dec_digits(n as nat) =~= dec_digits(n as nat) + rev@.reverse());
    }
    loop
        invariant_except_break
            dec_digits(n as nat) == dec_digits(rest as nat) + rev@.reverse(),
        ensures
            dec_digits(n as nat) == rev@.reverse(),
        decreases rest,
    {
        let d = rest % 10;
        let c = digit_to_char(d);
        proof {
            let prev = rev@;
            assert((prev.push(c)).reverse() =~= seq![c] + prev.reverse());
            if rest >= 10 {
                assert(dec_digits(rest as nat) == dec_digits((rest / 10) as nat).push(
                    digit_char((rest % 10) as nat),
                ));
                assert(dec_digits((rest / 10) as nat) + (prev.push(c)).reverse() =~= dec_digits(
                    rest as nat,
                ) + prev.reverse());
            } else {
                assert(dec_digits(rest as nat) =~= seq![c]);
                assert(seq![c] + prev.reverse() =~= dec_digits(rest as nat) + prev.reverse());
            }
        }
        rev.push(c);
        if rest < 10 {
            break;
        }
        rest = rest / 10;
    }
    let mut out = String::new();
    let ghost digits = rev@.reverse();
    let mut i: usize = rev.len();
    proof {
        assert(out@ =~= digits.take(rev@.len() - i));
    }
    while i > 0
        invariant
            i <= rev@.len(),
            digits == rev@.reverse(),
            out@ == digits.take(rev@.len() - i),
        decreases i,
    {
        i = i - 1;
        let c = rev[i];
        push_char(&mut out, c);
        proof {
            assert(out@ =~= digits.take(rev@.len() - i));
        }
    }
    proof {
        assert(out@ =~= digits);
    }
    out
}

/// Appends one character to a string.
///
/// Relies on `String::push` from std: it appends exactly the given
/// character to the end of the string.
#[verifier::external_body]
pub fn push_char(s: &mut String, c: char)
    ensures
        final(s)@ == old(s)@.push(c),
{
    s.push(c);
}

} // verus!
