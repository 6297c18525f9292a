//! Small verified text helpers shared by the codec and the store.

use vstd::prelude::*;

verus! {

/// Character-wise string equality, specified against the views.
pub fn str_eq(a: &str, b: &str) -> (r: bool)
    ensures
        r == (a@ == b@),
{
    let alen = a.unicode_len();
    let blen = b.unicode_len();
    if alen != blen {
        proof {
            assert(a@.len() != b@.len());
        }
        return false;
    }
    let mut i: usize = 0;
    while i < alen
        invariant
            alen == a@.len(),
            blen == b@.len(),
            alen == blen,
            i <= alen,
            forall|k: int| 0 <= k < i ==> a@[k] == b@[k],
        decreases alen - i,
    {
        if a.get_char(i) != b.get_char(i) {
            proof {
                assert(a@[i as int] != b@[i as int]);
            }
            return false;
        }
        i = i + 1;
    }
    proof {
        assert(a@ =~= b@);
    }
    true
}

/// The character for one decimal digit.
pub open spec fn digit_char(d: int) -> char {
    if d == 0 { '0' } else if d == 1 { '1' } else if d == 2 { '2' } else if d == 3 { '3' }
    else if d == 4 { '4' } else if d == 5 { '5' } else if d == 6 { '6' } else if d == 7 { '7' }
    else if d == 8 { '8' } else { '9' }
}

/// The decimal digits of a nonnegative number, most significant first.
pub open spec fn u64_str(n: int) -> Seq<char>
    decreases n,
{
    if n < 10 {
        seq![digit_char(n)]
    } else {
        u64_str(n / 10) + seq![digit_char(n % 10)]
    }
}

fn digit_char_exec(d: u64) -> (r: char)
    requires
        d < 10,
    ensures
        r == digit_char(d as int),
{
    if d == 0 { '0' } else if d == 1 { '1' } else if d == 2 { '2' } else if d == 3 { '3' }
    else if d == 4 { '4' } else if d == 5 { '5' } else if d == 6 { '6' } else if d == 7 { '7' }
    else if d == 8 { '8' } else { '9' }
}

fn u64_digits_into(out: &mut String, n: u64)
    ensures
        final(out)@ == old(out)@ + u64_str(n as int),
    decreases n,
{
    if n < 10 {
        push_char(out, digit_char_exec(n));
    } else {
        u64_digits_into(out, n / 10);
        push_char(out, digit_char_exec(n % 10));
        proof {
            assert(old(out)@ + (u64_str(n as int / 10) + seq![digit_char(n as int % 10)])
                =~= old(out)@ + u64_str(n as int / 10) + seq![digit_char(n as int % 10)]);
        }
    }
}

/// The decimal text of a number.
pub fn u64_to_string(n: u64) -> (r: String)
    ensures
        r@ == u64_str(n as int),
{
    let mut out = String::new();
    u64_digits_into(&mut out, n);
    proof {
        assert(Seq::<char>::empty() + u64_str(n as int) =~= u64_str(n as int));
    }
    out
}

/// Relies on std's `String::push`: appends exactly the given character.
#[verifier::external_body]
pub fn push_char(s: &mut String, c: char)
    ensures
        final(s)@ == old(s)@.push(c),
{
    s.push(c)
}

} // verus!
