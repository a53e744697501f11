//! Numeric literals: the value of a run of decimal digits, a verified
//! digit-run parser for 32-bit integers, and verified decimal rendering of
//! 32-bit integers.

use vstd::prelude::*;

verus! {

/// The byte is an ASCII decimal digit.
pub open spec fn is_digit(b: u8) -> bool {
    48 <= b && b <= 57
}

/// The value of a (possibly empty) run of ASCII decimal digits, most
/// significant first.
pub open spec fn digits_val(s: Seq<u8>) -> int
    decreases s.len(),
{
    if s.len() == 0 {
        0
    } else {
        digits_val(s.drop_last()) * 10 + (s.last() - 48)
    }
}

pub proof fn lemma_digits_val_snoc(s: Seq<u8>, b: u8)
    ensures
        digits_val(s.push(b)) == digits_val(s) * 10 + (b - 48),
{
    assert(s.push(b).drop_last() =~= s);
    assert(s.push(b).last() == b);
}

pub proof fn lemma_digits_val_nonneg(s: Seq<u8>)
    requires
        forall|i: int| 0 <= i < s.len() ==> is_digit(#[trigger] s[i]),
    ensures
        digits_val(s) >= 0,
    decreases s.len(),
{
    if s.len() > 0 {
        lemma_digits_val_nonneg(s.drop_last());
    }
}

/// A longer digit prefix never has a smaller value.
pub proof fn lemma_digits_val_prefix_le(s: Seq<u8>, i: int, j: int)
    requires
        forall|k: int| 0 <= k < s.len() ==> is_digit(#[trigger] s[k]),
        0 <= i <= j <= s.len(),
    ensures
        digits_val(s.subrange(0, i)) <= digits_val(s.subrange(0, j)),
    decreases j - i,
{
    if i < j {
        lemma_digits_val_prefix_le(s, i, j - 1);
        let p = s.subrange(0, j - 1);
        assert(s.subrange(0, j) =~= p.push(s[j - 1]));
        lemma_digits_val_snoc(p, s[j - 1]);
        assert(forall|k: int| 0 <= k < p.len() ==> is_digit(#[trigger] p[k]));
        lemma_digits_val_nonneg(p);
    }
}

/// Parses a non-empty run of decimal digits as a signed 32-bit integer;
/// nothing is returned exactly when the value overflows.
pub fn parse_i32_digits(digits: &[u8]) -> (r: Option<i32>)
    requires
        digits@.len() >= 1,
        forall|i: int| 0 <= i < digits@.len() ==> is_digit(#[trigger] digits@[i]),
    ensures
        match r {
            Some(v) => v as int == digits_val(digits@) && digits_val(digits@) <= i32::MAX as int,
            None => digits_val(digits@) > i32::MAX as int,
        },
{
    let mut acc: u64 = 0;
    let mut i: usize = 0;
    while i < digits.len()
        invariant
            i <= digits@.len(),
            forall|k: int| 0 <= k < digits@.len() ==> is_digit(#[trigger] digits@[k]),
            acc as int == digits_val(digits@.subrange(0, i as int)),
            acc <= i32::MAX as u64,
        decreases digits@.len() - i,
    {
        let d = digits[i];
        acc = acc * 10 + ((d - 48) as u64);
        i = i + 1;
        proof {
            let p = digits@.subrange(0, i - 1);
            assert(digits@.subrange(0, i as int) =~= p.push(digits@[i - 1]));
            lemma_digits_val_snoc(p, digits@[i - 1]);
        }
        if acc > 2147483647 {
            proof {
                lemma_digits_val_prefix_le(digits@, i as int, digits@.len() as int);
                assert(digits@.subrange(0, digits@.len() as int) =~= digits@);
            }
            return None;
        }
    }
    proof {
        assert(digits@.subrange(0, digits@.len() as int) =~= digits@);
    }
    Some(acc as i32)
}

/// The decimal digits of a non-negative value, most significant first.
pub open spec fn dec_digits(n: int) -> Seq<u8>
    decreases n,
    when n >= 0
{
    if n < 10 {
        seq![(48 + n) as u8]
    } else {
        dec_digits(n / 10).push((48 + n % 10) as u8)
    }
}

/// The canonical decimal text of a signed value: a `-` sign for negative
/// values, then the digits of its magnitude.
pub open spec fn int_text(v: int) -> Seq<u8> {
    if v < 0 {
        seq![45u8] + dec_digits(-v)
    } else {
        dec_digits(v)
    }
}

/// Renders a 32-bit integer as its canonical decimal text.
pub fn int_to_text(v: i32) -> (r: Vec<u8>)
    ensures
        r@ == int_text(v as int),
{
    let m: u32 = if v >= 0 {
        v as u32
    } else {
        (-(v as i64)) as u32
    };
    let mut rev: Vec<u8> = Vec::new();
    let mut n: u32 = m;
    loop
        invariant_except_break
            dec_digits(m as int) == dec_digits(n as int) + rev@.reverse(),
        ensures
            rev@.reverse() == dec_digits(m as int),
        decreases n,
    {
        proof {
            assert(dec_digits(n as int) + rev@.reverse() =~= dec_digits(m as int));
        }
        let d: u8 = 48 + (n % 10) as u8;
        let ghost old_rev = rev@;
        rev.push(d);
        proof {
            assert(rev@.reverse() =~= seq![d] + old_rev.reverse());
        }
        if n < 10 {
            proof {
                assert(dec_digits(n as int) =~= seq![d]);
                assert(seq![d] + old_rev.reverse() =~= dec_digits(n as int) + old_rev.reverse());
            }
            break;
        }
        proof {
            assert(dec_digits(n as int) == dec_digits(n as int / 10).push(d));
            assert(dec_digits(n as int / 10).push(d) + old_rev.reverse() =~= dec_digits(
                n as int / 10,
            ) + (seq![d] + old_rev.reverse()));
        }
        n = n / 10;
    }
    let mut out: Vec<u8> = Vec::new();
    if v < 0 {
        out.push(45);
    }
    let ghost sign = out@;
    let mut i: usize = rev.len();
    while i > 0
        invariant
            i <= rev@.len(),
            out@ == sign + rev@.subrange(i as int, rev@.len() as int).reverse(),
        decreases i,
    {
        i = i - 1;
        out.push(rev[i]);
        proof {
            assert(out@ =~= sign + rev@.subrange(i as int, rev@.len() as int).reverse());
        }
    }
    proof {
        assert(rev@.subrange(0, rev@.len() as int) =~= rev@);
        assert(out@ =~= int_text(v as int));
    }
    out
}

} // verus!
