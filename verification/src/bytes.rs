//! Small verified helpers on byte vectors.

use vstd::prelude::*;

verus! {

/// Copy a byte vector.
pub fn dup_bytes(v: &Vec<u8>) -> (r: Vec<u8>)
    ensures
        r@ == v@,
{
    let mut out: Vec<u8> = Vec::new();
    let mut i: usize = 0;
    while i < v.len()
        invariant
            i <= v.len(),
            out@ == v@.subrange(0, i as int),
        decreases v.len() - i,
    {
        out.push(v[i]);
        i = i + 1;
    }
    proof {
        assert(out@ =~= v@);
    }
    out
}

/// Copy a list of names.
pub fn dup_names(v: &Vec<Vec<u8>>) -> (r: Vec<Vec<u8>>)
    ensures
        r@.len() == v@.len(),
        forall|i: int| 0 <= i < v@.len() ==> r@[i]@ == v@[i]@,
{
    let mut out: Vec<Vec<u8>> = Vec::new();
    let mut i: usize = 0;
    while i < v.len()
        invariant
            i <= v.len(),
            out@.len() == i,
            forall|j: int| 0 <= j < i ==> out@[j]@ == v@[j]@,
        decreases v.len() - i,
    {
        out.push(dup_bytes(&v[i]));
        i = i + 1;
    }
    out
}

/// Decide equality of two byte strings.
pub fn bytes_eq(a: &Vec<u8>, b: &Vec<u8>) -> (r: bool)
    ensures
        r == (a@ == b@),
{
    if a.len() != b.len() {
        proof {
            assert(a@.len() != b@.len());
        }
        return false;
    }
    let mut i: usize = 0;
    while i < a.len()
        invariant
            a@.len() == b@.len(),
            i <= a.len(),
            forall|j: int| 0 <= j < i ==> a@[j] == b@[j],
        decreases a.len() - i,
    {
        if a[i] != b[i] {
            return false;
        }
        i = i + 1;
    }
    proof {
        assert(a@ =~= b@);
    }
    true
}

/// Concatenate two byte strings.
pub fn bytes_concat(a: &Vec<u8>, b: &Vec<u8>) -> (r: Vec<u8>)
    ensures
        r@ == a@ + b@,
{
    let mut out = dup_bytes(a);
    let mut i: usize = 0;
    while i < b.len()
        invariant
            i <= b.len(),
            out@ == a@ + b@.subrange(0, i as int),
        decreases b.len() - i,
    {
        out.push(b[i]);
        proof {
            assert(a@ + b@.subrange(0, i as int) + seq![b@[i as int]] =~= a@ + b@.subrange(
                0,
                i + 1,
            ));
        }
        i = i + 1;
    }
    proof {
        assert(b@.subrange(0, b@.len() as int) =~= b@);
    }
    out
}

/// Append a byte vector to another.
pub fn push_all(dst: &mut Vec<u8>, src: &Vec<u8>)
    ensures
        final(dst)@ == old(dst)@ + src@,
{
    let mut i: usize = 0;
    while i < src.len()
        invariant
            i <= src.len(),
            dst@ == old(dst)@ + src@.subrange(0, i as int),
        decreases src.len() - i,
    {
        dst.push(src[i]);
        proof {
            assert(old(dst)@ + src@.subrange(0, i as int) + seq![src@[i as int]] =~= old(dst)@
                + src@.subrange(0, i + 1));
        }
        i = i + 1;
    }
    proof {
        assert(src@.subrange(0, src@.len() as int) =~= src@);
    }
}

/// Copy a range of a byte vector.
pub fn take_range(v: &Vec<u8>, a: usize, b: usize) -> (r: Vec<u8>)
    requires
        a <= b <= v@.len(),
    ensures
        r@ == v@.subrange(a as int, b as int),
{
    let mut out: Vec<u8> = Vec::new();
    let mut i: usize = a;
    while i < b
        invariant
            a <= i <= b <= v@.len(),
            out@ == v@.subrange(a as int, i as int),
        decreases b - i,
    {
        out.push(v[i]);
        proof {
            assert(v@.subrange(a as int, i as int).push(v@[i as int]) =~= v@.subrange(
                a as int,
                i + 1,
            ));
        }
        i = i + 1;
    }
    out
}

/// The decimal digits of a non-negative number.
pub open spec fn udec(n: nat) -> Seq<u8>
    decreases n,
{
    if n < 10 {
        seq![(48 + n) as u8]
    } else {
        udec(n / 10).push((48 + n % 10) as u8)
    }
}

/// The decimal text of an integer: a minus sign for negatives, then digits.
pub open spec fn idec(n: int) -> Seq<u8> {
    if n < 0 {
        seq![45u8] + udec((-n) as nat)
    } else {
        udec(n as nat)
    }
}

/// Render a non-negative number in decimal.
pub fn udec_exec(n: u64) -> (r: Vec<u8>)
    ensures
        r@ == udec(n as nat),
    decreases n,
{
    if n < 10 {
        let mut out: Vec<u8> = Vec::new();
        out.push(48 + n as u8);
        proof {
            assert(out@ =~= udec(n as nat));
        }
        out
    } else {
        let mut out = udec_exec(n / 10);
        out.push(48 + (n % 10) as u8);
        out
    }
}

/// Render a 64-bit signed number in decimal.
pub fn idec_exec(n: i64) -> (r: Vec<u8>)
    ensures
        r@ == idec(n as int),
{
    if n >= 0 {
        udec_exec(n as u64)
    } else {
        let mag: u64 = (-(n as i128)) as u64;
        let mut out: Vec<u8> = Vec::new();
        out.push(45);
        let digits = udec_exec(mag);
        let mut i: usize = 0;
        while i < digits.len()
            invariant
                i <= digits.len(),
                out@ == seq![45u8] + digits@.subrange(0, i as int),
            decreases digits.len() - i,
        {
            out.push(digits[i]);
            proof {
                assert(seq![45u8] + digits@.subrange(0, i as int) + seq![digits@[i as int]]
                    =~= seq![45u8] + digits@.subrange(0, i + 1));
            }
            i = i + 1;
        }
        proof {
            assert(digits@.subrange(0, digits@.len() as int) =~= digits@);
        }
        out
    }
}

/// Whether a byte is a decimal digit.
pub open spec fn is_digit(b: u8) -> bool {
    48 <= b <= 57
}

/// The number denoted by a sequence of digits, most significant first.
pub open spec fn digits_value(s: Seq<u8>) -> nat
    decreases s.len(),
{
    if s.len() == 0 {
        0
    } else {
        (digits_value(s.subrange(0, s.len() - 1)) * 10 + (s[s.len() - 1] - 48)) as nat
    }
}

/// Whether a byte string is all digits, and at least one.
pub open spec fn all_digits(s: Seq<u8>) -> bool {
    s.len() > 0 && forall|i: int| 0 <= i < s.len() ==> is_digit(s[i])
}

/// The integer a byte string denotes: an optional minus sign, then digits.
/// Nothing else denotes an integer.
pub open spec fn parse_int(s: Seq<u8>) -> Option<int> {
    if all_digits(s) {
        Option::Some(digits_value(s) as int)
    } else if s.len() > 1 && s[0] == 45 && all_digits(s.subrange(1, s.len() as int)) {
        Option::Some(-(digits_value(s.subrange(1, s.len() as int)) as int))
    } else {
        Option::None
    }
}

/// The 64-bit integer a byte string denotes; out-of-range numbers denote none.
pub open spec fn parse_i64(s: Seq<u8>) -> Option<int> {
    match parse_int(s) {
        Option::Some(n) => if i64::MIN <= n <= i64::MAX {
            Option::Some(n)
        } else {
            Option::None
        },
        Option::None => Option::None,
    }
}

proof fn lemma_digits_value_bound(s: Seq<u8>)
    requires
        forall|i: int| 0 <= i < s.len() ==> is_digit(s[i]),
    ensures
        digits_value(s) < pow10(s.len() as nat),
    decreases s.len(),
{
    if s.len() > 0 {
        lemma_digits_value_bound(s.subrange(0, s.len() - 1));
    }
}

/// Powers of ten.
pub open spec fn pow10(n: nat) -> nat
    decreases n,
{
    if n == 0 {
        1
    } else {
        10 * pow10((n - 1) as nat)
    }
}

/// Parse a byte string as a 64-bit integer.
#[verifier::loop_isolation(false)]
pub fn parse_i64_exec(v: &Vec<u8>) -> (r: Option<i64>)
    ensures
        match r {
            Option::Some(n) => parse_i64(v@) == Option::Some(n as int),
            Option::None => parse_i64(v@) is None,
        },
{
    let n = v.len();
    let neg = n > 1 && v[0] == 45;
    let start: usize = if neg {
        1
    } else {
        0
    };
    if n == start {
        proof {
            assert(!all_digits(v@));
            if v@.len() > 1 && v@[0] == 45 {
                assert(!all_digits(v@.subrange(1, v@.len() as int)));
            }
        }
        return Option::None;
    }
    let ghost digits = if neg {
        v@.subrange(1, v@.len() as int)
    } else {
        v@
    };
    let mut acc: u128 = 0;
    let mut i: usize = start;
    while i < n
        invariant
            start <= i <= n,
            forall|j: int| start <= j < i ==> is_digit(v@[j]),
            acc == digits_value(v@.subrange(start as int, i as int)),
            acc <= 0xffff_ffff_ffff_ffff_ffff,
        decreases n - i,
    {
        let b = v[i];
        if b < 48 || b > 57 {
            proof {
                if neg {
                    assert(digits[i - 1] == v@[i as int]);
                    assert(!all_digits(digits));
                    assert(!all_digits(v@));
                } else {
                    assert(!all_digits(v@));
                    if v@.len() > 1 && v@[0] == 45 {
                        assert(v@.subrange(1, v@.len() as int)[i - 1] == v@[i as int]);
                        assert(!all_digits(v@.subrange(1, v@.len() as int)));
                    }
                }
            }
            return Option::None;
        }
        if acc > 0xffff_ffff_ffff_ffff {
            // Already beyond any 64-bit value: the rest only decides digit-ness.
            let mut k: usize = i;
            while k < n
                invariant
                    i <= k <= n,
                    forall|j: int| start <= j < k ==> is_digit(v@[j]),
                decreases n - k,
            {
                let c = v[k];
                if c < 48 || c > 57 {
                    proof {
                        if neg {
                            assert(digits[k - 1] == v@[k as int]);
                            assert(!all_digits(digits));
                            assert(!all_digits(v@));
                        } else {
                            assert(!all_digits(v@));
                            if v@.len() > 1 && v@[0] == 45 {
                                assert(v@.subrange(1, v@.len() as int)[k - 1] == v@[k as int]);
                                assert(!all_digits(v@.subrange(1, v@.len() as int)));
                            }
                        }
                    }
                    return Option::None;
                }
                k = k + 1;
            }
            proof {
                assert(digits =~= v@.subrange(start as int, n as int));
                lemma_digits_prefix_monotone(digits, i - start);
                assert(digits.subrange(0, i - start) =~= v@.subrange(start as int, i as int));
                assert(digits_value(digits) >= acc);
                assert(parse_int(v@) matches Option::Some(m) && (m > i64::MAX || m
                    < i64::MIN));
            }
            return Option::None;
        }
        acc = acc * 10 + (b - 48) as u128;
        proof {
            assert(v@.subrange(start as int, i + 1).subrange(0, i - start) =~= v@.subrange(
                start as int,
                i as int,
            ));
        }
        i = i + 1;
    }
    proof {
        assert(digits =~= v@.subrange(start as int, n as int));
        assert(all_digits(digits));
        if !neg {
            assert(v@ == digits);
        }
    }
    if neg {
        if acc > 0x8000_0000_0000_0000 {
            proof {
                assert(parse_int(v@) == Option::Some(-(digits_value(digits) as int)));
            }
            return Option::None;
        }
        let r: i64 = (-(acc as i128)) as i64;
        proof {
            assert(v@[0] == 45);
            assert(parse_int(v@) == Option::Some(-(digits_value(digits) as int)));
        }
        Option::Some(r)
    } else {
        if acc > 0x7fff_ffff_ffff_ffff {
            return Option::None;
        }
        Option::Some(acc as i64)
    }
}

/// A longer digit string denotes at least as large a number.
proof fn lemma_digits_prefix_monotone(s: Seq<u8>, k: int)
    requires
        0 <= k <= s.len(),
        forall|i: int| 0 <= i < s.len() ==> is_digit(s[i]),
    ensures
        digits_value(s) >= digits_value(s.subrange(0, k)),
    decreases s.len() - k,
{
    if k == s.len() {
        assert(s.subrange(0, s.len() as int) =~= s);
    } else {
        lemma_digits_prefix_monotone(s, k + 1);
        let a = s.subrange(0, k);
        let b = s.subrange(0, k + 1);
        assert(b.subrange(0, b.len() - 1) =~= a);
        assert(digits_value(b) == digits_value(a) * 10 + (s[k] - 48));
        assert(digits_value(a) * 10 >= digits_value(a)) by (nonlinear_arith)
            requires
                digits_value(a) >= 0,
        ;
    }
}

} // verus!
