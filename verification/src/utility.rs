//! Decimal digits as bytes: the value they denote, and checked parsing. Used
//! by the configuration parser and by the content-length reader.
use vstd::prelude::*;
use vstd::string::StringSliceAdditionalSpecFns;

verus! {

/// Is `b` the byte of a decimal digit?
pub open spec fn is_digit(b: u8) -> bool {
    '0' as u8 <= b <= '9' as u8
}

/// Are all bytes of `s` decimal digits?
pub open spec fn all_digits(s: Seq<u8>) -> bool {
    forall|i: int| 0 <= i < s.len() ==> is_digit(#[trigger] s[i])
}

/// The number that the digit bytes of `s` denote, most significant first.
/// An empty sequence denotes zero.
pub open spec fn digits_val(s: Seq<u8>) -> int
    decreases s.len(),
{
    if s.len() == 0 {
        0
    } else {
        digits_val(s.drop_last()) * 10 + (s.last() - ('0' as u8))
    }
}

/// Digit bytes denote a nonnegative number.
pub proof fn lemma_digits_val_nonneg(s: Seq<u8>)
    requires
        all_digits(s),
    ensures
        digits_val(s) >= 0,
    decreases s.len(),
{
    if s.len() > 0 {
        assert(all_digits(s.drop_last())) by {
            assert(forall|i: int|
                0 <= i < s.len() - 1 ==> s.drop_last()[i] == #[trigger] s[i]);
        }
        lemma_digits_val_nonneg(s.drop_last());
        assert(is_digit(s.last()));
    }
}

/// Dropping trailing digits can only shrink the denoted number.
pub proof fn lemma_digits_val_prefix(s: Seq<u8>, j: int)
    requires
        all_digits(s),
        0 <= j <= s.len(),
    ensures
        0 <= digits_val(s.take(j)) <= digits_val(s),
    decreases s.len() - j,
{
    assert(all_digits(s.take(j))) by {
        assert(forall|i: int| 0 <= i < j ==> s.take(j)[i] == #[trigger] s[i]);
    }
    lemma_digits_val_nonneg(s.take(j));
    if j == s.len() {
        assert(s.take(j) =~= s);
    } else {
        lemma_digits_val_prefix(s, j + 1);
        assert(s.take(j + 1).drop_last() =~= s.take(j));
        assert(s.take(j + 1).last() == s[j]);
        assert(digits_val(s.take(j + 1)) == digits_val(s.take(j)) * 10 + (s[j] - ('0' as u8)));
        assert(is_digit(s[j]));
    }
}

/// Parse the bytes `v[from..to]` as a decimal number: the value when they are
/// one or more digits and it fits the machine word, nothing otherwise.
pub open spec fn spec_parse_decimal(s: Seq<u8>) -> Option<usize> {
    if s.len() > 0 && all_digits(s) && digits_val(s) <= usize::MAX {
        Some(digits_val(s) as usize)
    } else {
        None
    }
}

/// Checked decimal parsing over a byte range.
pub fn parse_decimal(v: &Vec<u8>, from: usize, to: usize) -> (r: Option<usize>)
    requires
        from <= to <= v@.len(),
    ensures
        r == spec_parse_decimal(v@.subrange(from as int, to as int)),
{
    let ghost s = v@.subrange(from as int, to as int);
    if from == to {
        return None;
    }
    let mut x: usize = 0;
    let mut i: usize = from;
    while i < to
        invariant
            from <= i <= to <= v@.len(),
            s == v@.subrange(from as int, to as int),
            all_digits(s.take(i - from)),
            x as int == digits_val(s.take(i - from)),
        decreases to - i,
    {
        let b = v[i];
        proof {
            assert(s[i - from] == v@[i as int]);
        }
        if b < '0' as u8 || b > '9' as u8 {
            proof {
                assert(!is_digit(s[i - from]));
            }
            return None;
        }
        let d = (b - '0' as u8) as usize;
        proof {
            assert(s.take(i - from + 1).drop_last() =~= s.take(i - from));
            assert(s.take(i - from + 1).last() == s[i - from]);
            assert(all_digits(s.take(i - from + 1))) by {
                assert(forall|k: int|
                    0 <= k < i - from + 1 ==> s.take(i - from + 1)[k] == #[trigger] s.take(
                        i - from + 1,
                    )[k] && s.take(i - from + 1)[k] == s[k]);
            }
        }
        if x > (usize::MAX - d) / 10 {
            proof {
                lemma_overflow_threshold(x as int, d as int);
                assert(digits_val(s.take(i - from + 1)) > usize::MAX);
                if all_digits(s) {
                    lemma_digits_val_extension_large(s, i - from + 1);
                }
            }
            return None;
        }
        proof {
            lemma_no_overflow_threshold(x as int, d as int);
        }
        x = x * 10 + d;
        i = i + 1;
    }
    proof {
        assert(s.take(to - from) =~= s);
    }
    Some(x)
}

/// Above the threshold `(MAX - d) / 10`, appending the digit `d` overflows.
proof fn lemma_overflow_threshold(x: int, d: int)
    requires
        0 <= d <= 9,
        x > (usize::MAX - d) / 10,
    ensures
        x * 10 + d > usize::MAX,
{
    let m = usize::MAX - d;
    vstd::arithmetic::div_mod::lemma_fundamental_div_mod(m, 10);
    vstd::arithmetic::div_mod::lemma_mod_bound(m, 10);
    assert(x * 10 + d > usize::MAX) by (nonlinear_arith)
        requires
            m == (m / 10) * 10 + m % 10,
            0 <= m % 10 < 10,
            x > m / 10,
            m == usize::MAX - d,
    ;
}

/// At or below the threshold, appending the digit `d` stays in range.
proof fn lemma_no_overflow_threshold(x: int, d: int)
    requires
        0 <= d <= 9,
        0 <= x <= (usize::MAX - d) / 10,
    ensures
        x * 10 + d <= usize::MAX,
{
    let m = usize::MAX - d;
    vstd::arithmetic::div_mod::lemma_fundamental_div_mod(m, 10);
    vstd::arithmetic::div_mod::lemma_mod_bound(m, 10);
    assert(x * 10 + d <= usize::MAX) by (nonlinear_arith)
        requires
            m == (m / 10) * 10 + m % 10,
            0 <= m % 10 < 10,
            x <= m / 10,
            m == usize::MAX - d,
    ;
}

/// Once some prefix of a digit string denotes more than the machine word
/// holds, so does the whole string.
proof fn lemma_digits_val_extension_large(s: Seq<u8>, j: int)
    requires
        all_digits(s),
        0 <= j <= s.len(),
        digits_val(s.take(j)) > usize::MAX,
    ensures
        digits_val(s) > usize::MAX,
{
    lemma_digits_val_prefix(s, j);
}

/// Read a configuration value: the number the string denotes, or `default`
/// where none was given. An empty string denotes zero.
pub fn parse_or(s: Option<&str>, default: usize) -> (r: usize)
    requires
        s matches Some(t) ==> all_digits(t.spec_bytes()) && digits_val(t.spec_bytes())
            <= usize::MAX,
    ensures
        r as int == match s {
            Some(t) => digits_val(t.spec_bytes()),
            None => default as int,
        },
{
    match s {
        Some(t) => {
            let b = t.as_bytes();
            let ghost bs = b@;
            let mut x: usize = 0;
            let mut i: usize = 0;
            while i < b.len()
                invariant
                    bs == b@,
                    all_digits(bs),
                    digits_val(bs) <= usize::MAX,
                    i <= bs.len(),
                    x as int == digits_val(bs.take(i as int)),
                decreases b@.len() - i,
            {
                let byte = b[i];
                proof {
                    assert(is_digit(bs[i as int]));
                    assert(bs.take(i + 1).drop_last() =~= bs.take(i as int));
                    assert(bs.take(i + 1).last() == bs[i as int]);
                    lemma_digits_val_prefix(bs, i + 1);
                }
                let d = (byte - '0' as u8) as usize;
                x = x * 10 + d;
                i = i + 1;
            }
            proof {
                assert(bs.take(b@.len() as int) =~= bs);
            }
            x
        },
        None => default,
    }
}

} // verus!
