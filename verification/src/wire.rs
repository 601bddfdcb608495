//! Small pieces of wire text that the codecs share: copying bytes and decimal
//! numbers.

use vstd::prelude::*;
use vstd::slice::{slice_subrange, slice_to_vec};
use crate::error::DecodeError;

verus! {

/// Appends `bytes` to `out`.
pub fn extend(out: &mut Vec<u8>, bytes: &[u8])
    ensures
        final(out)@ == old(out)@ + bytes@,
{
    let mut i: usize = 0;
    while i < bytes.len()
        invariant
            i <= bytes.len(),
            out@ == old(out)@ + bytes@.take(i as int),
        decreases bytes.len() - i,
    {
        out.push(bytes[i]);
        assert(out@ =~= old(out)@ + bytes@.take(i + 1));
        i += 1;
    }
    assert(bytes@.take(i as int) =~= bytes@);
}

/// The bytes of `data` from `from` up to, but without, `to`.
pub fn copy_range(data: &[u8], from: usize, to: usize) -> (r: Vec<u8>)
    requires
        from <= to <= data@.len(),
    ensures
        r@ == data@.subrange(from as int, to as int),
{
    slice_to_vec(slice_subrange(data, from, to))
}

/// The contents of a list of byte strings.
pub open spec fn blobs(v: Seq<Vec<u8>>) -> Seq<Seq<u8>> {
    Seq::new(v.len(), |i: int| v[i]@)
}

/// Whether `a` and `b` hold the same bytes.
pub fn same_bytes(a: &[u8], b: &[u8]) -> (r: bool)
    ensures
        r == (a@ == b@),
{
    if a.len() != b.len() {
        return false;
    }
    let mut i: usize = 0;
    while i < a.len()
        invariant
            i <= a.len(),
            a.len() == b.len(),
            forall|k: int| 0 <= k < i ==> a@[k] == b@[k],
        decreases a.len() - i,
    {
        if a[i] != b[i] {
            return false;
        }
        i += 1;
    }
    assert(a@ =~= b@);
    true
}

/// `b` is an ASCII digit.
pub open spec fn is_digit(b: u8) -> bool {
    0x30 <= b <= 0x39
}

/// The decimal text of `n`, without leading zeros.
pub open spec fn decimal(n: nat) -> Seq<u8>
    decreases n,
{
    if n < 10 {
        seq![(0x30 + n) as u8]
    } else {
        decimal(n / 10).push((0x30 + n % 10) as u8)
    }
}

/// The number that the digits `s` spell.
pub open spec fn digits_value(s: Seq<u8>) -> nat
    decreases s.len(),
{
    if s.len() == 0 {
        0
    } else {
        digits_value(s.drop_last()) * 10 + (s.last() - 0x30) as nat
    }
}

/// The number of digits at the front of `s`.
pub open spec fn leading_digits(s: Seq<u8>) -> nat
    decreases s.len(),
{
    if s.len() > 0 && is_digit(s[0]) {
        1 + leading_digits(s.skip(1))
    } else {
        0
    }
}

/// What a number at the front of `s` reads as: nothing where `s` starts with
/// no digit, else the value of all digits at the front and how many they are;
/// a value that does not fit in 64 bits is out of range.
pub open spec fn number(s: Seq<u8>) -> Result<Option<(u64, nat)>, DecodeError> {
    let count = leading_digits(s);
    if count == 0 {
        Ok(None)
    } else if digits_value(s.take(count as int)) > u64::MAX {
        Err(DecodeError::OutOfRange)
    } else {
        Ok(Some((digits_value(s.take(count as int)) as u64, count)))
    }
}

pub proof fn lemma_leading_digits_bound(s: Seq<u8>)
    ensures
        leading_digits(s) <= s.len(),
        forall|i: int| 0 <= i < leading_digits(s) ==> is_digit(#[trigger] s[i]),
        leading_digits(s) < s.len() ==> !is_digit(s[leading_digits(s) as int]),
    decreases s.len(),
{
    if s.len() > 0 && is_digit(s[0]) {
        lemma_leading_digits_bound(s.skip(1));
        assert forall|i: int| 0 <= i < leading_digits(s) implies is_digit(#[trigger] s[i]) by {
            if i > 0 {
                assert(s[i] == s.skip(1)[i - 1]);
            }
        }
        if leading_digits(s) < s.len() {
            assert(s[leading_digits(s) as int] == s.skip(1)[leading_digits(s) - 1]);
        }
    }
}

/// Digits followed by something that is no digit are all the leading digits.
pub proof fn lemma_leading_digits_of(digits: Seq<u8>, rest: Seq<u8>)
    requires
        forall|i: int| 0 <= i < digits.len() ==> is_digit(#[trigger] digits[i]),
        rest.len() == 0 || !is_digit(rest[0]),
    ensures
        leading_digits(digits + rest) == digits.len(),
    decreases digits.len(),
{
    if digits.len() == 0 {
        assert(digits + rest =~= rest);
    } else {
        assert((digits + rest).skip(1) =~= digits.skip(1) + rest);
        assert forall|i: int| 0 <= i < digits.skip(1).len() implies is_digit(
            #[trigger] digits.skip(1)[i],
        ) by {
            assert(digits.skip(1)[i] == digits[i + 1]);
        }
        lemma_leading_digits_of(digits.skip(1), rest);
        assert((digits + rest)[0] == digits[0]);
    }
}

/// Decimal text is made of digits and spells its number.
pub proof fn lemma_decimal(n: nat)
    ensures
        decimal(n).len() >= 1,
        forall|i: int| 0 <= i < decimal(n).len() ==> is_digit(#[trigger] decimal(n)[i]),
        digits_value(decimal(n)) == n,
    decreases n,
{
    if n < 10 {
        assert(decimal(n).drop_last() =~= Seq::<u8>::empty());
        assert(digits_value(decimal(n).drop_last()) == 0);
    } else {
        lemma_decimal(n / 10);
        assert(decimal(n).drop_last() =~= decimal(n / 10));
    }
}

/// A number written in decimal and followed by something that is no digit
/// reads back as itself.
pub proof fn lemma_number_of_decimal(n: u64, rest: Seq<u8>)
    requires
        rest.len() == 0 || !is_digit(rest[0]),
    ensures
        number(decimal(n as nat) + rest) == Ok::<_, DecodeError>(
            Some((n, decimal(n as nat).len())),
        ),
{
    lemma_decimal(n as nat);
    lemma_leading_digits_of(decimal(n as nat), rest);
    assert((decimal(n as nat) + rest).take(decimal(n as nat).len() as int) =~= decimal(n as nat));
}

/// What does not start with a digit reads as no number.
pub proof fn lemma_number_absent(s: Seq<u8>)
    requires
        s.len() == 0 || !is_digit(s[0]),
    ensures
        number(s) == Ok::<Option<(u64, nat)>, DecodeError>(None),
{
}

proof fn lemma_digits_value_grows(s: Seq<u8>, k: int, m: int)
    requires
        0 <= k <= m <= s.len(),
        forall|i: int| 0 <= i < m ==> is_digit(#[trigger] s[i]),
    ensures
        digits_value(s.take(k)) <= digits_value(s.take(m)),
    decreases m - k,
{
    if k < m {
        lemma_digits_value_grows(s, k, m - 1);
        assert(s.take(m).drop_last() =~= s.take(m - 1));
    }
}

/// Appends the decimal text of `n` to `out`.
pub fn push_decimal(out: &mut Vec<u8>, n: u64)
    ensures
        final(out)@ == old(out)@ + decimal(n as nat),
    decreases n,
{
    if n >= 10 {
        push_decimal(out, n / 10);
    }
    out.push(0x30 + (n % 10) as u8);
    assert(out@ =~= old(out)@ + decimal(n as nat));
}

/// Reads the number at the front of `data`.
pub fn read_number(data: &[u8]) -> (r: Result<Option<(u64, usize)>, DecodeError>)
    ensures
        match number(data@) {
            Ok(Some((value, count))) => r == Ok::<_, DecodeError>(Some((value, count as usize)))
                && count <= data@.len(),
            Ok(None) => r == Ok::<Option<(u64, usize)>, DecodeError>(None),
            Err(e) => r == Err::<Option<(u64, usize)>, _>(e),
        },
{
    let mut value: u64 = 0;
    let mut i: usize = 0;
    proof {
        lemma_leading_digits_bound(data@);
        assert(data@.skip(0) =~= data@);
    }
    while i < data.len() && 0x30 <= data[i] && data[i] <= 0x39
        invariant
            i <= data.len(),
            leading_digits(data@) == i + leading_digits(data@.skip(i as int)),
            leading_digits(data@) <= data@.len(),
            forall|k: int| 0 <= k < leading_digits(data@) ==> is_digit(#[trigger] data@[k]),
            value == digits_value(data@.take(i as int)),
        decreases data.len() - i,
    {
        let digit: u64 = (data[i] - 0x30) as u64;
        proof {
            assert(data@.skip(i as int).skip(1) =~= data@.skip(i + 1));
            assert(data@.take(i + 1).drop_last() =~= data@.take(i as int));
            lemma_digits_value_grows(data@, i + 1, leading_digits(data@) as int);
        }
        let next = match value.checked_mul(10) {
            Some(tens) => tens.checked_add(digit),
            None => None,
        };
        match next {
            Some(v) => {
                value = v;
            },
            None => {
                return Err(DecodeError::OutOfRange);
            },
        }
        i += 1;
    }
    if i == 0 {
        Ok(None)
    } else {
        Ok(Some((value, i)))
    }
}

} // verus!
