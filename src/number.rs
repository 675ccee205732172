use vstd::prelude::*;

verus! {

pub open spec fn is_digit(b: u8) -> bool {
    48 <= b <= 57
}

pub open spec fn all_digits(s: Seq<u8>) -> bool {
    forall|i: int| 0 <= i < s.len() ==> is_digit(#[trigger] s[i])
}

/// The number that a string of decimal digits denotes.
pub open spec fn digits_value(s: Seq<u8>) -> int
    decreases s.len(),
{
    if s.len() == 0 {
        0
    } else {
        digits_value(s.drop_last()) * 10 + (s.last() - 48)
    }
}

/// The 64-bit integer that `s` spells: an optional `+` or `-`, then at
/// least one decimal digit; `None` where the text is anything else or the
/// number does not fit in 64 bits.
pub open spec fn parse_i64(s: Seq<u8>) -> Option<i64> {
    let signed = s.len() > 0 && (s[0] == 45u8 || s[0] == 43u8);
    let digits = if signed { s.drop_first() } else { s };
    let magnitude = digits_value(digits);
    let n = if signed && s[0] == 45u8 { -magnitude } else { magnitude };
    if digits.len() > 0 && all_digits(digits) && i64::MIN <= n <= i64::MAX {
        Some(n as i64)
    } else {
        None
    }
}

pub proof fn lemma_digits_value_prefix(s: Seq<u8>, i: int)
    requires
        all_digits(s),
        0 <= i <= s.len(),
    ensures
        0 <= digits_value(s.take(i)) <= digits_value(s),
    decreases s.len(),
{
    if i < s.len() {
        assert(s.drop_last().take(i) == s.take(i));
        lemma_digits_value_prefix(s.drop_last(), i);
    } else {
        assert(s.take(i) == s);
        if s.len() > 0 {
            lemma_digits_value_prefix(s.drop_last(), s.len() - 1);
            assert(s.drop_last().take(s.len() - 1) == s.drop_last());
        }
    }
}

/// Text that starts with a digit carries no sign, so it spells no
/// negative number.
pub proof fn lemma_parse_i64_unsigned(s: Seq<u8>)
    requires
        s.len() > 0,
        is_digit(s[0]),
    ensures
        parse_i64(s) matches Some(n) ==> n >= 0,
{
    if all_digits(s) {
        lemma_digits_value_prefix(s, 0);
    }
}

/// Reads the decimal digits `s[from..]` into a magnitude; `None` once it
/// exceeds `2^63`, past which no 64-bit integer lies.
fn digits_magnitude(s: &[u8], from: usize) -> (r: Option<u128>)
    requires
        from <= s.len(),
        all_digits(s@.subrange(from as int, s.len() as int)),
    ensures
        r matches Some(m) ==> m == digits_value(s@.subrange(from as int, s.len() as int)) && m
            <= 0x8000_0000_0000_0000,
        r is None ==> digits_value(s@.subrange(from as int, s.len() as int)) > 0x8000_0000_0000_0000,
{
    let ghost digits = s@.subrange(from as int, s.len() as int);
    let mut acc: u128 = 0;
    let mut i: usize = from;
    while i < s.len()
        invariant
            from <= i <= s.len(),
            digits == s@.subrange(from as int, s.len() as int),
            all_digits(digits),
            acc == digits_value(digits.take(i - from)),
            acc <= 0x8000_0000_0000_0000,
        decreases s.len() - i,
    {
        assert(digits.take(i - from + 1).drop_last() == digits.take(i - from));
        assert(is_digit(digits[i - from]));
        acc = acc * 10 + (s[i] - 48u8) as u128;
        i += 1;
        if acc > 0x8000_0000_0000_0000 {
            proof {
                lemma_digits_value_prefix(digits, i - from);
            }
            return None;
        }
    }
    assert(digits.take(i - from) == digits);
    Some(acc)
}

/// `str::parse::<i64>` on the bytes of `s`.
pub fn parse_i64_bytes(s: &[u8]) -> (r: Option<i64>)
    ensures
        r == parse_i64(s@),
{
    let signed = s.len() > 0 && (s[0] == 45u8 || s[0] == 43u8);
    let from: usize = if signed { 1 } else { 0 };
    let ghost digits = s@.subrange(from as int, s.len() as int);
    assert(signed ==> digits == s@.drop_first());
    assert(!signed ==> digits == s@);
    if from == s.len() {
        return None;
    }
    let mut i: usize = from;
    while i < s.len()
        invariant
            from <= i <= s.len(),
            digits == s@.subrange(from as int, s.len() as int),
            signed ==> digits == s@.drop_first(),
            !signed ==> digits == s@,
            signed == (s@.len() > 0 && (s@[0] == 45u8 || s@[0] == 43u8)),
            forall|j: int| from <= j < i ==> is_digit(#[trigger] s@[j]),
        decreases s.len() - i,
    {
        if s[i] < 48u8 || s[i] > 57u8 {
            assert(!is_digit(digits[i - from]));
            return None;
        }
        i += 1;
    }
    assert(all_digits(digits)) by {
        assert forall|k: int| 0 <= k < digits.len() implies is_digit(#[trigger] digits[k]) by {
            assert(digits[k] == s@[k + from]);
        }
    }
    match digits_magnitude(s, from) {
        None => None,
        Some(m) => {
            if signed && s[0] == 45u8 {
                if m == 0x8000_0000_0000_0000 {
                    Some(i64::MIN)
                } else {
                    Some(-(m as i64))
                }
            } else if m > 0x7fff_ffff_ffff_ffff {
                None
            } else {
                Some(m as i64)
            }
        },
    }
}

} // verus!
