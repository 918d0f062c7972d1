//! Decimal numerals: parsing attribute values into unsigned integers and
//! rendering integers back into strings, both against one mathematical
//! definition of a base-ten numeral.

use vstd::prelude::*;

verus! {

/// `c` is one of the ten decimal digit characters.
pub open spec fn is_digit(c: char) -> bool {
    '0' <= c && c <= '9'
}

/// Numeric value of a digit character.
pub open spec fn digit_val(c: char) -> nat {
    (c as nat - '0' as nat) as nat
}

/// Every character of `s` is a decimal digit.
pub open spec fn all_digits(s: Seq<char>) -> bool {
    forall|i: int| 0 <= i < s.len() ==> is_digit(s[i])
}

/// Value of a digit string read in base ten, most significant digit first.
pub open spec fn dec_val(s: Seq<char>) -> nat
    decreases s.len(),
{
    if s.len() == 0 {
        0
    } else {
        dec_val(s.drop_last()) * 10 + digit_val(s.last())
    }
}

/// What parsing a string as a `u64` yields: an optional leading `'+'`,
/// then at least one digit, and a value that fits in 64 bits.
pub open spec fn spec_parse_u64(s: Seq<char>) -> Option<u64> {
    let body = if s.len() > 0 && s[0] == '+' {
        s.skip(1)
    } else {
        s
    };
    if body.len() > 0 && all_digits(body) && dec_val(body) <= u64::MAX {
        Some(dec_val(body) as u64)
    } else {
        None
    }
}

/// What parsing a string as a `u16` yields.
pub open spec fn spec_parse_u16(s: Seq<char>) -> Option<u16> {
    let body = if s.len() > 0 && s[0] == '+' {
        s.skip(1)
    } else {
        s
    };
    if body.len() > 0 && all_digits(body) && dec_val(body) <= u16::MAX {
        Some(dec_val(body) as u16)
    } else {
        None
    }
}

/// The value of a digit string bounds the value of each of its prefixes.
proof fn lemma_dec_val_prefix(s: Seq<char>, j: int)
    requires
        0 <= j <= s.len(),
    ensures
        dec_val(s.take(j)) <= dec_val(s),
    decreases s.len(),
{
    if j < s.len() {
        assert(s.drop_last().take(j) == s.take(j));
        lemma_dec_val_prefix(s.drop_last(), j);
        assert(dec_val(s.drop_last()) <= dec_val(s.drop_last()) * 10);
    } else {
        assert(s.take(j) == s);
    }
}

/// Parse a string as a decimal `u64`, as `str::parse::<u64>` would.
pub fn parse_u64(s: &str) -> (r: Option<u64>)
    ensures
        r == spec_parse_u64(s@),
{
    let len = s.unicode_len();
    let offset: usize = if len > 0 && s.get_char(0) == '+' {
        1
    } else {
        0
    };
    let ghost body = if offset == 1 { s@.skip(1) } else { s@ };
    proof {
        assert(body == s@.subrange(offset as int, len as int));
    }
    if len == offset {
        return None;
    }
    let mut i = offset;
    let mut acc: u64 = 0;
    while i < len
        invariant
            offset <= i <= len,
            len == s@.len(),
            body == s@.subrange(offset as int, len as int),
            body == (if s@.len() > 0 && s@[0] == '+' {
                s@.skip(1)
            } else {
                s@
            }),
            all_digits(s@.subrange(offset as int, i as int)),
            acc == dec_val(s@.subrange(offset as int, i as int)),
        decreases len - i,
    {
        let c = s.get_char(i);
        if !('0' <= c && c <= '9') {
            assert(body[i - offset] == c);
            assert(!all_digits(body));
            return None;
        }
        let d: u64 = (c as u32 - '0' as u32) as u64;
        let ghost prefix = s@.subrange(offset as int, i as int);
        let ghost prefix1 = s@.subrange(offset as int, i + 1 as int);
        proof {
            assert(prefix1.drop_last() == prefix);
            assert(prefix1.last() == c);
            assert(dec_val(prefix1) == acc * 10 + d);
        }
        let step = match acc.checked_mul(10) {
            Some(m) => m.checked_add(d),
            None => None,
        };
        match step {
            Some(next) => {
                acc = next;
            },
            None => {
                proof {
                    assert(dec_val(prefix1) > u64::MAX);
                    assert(body.take(i + 1 - offset) == prefix1);
                    lemma_dec_val_prefix(body, i + 1 - offset);
                }
                return None;
            },
        }
        i += 1;
    }
    proof {
        assert(s@.subrange(offset as int, i as int) == body);
    }
    Some(acc)
}

/// Parse a string as a decimal `u16`, as `str::parse::<u16>` would.
pub fn parse_u16(s: &str) -> (r: Option<u16>)
    ensures
        r == spec_parse_u16(s@),
{
    match parse_u64(s) {
        Some(v) => {
            if v <= 65535 {
                Some(v as u16)
            } else {
                None
            }
        },
        None => None,
    }
}

/// The digit character for a value below ten.
pub open spec fn digit_char(d: nat) -> char {
    if d == 0 {
        '0'
    } else if d == 1 {
        '1'
    } else if d == 2 {
        '2'
    } else if d == 3 {
        '3'
    } else if d == 4 {
        '4'
    } else if d == 5 {
        '5'
    } else if d == 6 {
        '6'
    } else if d == 7 {
        '7'
    } else if d == 8 {
        '8'
    } else {
        '9'
    }
}

/// The decimal numeral of `n`: no sign, no leading zero except for zero itself.
pub open spec fn dec_str(n: nat) -> Seq<char>
    decreases n,
{
    if n < 10 {
        seq![digit_char(n)]
    } else {
        dec_str(n / 10) + seq![digit_char(n % 10)]
    }
}

/// A numeral consists of digits only and is never empty.
pub proof fn lemma_dec_str_digits(n: nat)
    ensures
        all_digits(dec_str(n)),
        dec_str(n).len() >= 1,
    decreases n,
{
    if n >= 10 {
        lemma_dec_str_digits(n / 10);
    }
}

/// Reading a numeral back gives the number it was made from.
pub proof fn lemma_dec_val_of_dec_str(n: nat)
    ensures
        dec_val(dec_str(n)) == n,
    decreases n,
{
    if n < 10 {
        assert(dec_str(n).drop_last() == Seq::<char>::empty());
        assert(dec_val(Seq::<char>::empty()) == 0);
        assert(dec_val(dec_str(n)) == digit_val(digit_char(n)));
    } else {
        lemma_dec_val_of_dec_str(n / 10);
        let s = dec_str(n);
        assert(s.drop_last() == dec_str(n / 10));
        assert(s.last() == digit_char(n % 10));
        assert(digit_val(digit_char(n % 10)) == n % 10);
        vstd::arithmetic::div_mod::lemma_fundamental_div_mod(n as int, 10);
    }
}

/// Parsing inverts rendering for every value that fits.
pub proof fn lemma_parse_of_dec_str_u64(n: u64)
    ensures
        spec_parse_u64(dec_str(n as nat)) == Some(n),
{
    lemma_dec_str_digits(n as nat);
    lemma_dec_val_of_dec_str(n as nat);
    assert(is_digit(dec_str(n as nat)[0]));
    assert(dec_str(n as nat)[0] != '+');
}

/// Parsing inverts rendering for every 16-bit value.
pub proof fn lemma_parse_of_dec_str_u16(n: u16)
    ensures
        spec_parse_u16(dec_str(n as nat)) == Some(n),
{
    lemma_dec_str_digits(n as nat);
    lemma_dec_val_of_dec_str(n as nat);
    assert(is_digit(dec_str(n as nat)[0]));
    assert(dec_str(n as nat)[0] != '+');
}

/// One-character string for a digit value.
fn digit_str(d: u64) -> (r: &'static str)
    requires
        d < 10,
    ensures
        r@ == seq![digit_char(d as nat)],
{
    proof {
        reveal_strlit("0");
        reveal_strlit("1");
        reveal_strlit("2");
        reveal_strlit("3");
        reveal_strlit("4");
        reveal_strlit("5");
        reveal_strlit("6");
        reveal_strlit("7");
        reveal_strlit("8");
        reveal_strlit("9");
    }
    let r = if d == 0 {
        "0"
    } else if d == 1 {
        "1"
    } else if d == 2 {
        "2"
    } else if d == 3 {
        "3"
    } else if d == 4 {
        "4"
    } else if d == 5 {
        "5"
    } else if d == 6 {
        "6"
    } else if d == 7 {
        "7"
    } else if d == 8 {
        "8"
    } else {
        "9"
    };
    proof {
        assert(r@ =~= seq![digit_char(d as nat)]);
    }
    r
}

/// Append the decimal numeral of `n` to `out`.
fn push_dec(n: u64, out: &mut String)
    ensures
        final(out)@ == old(out)@ + dec_str(n as nat),
    decreases n,
{
    if n >= 10 {
        push_dec(n / 10, out);
    }
    out.append(digit_str(n % 10));
    proof {
        if n >= 10 {
            assert(old(out)@ + dec_str((n / 10) as nat) + seq![digit_char((n % 10) as nat)]
                =~= old(out)@ + dec_str(n as nat));
        } else {
            assert(old(out)@ + seq![digit_char(n as nat)] =~= old(out)@ + dec_str(n as nat));
        }
    }
}

/// Render `n` as its decimal numeral.
pub fn u64_to_string(n: u64) -> (r: String)
    ensures
        r@ == dec_str(n as nat),
{
    let mut out = String::new();
    push_dec(n, &mut out);
    proof {
        assert(Seq::<char>::empty() + dec_str(n as nat) =~= dec_str(n as nat));
    }
    out
}

} // verus!
