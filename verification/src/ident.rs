use vstd::prelude::*;

use crate::types::AppError;

verus! {

/// Whether `c` is an ASCII hexadecimal digit.
pub open spec fn is_hex_digit(c: char) -> bool {
    (48 <= c as u32 <= 57) || (97 <= c as u32 <= 102) || (65 <= c as u32 <= 70)
}

/// The numeric value of an ASCII hexadecimal digit.
pub open spec fn hex_val(c: char) -> int {
    if 48 <= c as u32 <= 57 {
        c as u32 - 48
    } else if 97 <= c as u32 <= 102 {
        c as u32 - 87
    } else {
        c as u32 - 55
    }
}

/// Whether position `i` of an id token holds a group separator.
pub open spec fn is_dash_pos(i: int) -> bool {
    i == 8 || i == 13 || i == 18 || i == 23
}

/// A well-formed id token: thirty-two hexadecimal digits in five groups
/// separated by dashes.
pub open spec fn id_text_valid(s: Seq<char>) -> bool {
    &&& s.len() == 36
    &&& forall|i: int|
        0 <= i < 36 ==> (if is_dash_pos(i) {
            s[i] == '-'
        } else {
            is_hex_digit(#[trigger] s[i])
        })
}

/// The value spelled by the first `n` characters of an id token, dashes
/// skipped, most significant digit first.
pub open spec fn id_value_prefix(s: Seq<char>, n: int) -> int
    decreases n,
{
    if n <= 0 {
        0
    } else {
        let prev = id_value_prefix(s, n - 1);
        if is_dash_pos(n - 1) {
            prev
        } else {
            prev * 16 + hex_val(s[n - 1])
        }
    }
}

/// The 128-bit value an id token spells.
pub open spec fn id_value(s: Seq<char>) -> int {
    id_value_prefix(s, 36)
}

/// How many hexadecimal digits the first `i` positions of a token hold.
pub open spec fn digit_count(i: int) -> int {
    i - (if i > 8 {
        1int
    } else {
        0int
    }) - (if i > 13 {
        1int
    } else {
        0int
    }) - (if i > 18 {
        1int
    } else {
        0int
    }) - (if i > 23 {
        1int
    } else {
        0int
    })
}

/// Sixteen to the `k`.
pub open spec fn pow16(k: int) -> int
    decreases k,
{
    if k <= 0 {
        1
    } else {
        16 * pow16(k - 1)
    }
}

/// Powers of sixteen never fall below one.
proof fn lemma_pow16_pos(k: int)
    ensures
        pow16(k) >= 1,
    decreases k,
{
    if k > 0 {
        lemma_pow16_pos(k - 1);
    }
}

/// Powers of sixteen grow with the exponent.
proof fn lemma_pow16_le(a: int, b: int)
    requires
        0 <= a <= b,
    ensures
        1 <= pow16(a) <= pow16(b),
    decreases b,
{
    lemma_pow16_pos(a);
    if a < b {
        lemma_pow16_le(a, b - 1);
        assert(pow16(b) == 16 * pow16(b - 1));
        assert(pow16(b - 1) >= 1);
    }
}

/// Reads the hexadecimal digit at position `i`, or reports a malformed
/// token.
fn read_hex(s: &str, i: usize) -> (r: Result<u8, AppError>)
    requires
        i < s@.len(),
    ensures
        r matches Ok(v) ==> is_hex_digit(s@[i as int]) && v as int == hex_val(s@[i as int]) && v
            < 16,
        r is Err ==> !is_hex_digit(s@[i as int]),
        r matches Err(e) ==> e == AppError::Malformed,
{
    let c = s.get_char(i);
    let u = c as u32;
    if 48 <= u && u <= 57 {
        Ok((u - 48) as u8)
    } else if 97 <= u && u <= 102 {
        Ok((u - 87) as u8)
    } else if 65 <= u && u <= 70 {
        Ok((u - 55) as u8)
    } else {
        Err(AppError::Malformed)
    }
}

/// Parses a textual id token — five dash-separated groups of hexadecimal
/// digits, thirty-two digits in all — into its 128-bit value.  Succeeds
/// exactly on the tokens that `id_text_valid` admits; every other token
/// is the client's error.
pub fn parse_id(s: &str) -> (r: Result<u128, AppError>)
    ensures
        r is Ok <==> id_text_valid(s@),
        r matches Ok(v) ==> v as int == id_value(s@),
        r matches Err(e) ==> e == AppError::Malformed,
{
    let n = s.unicode_len();
    if n != 36 {
        return Err(AppError::Malformed);
    }
    let mut acc: u128 = 0;
    let mut i: usize = 0;
    while i < 36
        invariant
            0 <= i <= 36,
            s@.len() == 36,
            acc as int == id_value_prefix(s@, i as int),
            (acc as int) < pow16(digit_count(i as int)),
            digit_count(i as int) <= 32,
            forall|j: int|
                0 <= j < i ==> (if is_dash_pos(j) {
                    s@[j] == '-'
                } else {
                    is_hex_digit(#[trigger] s@[j])
                }),
        decreases 36 - i,
    {
        if i == 8 || i == 13 || i == 18 || i == 23 {
            if s.get_char(i) != '-' {
                return Err(AppError::Malformed);
            }
        } else {
            let v = read_hex(s, i)?;
            proof {
                reveal_with_fuel(pow16, 33);
                assert(pow16(32) == 0x100000000000000000000000000000000);
                assert(digit_count(i as int + 1) == digit_count(i as int) + 1);
                assert(pow16(digit_count(i as int) + 1) == 16 * pow16(digit_count(i as int)));
                assert((acc as int * 16 + v as int) < pow16(digit_count(i as int) + 1));
                lemma_pow16_le(digit_count(i as int) + 1, 32);
            }
            acc = acc * 16 + v as u128;
        }
        i += 1;
    }
    Ok(acc)
}

} // verus!
