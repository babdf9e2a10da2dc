//! Percent-decoding of `%XX` escapes in path fragments.
//!
//! The decoder scans left to right: a `%` followed by two hexadecimal
//! digits emits the encoded byte; anything else, including a malformed
//! escape, passes through unchanged. Decoding never fails.

use vstd::prelude::*;

verus! {

/// True of the ASCII code of a hexadecimal digit (`0-9`, `A-F`, `a-f`).
pub open spec fn is_hex_digit(b: u8) -> bool {
    (0x30 <= b && b <= 0x39) || (0x41 <= b && b <= 0x46) || (0x61 <= b && b <= 0x66)
}

/// Numeric value of a hexadecimal digit.
pub open spec fn hex_value(b: u8) -> u8 {
    if 0x30 <= b && b <= 0x39 {
        (b - 0x30) as u8
    } else if 0x41 <= b && b <= 0x46 {
        (b - 0x41 + 10) as u8
    } else {
        (b - 0x61 + 10) as u8
    }
}

/// The decoded form of the suffix of `s` that starts at `i`.
pub open spec fn percent_decoded_from(s: Seq<u8>, i: int) -> Seq<u8>
    decreases s.len() - i
        when 0 <= i
{
    if i >= s.len() {
        Seq::empty()
    } else if s[i] == 0x25 && i + 2 < s.len() && is_hex_digit(s[i + 1]) && is_hex_digit(
        s[i + 2],
    ) {
        seq![(hex_value(s[i + 1]) * 16 + hex_value(s[i + 2])) as u8] + percent_decoded_from(
            s,
            i + 3,
        )
    } else {
        seq![s[i]] + percent_decoded_from(s, i + 1)
    }
}

/// The decoded form of a whole byte string.
pub open spec fn percent_decoded(s: Seq<u8>) -> Seq<u8> {
    percent_decoded_from(s, 0)
}

/// Value of a hexadecimal digit byte, or `None` where the byte is no digit.
fn hex_digit_value(b: u8) -> (r: Option<u8>)
    ensures
        is_hex_digit(b) ==> r == Some(hex_value(b)) && hex_value(b) < 16,
        !is_hex_digit(b) ==> r is None,
{
    if 0x30 <= b && b <= 0x39 {
        Some(b - 0x30)
    } else if 0x41 <= b && b <= 0x46 {
        Some(b - 0x41 + 10)
    } else if 0x61 <= b && b <= 0x66 {
        Some(b - 0x61 + 10)
    } else {
        None
    }
}

/// Decodes `%XX` escapes into raw bytes; malformed escapes degrade to
/// literal output, so decoding never fails.
pub fn urlencoding_decode(input: &[u8]) -> (r: Vec<u8>)
    ensures
        r@ == percent_decoded(input@),
{
    let mut result: Vec<u8> = Vec::new();
    let mut i: usize = 0;
    while i < input.len()
        invariant
            i <= input.len(),
            result@ + percent_decoded_from(input@, i as int) == percent_decoded(input@),
        decreases input.len() - i,
    {
        let ghost pre = result@;
        if input[i] == 0x25 && input.len() - i > 2 {
            let h1 = hex_digit_value(input[i + 1]);
            let h2 = hex_digit_value(input[i + 2]);
            match (h1, h2) {
                (Some(a), Some(b)) => {
                    let v: u8 = a * 16 + b;
                    result.push(v);
                    proof {
                        assert((pre + seq![v]) + percent_decoded_from(input@, i + 3) =~= pre + (
                        seq![v] + percent_decoded_from(input@, i + 3)));
                    }
                    i = i + 3;
                },
                _ => {
                    let c = input[i];
                    result.push(c);
                    proof {
                        assert((pre + seq![c]) + percent_decoded_from(input@, i + 1) =~= pre + (
                        seq![c] + percent_decoded_from(input@, i + 1)));
                    }
                    i = i + 1;
                },
            }
        } else {
            let c = input[i];
            result.push(c);
            proof {
                assert((pre + seq![c]) + percent_decoded_from(input@, i + 1) =~= pre + (seq![c]
                    + percent_decoded_from(input@, i + 1)));
            }
            i = i + 1;
        }
    }
    proof {
        assert(result@ + percent_decoded_from(input@, i as int) =~= result@);
    }
    result
}

} // verus!
