//! Lowercase hexadecimal encoding of byte strings, as stored in metadata files.
use vstd::prelude::*;
use vstd::string::*;
use vstd::utf8::*;

use crate::store::StoreError;
use crate::text::push_char;

verus! {

/// The lowercase hex digit for `d` (`0`-`9`, then `a`-`f`).
pub open spec fn hex_char(d: nat) -> char {
    if d < 10 {
        (d + 48) as char
    } else {
        (d + 87) as char
    }
}

/// Two lowercase hex digits per byte, high nibble first.
pub open spec fn hex_encode_spec(b: Seq<u8>) -> Seq<char> {
    Seq::new(
        2 * b.len(),
        |j: int|
            if j % 2 == 0 {
                hex_char((b[j / 2] / 16) as nat)
            } else {
                hex_char((b[j / 2] % 16) as nat)
            },
    )
}

/// The value of a hex digit byte, either case; `None` for any other byte.
pub open spec fn hex_value_spec(b: u8) -> Option<u8> {
    if 48 <= b <= 57 {
        Some((b - 48) as u8)
    } else if 97 <= b <= 102 {
        Some((b - 87) as u8)
    } else if 65 <= b <= 70 {
        Some((b - 55) as u8)
    } else {
        None
    }
}

/// Decoding of hex text given as its bytes: an odd length is refused first,
/// then any byte that is not a hex digit; otherwise each pair gives a byte.
pub open spec fn hex_decode_spec(b: Seq<u8>) -> Result<Seq<u8>, StoreError> {
    if b.len() % 2 != 0 {
        Err(StoreError::OddHexLength)
    } else if exists|i: int| 0 <= i < b.len() && (#[trigger] hex_value_spec(b[i])) is None {
        Err(StoreError::BadHexDigit)
    } else {
        Ok(
            Seq::new(
                b.len() / 2,
                |k: int|
                    (hex_value_spec(b[2 * k])->0 * 16 + hex_value_spec(b[2 * k + 1])->0) as u8,
            ),
        )
    }
}

/// Encodes bytes as lowercase hex, two digits per byte.
pub fn hex_encode_bytes(bytes: &[u8]) -> (s: String)
    ensures
        s@ == hex_encode_spec(bytes@),
{
    let mut out = String::new();
    let mut i: usize = 0;
    while i < bytes.len()
        invariant
            i <= bytes@.len(),
            out@ == hex_encode_spec(bytes@.subrange(0, i as int)),
        decreases bytes@.len() - i,
    {
        let byte = bytes[i];
        let hi = byte >> 4;
        let lo = byte & 0x0f;
        assert(byte >> 4 == byte / 16 && byte & 0x0f == byte % 16) by (bit_vector);
        let hc = if hi < 10 {
            (48u8 + hi) as char
        } else {
            (87u8 + hi) as char
        };
        let lc = if lo < 10 {
            (48u8 + lo) as char
        } else {
            (87u8 + lo) as char
        };
        let ghost before = out@;
        push_char(&mut out, hc);
        push_char(&mut out, lc);
        proof {
            let prev = bytes@.subrange(0, i as int);
            let next = bytes@.subrange(0, i + 1);
            assert forall|j: int| 0 <= j < 2 * next.len() implies #[trigger] out@[j]
                == hex_encode_spec(next)[j] by {
                if j < 2 * i {
                    assert(next[j / 2] == prev[j / 2]);
                    assert(out@[j] == before[j]);
                } else if j == 2 * i {
                    assert(j / 2 == i);
                } else {
                    assert(j / 2 == i);
                }
            }
            assert(out@ =~= hex_encode_spec(next));
        }
        i = i + 1;
    }
    assert(bytes@.subrange(0, bytes@.len() as int) =~= bytes@);
    out
}

/// The value of one hex digit byte.
pub fn hex_value(byte: u8) -> (r: Result<u8, StoreError>)
    ensures
        r matches Ok(v) ==> hex_value_spec(byte) == Some(v),
        r matches Err(e) ==> hex_value_spec(byte) is None && e == StoreError::BadHexDigit,
{
    if 48 <= byte && byte <= 57 {
        Ok(byte - 48)
    } else if 97 <= byte && byte <= 102 {
        Ok(byte - 87)
    } else if 65 <= byte && byte <= 70 {
        Ok(byte - 55)
    } else {
        Err(StoreError::BadHexDigit)
    }
}

/// Decodes hex text (either case) back into bytes.
pub fn hex_decode_bytes(value: &str) -> (r: Result<Vec<u8>, StoreError>)
    ensures
        r matches Ok(v) ==> hex_decode_spec(value.spec_bytes()) == Ok::<Seq<u8>, StoreError>(v@),
        r matches Err(e) ==> hex_decode_spec(value.spec_bytes()) == Err::<Seq<u8>, StoreError>(e),
{
    let bytes = value.as_bytes();
    let ghost b = value.spec_bytes();
    let n = bytes.len();
    if n % 2 != 0 {
        return Err(StoreError::OddHexLength);
    }
    let mut out: Vec<u8> = Vec::new();
    let mut k: usize = 0;
    while k < n / 2
        invariant
            b == bytes@,
            b == value.spec_bytes(),
            n == b.len(),
            n % 2 == 0,
            k <= n / 2,
            out@.len() == k,
            forall|i: int| 0 <= i < 2 * k ==> (#[trigger] hex_value_spec(b[i])) is Some,
            forall|m: int|
                0 <= m < k ==> #[trigger] out@[m] == (hex_value_spec(b[2 * m])->0 * 16
                    + hex_value_spec(b[2 * m + 1])->0) as u8,
        decreases n / 2 - k,
    {
        let high = match hex_value(bytes[2 * k]) {
            Ok(h) => h,
            Err(e) => {
                assert(hex_value_spec(b[2 * k as int]) is None);
                assert(exists|i: int| 0 <= i < b.len() && (#[trigger] hex_value_spec(b[i])) is None);
                return Err(e);
            },
        };
        let low = match hex_value(bytes[2 * k + 1]) {
            Ok(l) => l,
            Err(e) => {
                assert(hex_value_spec(b[2 * k + 1]) is None);
                assert(exists|i: int| 0 <= i < b.len() && (#[trigger] hex_value_spec(b[i])) is None);
                return Err(e);
            },
        };
        out.push(high * 16 + low);
        k = k + 1;
    }
    proof {
        assert(!(exists|i: int| 0 <= i < b.len() && (#[trigger] hex_value_spec(b[i])) is None));
        let expect = Seq::new(
            b.len() / 2,
            |m: int| (hex_value_spec(b[2 * m])->0 * 16 + hex_value_spec(b[2 * m + 1])->0) as u8,
        );
        assert(out@ =~= expect);
    }
    Ok(out)
}

/// Hex text is plain ASCII, so its bytes are its characters.
pub proof fn lemma_hex_ascii(b: Seq<u8>)
    ensures
        encode_utf8(hex_encode_spec(b)).len() == 2 * b.len(),
        forall|j: int|
            0 <= j < 2 * b.len() ==> #[trigger] encode_utf8(hex_encode_spec(b))[j]
                == hex_encode_spec(b)[j] as u8,
{
    let s = hex_encode_spec(b);
    assert(is_ascii_chars(s));
    is_ascii_chars_encode_utf8(s);
}

/// Decoding the hex text of any byte string gives back the same bytes.
pub proof fn law_hex_round_trip(b: Seq<u8>)
    ensures
        hex_decode_spec(encode_utf8(hex_encode_spec(b))) == Ok::<Seq<u8>, StoreError>(b),
{
    let s = hex_encode_spec(b);
    let e = encode_utf8(s);
    lemma_hex_ascii(b);
    assert forall|j: int| 0 <= j < e.len() implies (#[trigger] hex_value_spec(e[j])) is Some
        && hex_value_spec(e[j])->0 == (if j % 2 == 0 {
        b[j / 2] / 16
    } else {
        b[j / 2] % 16
    }) by {
        assert(e[j] == s[j] as u8);
    }
    assert(e.len() % 2 == 0);
    let d = Seq::new(
        e.len() / 2,
        |m: int| (hex_value_spec(e[2 * m])->0 * 16 + hex_value_spec(e[2 * m + 1])->0) as u8,
    );
    assert forall|m: int| 0 <= m < b.len() implies #[trigger] d[m] == b[m] by {
        assert((2 * m) % 2 == 0 && (2 * m) / 2 == m);
        assert((2 * m + 1) % 2 == 1 && (2 * m + 1) / 2 == m);
        assert(hex_value_spec(e[2 * m])->0 == b[m] / 16);
        assert(hex_value_spec(e[2 * m + 1])->0 == b[m] % 16);
    }
    assert(d =~= b);
}

} // verus!
