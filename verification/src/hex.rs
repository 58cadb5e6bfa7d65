//! Lower-case hexadecimal text for byte strings.

use vstd::prelude::*;
use vstd::string::*;

verus! {

/// The character that stands for a value below sixteen.
pub open spec fn nibble_char(n: u8) -> char {
    if n < 10 {
        (48 + n) as char
    } else {
        (87 + n) as char
    }
}

/// Whether `c` is one of `0`..`9`, `a`..`f`.
pub open spec fn is_hex_char(c: char) -> bool {
    48 <= c as int <= 57 || 97 <= c as int <= 102
}

/// The value below sixteen that a hexadecimal character stands for.
pub open spec fn nibble_value(c: char) -> u8 {
    if c as int <= 57 {
        (c as int - 48) as u8
    } else {
        (c as int - 87) as u8
    }
}

/// The hexadecimal text of a byte string: two characters per byte, high
/// nibble first.
pub open spec fn hex_chars(bytes: Seq<u8>) -> Seq<char> {
    Seq::new(
        2 * bytes.len(),
        |i: int|
            if i % 2 == 0 {
                nibble_char(bytes[i / 2] / 16)
            } else {
                nibble_char(bytes[i / 2] % 16)
            },
    )
}

/// Whether `s` is the hexadecimal text of some byte string.
pub open spec fn is_hex(s: Seq<char>) -> bool {
    &&& s.len() % 2 == 0
    &&& forall|i: int| 0 <= i < s.len() ==> is_hex_char(#[trigger] s[i])
}

/// The byte string that hexadecimal text stands for.
pub open spec fn hex_bytes(s: Seq<char>) -> Seq<u8> {
    Seq::new(
        s.len() / 2,
        |i: int| (nibble_value(s[2 * i]) * 16 + nibble_value(s[2 * i + 1])) as u8,
    )
}

/// Encoding yields well-formed text that decodes to the bytes it came from.
pub proof fn lemma_hex_round_trip(bytes: Seq<u8>)
    ensures
        is_hex(hex_chars(bytes)),
        hex_chars(bytes).len() == 2 * bytes.len(),
        hex_bytes(hex_chars(bytes)) == bytes,
{
    let s = hex_chars(bytes);
    assert forall|i: int| 0 <= i < s.len() implies is_hex_char(#[trigger] s[i]) by {
        let b = bytes[i / 2];
        assert(b / 16 < 16 && b % 16 < 16);
    }
    assert forall|i: int| 0 <= i < bytes.len() implies hex_bytes(s)[i] == bytes[i] by {
        let b = bytes[i];
        assert((2 * i) % 2 == 0 && (2 * i) / 2 == i);
        assert((2 * i + 1) % 2 == 1 && (2 * i + 1) / 2 == i);
        assert(s[2 * i] == nibble_char(b / 16));
        assert(s[2 * i + 1] == nibble_char(b % 16));
        assert(nibble_value(nibble_char(b / 16)) == b / 16);
        assert(nibble_value(nibble_char(b % 16)) == b % 16);
    }
    assert(hex_bytes(s) =~= bytes);
}

proof fn lemma_nibble_round_trip(c: char)
    requires
        is_hex_char(c),
    ensures
        nibble_value(c) < 16,
        nibble_char(nibble_value(c)) == c,
{
}

proof fn lemma_byte_nibbles(hi: u8, lo: u8)
    requires
        hi < 16,
        lo < 16,
    ensures
        hi * 16 + lo < 256,
        (hi * 16 + lo) / 16 == hi,
        (hi * 16 + lo) % 16 == lo,
{
}

/// Decoding well-formed text yields bytes that encode to the same text.
pub proof fn lemma_hex_bytes_round_trip(s: Seq<char>)
    requires
        is_hex(s),
    ensures
        hex_bytes(s).len() * 2 == s.len(),
        hex_chars(hex_bytes(s)) == s,
{
    let b = hex_bytes(s);
    assert(b.len() * 2 == s.len());
    assert forall|i: int| 0 <= i < s.len() implies hex_chars(b)[i] == s[i] by {
        let j = i / 2;
        assert(0 <= j < b.len());
        assert(is_hex_char(s[2 * j]));
        assert(is_hex_char(s[2 * j + 1]));
        lemma_nibble_round_trip(s[2 * j]);
        lemma_nibble_round_trip(s[2 * j + 1]);
        let hi = nibble_value(s[2 * j]);
        let lo = nibble_value(s[2 * j + 1]);
        lemma_byte_nibbles(hi, lo);
        assert(b[j] == (hi * 16 + lo) as u8);
        if i % 2 == 0 {
            assert(i == 2 * j);
        } else {
            assert(i == 2 * j + 1);
        }
    }
    assert(hex_chars(b) =~= s);
}

fn digit(n: u8) -> (r: &'static str)
    requires
        n < 16,
    ensures
        r@ == seq![nibble_char(n)],
{
    proof {
        reveal_strlit("0");
        reveal_strlit("1");
        reveal_strlit("2");
        reveal_strlit("3");
        reveal_strlit("4");
        reveal_strlit("5");
        reveal_strlit("6");
        reveal_strlit("7");
        reveal_strlit("8");
        reveal_strlit("9");
        reveal_strlit("a");
        reveal_strlit("b");
        reveal_strlit("c");
        reveal_strlit("d");
        reveal_strlit("e");
        reveal_strlit("f");
    }
    let r = if n == 0 {
        "0"
    } else if n == 1 {
        "1"
    } else if n == 2 {
        "2"
    } else if n == 3 {
        "3"
    } else if n == 4 {
        "4"
    } else if n == 5 {
        "5"
    } else if n == 6 {
        "6"
    } else if n == 7 {
        "7"
    } else if n == 8 {
        "8"
    } else if n == 9 {
        "9"
    } else if n == 10 {
        "a"
    } else if n == 11 {
        "b"
    } else if n == 12 {
        "c"
    } else if n == 13 {
        "d"
    } else if n == 14 {
        "e"
    } else {
        "f"
    };
    assert(r@ =~= seq![nibble_char(n)]);
    r
}

/// Writes `bytes` as lower-case hexadecimal text.
pub fn to_hex(bytes: &[u8]) -> (s: String)
    ensures
        s@ == hex_chars(bytes@),
{
    let mut s = String::new();
    let mut i: usize = 0;
    while i < bytes.len()
        invariant
            i <= bytes.len(),
            s@ == hex_chars(bytes@.take(i as int)),
        decreases bytes.len() - i,
    {
        let b = bytes[i];
        s.append(digit(b / 16));
        s.append(digit(b % 16));
        proof {
            let before = bytes@.take(i as int);
            let after = bytes@.take(i + 1);
            assert(after =~= before.push(b));
            assert(hex_chars(after) =~= hex_chars(before) + seq![nibble_char(b / 16)] + seq![
                nibble_char(b % 16),
            ]);
        }
        i += 1;
    }
    proof {
        assert(bytes@.take(i as int) =~= bytes@);
    }
    s
}

fn nibble_of(b: u8) -> (r: Option<u8>)
    ensures
        r is Some <==> (48 <= b <= 57 || 97 <= b <= 102),
        r matches Some(n) ==> n == (if b <= 57 {
            b - 48
        } else {
            b - 87
        }),
{
    if 48 <= b && b <= 57 {
        Some(b - 48)
    } else if 97 <= b && b <= 102 {
        Some(b - 87)
    } else {
        None
    }
}

/// Reads lower-case hexadecimal text; `None` where the text is not
/// well-formed.
pub fn from_hex(s: &str) -> (r: Option<Vec<u8>>)
    ensures
        r is Some <==> is_hex(s@),
        r matches Some(bytes) ==> bytes@ == hex_bytes(s@),
{
    if !s.is_ascii() {
        proof {
            if is_hex(s@) {
                assert forall|i: int| 0 <= i < s@.len() implies (s@[i] as nat) < 128 by {
                    assert(is_hex_char(s@[i]));
                }
            }
        }
        return None;
    }
    let text = s.as_bytes();
    proof {
        is_ascii_spec_bytes(s);
    }
    assert(text@.len() == s@.len());
    assert(forall|i: int| 0 <= i < s@.len() ==> text@[i] == s@[i] as u8);
    if text.len() % 2 != 0 {
        return None;
    }
    let mut out: Vec<u8> = Vec::new();
    let mut i: usize = 0;
    while i < text.len()
        invariant
            i <= text.len(),
            i % 2 == 0,
            text.len() % 2 == 0,
            text@.len() == s@.len(),
            is_ascii(s),
            forall|j: int| 0 <= j < s@.len() ==> text@[j] == s@[j] as u8,
            forall|j: int| 0 <= j < i ==> is_hex_char(#[trigger] s@[j]),
            out@ == hex_bytes(s@.take(i as int)),
        decreases text.len() - i,
    {
        let hi = nibble_of(text[i]);
        let lo = nibble_of(text[i + 1]);
        proof {
            assert((s@[i as int] as nat) < 128);
            assert((s@[i + 1] as nat) < 128);
        }
        match (hi, lo) {
            (Some(h), Some(l)) => {
                out.push(h * 16 + l);
                proof {
                    let before = s@.take(i as int);
                    let after = s@.take(i + 2);
                    assert(hex_bytes(after) =~= hex_bytes(before).push((h * 16 + l) as u8));
                }
            },
            _ => {
                proof {
                    assert(!is_hex_char(s@[i as int]) || !is_hex_char(s@[i + 1]));
                }
                return None;
            },
        }
        i += 2;
    }
    proof {
        assert(s@.take(i as int) =~= s@);
    }
    Some(out)
}

} // verus!
