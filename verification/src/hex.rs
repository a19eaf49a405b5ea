//! Lowercase hexadecimal rendering of byte strings, and the inverse.
//!
//! Content hashes travel over the API as hex strings; `encode` turns a
//! digest into its textual form and `decode` turns the text back into
//! bytes, accepting both lowercase and uppercase digits.

use vstd::prelude::*;
use vstd::string::StringSliceAdditionalSpecFns;
use crate::M8Error;

verus! {

/// The lowercase hexadecimal digit for a nibble.
pub open spec fn hex_digit_char(n: u8) -> char {
    if n == 0 {
        '0'
    } else if n == 1 {
        '1'
    } else if n == 2 {
        '2'
    } else if n == 3 {
        '3'
    } else if n == 4 {
        '4'
    } else if n == 5 {
        '5'
    } else if n == 6 {
        '6'
    } else if n == 7 {
        '7'
    } else if n == 8 {
        '8'
    } else if n == 9 {
        '9'
    } else if n == 10 {
        'a'
    } else if n == 11 {
        'b'
    } else if n == 12 {
        'c'
    } else if n == 13 {
        'd'
    } else if n == 14 {
        'e'
    } else {
        'f'
    }
}

/// Two lowercase hexadecimal digits for each byte, in order.
pub open spec fn hex_chars_of(b: Seq<u8>) -> Seq<char>
    decreases b.len(),
{
    if b.len() == 0 {
        Seq::empty()
    } else {
        hex_chars_of(b.drop_last()) + seq![
            hex_digit_char(b.last() / 16),
            hex_digit_char(b.last() % 16),
        ]
    }
}

/// The one-character string for a nibble.
pub(crate) fn nibble_str(n: u8) -> (r: &'static str)
    requires
        n < 16,
    ensures
        r@ == seq![hex_digit_char(n)],
{
    proof {
        reveal_strlit("0");
        reveal_strlit("1");
        reveal_strlit("2");
        reveal_strlit("3");
        reveal_strlit("4");
        reveal_strlit("5");
        reveal_strlit("6");
        reveal_strlit("7");
        reveal_strlit("8");
        reveal_strlit("9");
        reveal_strlit("a");
        reveal_strlit("b");
        reveal_strlit("c");
        reveal_strlit("d");
        reveal_strlit("e");
        reveal_strlit("f");
    }
    let r = match n {
        0 => "0",
        1 => "1",
        2 => "2",
        3 => "3",
        4 => "4",
        5 => "5",
        6 => "6",
        7 => "7",
        8 => "8",
        9 => "9",
        10 => "a",
        11 => "b",
        12 => "c",
        13 => "d",
        14 => "e",
        _ => "f",
    };
    proof {
        assert(r@ =~= seq![hex_digit_char(n)]);
    }
    r
}

/// Renders bytes as lowercase hexadecimal, two digits per byte.
pub fn encode(bytes: &[u8]) -> (s: String)
    ensures
        s@ == hex_chars_of(bytes@),
{
    let mut s = String::new();
    let mut i: usize = 0;
    while i < bytes.len()
        invariant
            i <= bytes@.len(),
            s@ == hex_chars_of(bytes@.take(i as int)),
        decreases bytes@.len() - i,
    {
        let b = bytes[i];
        s.append(nibble_str(b / 16));
        s.append(nibble_str(b % 16));
        proof {
            let t = bytes@.take(i + 1int);
            assert(t.drop_last() =~= bytes@.take(i as int));
            assert(s@ =~= hex_chars_of(t));
        }
        i = i + 1;
    }
    proof {
        assert(bytes@.take(bytes@.len() as int) =~= bytes@);
    }
    s
}

/// A byte that is an ASCII hexadecimal digit, either case.
pub open spec fn is_hex_digit_byte(c: u8) -> bool {
    (48 <= c <= 57) || (97 <= c <= 102) || (65 <= c <= 70)
}

/// The value of an ASCII hexadecimal digit byte.
pub open spec fn hex_digit_val(c: u8) -> u8 {
    if 48 <= c <= 57 {
        (c - 48) as u8
    } else if 97 <= c <= 102 {
        (c - 87) as u8
    } else {
        (c - 55) as u8
    }
}

/// The bytes spelled by a sequence of hexadecimal digit bytes, read in
/// pairs from the front.  Meaningful when the length is even.
pub open spec fn hex_parse(bs: Seq<u8>) -> Seq<u8>
    decreases bs.len(),
{
    if bs.len() < 2 {
        Seq::empty()
    } else {
        seq![(hex_digit_val(bs[0]) * 16 + hex_digit_val(bs[1])) as u8]
            + hex_parse(bs.skip(2))
    }
}

/// Parses a hexadecimal string into bytes.  Fails exactly when the
/// string's byte length is odd or a character is not a hexadecimal
/// digit.
pub fn decode(s: &str) -> (r: Result<Vec<u8>, M8Error>)
    ensures
        r is Ok <==> (s.spec_bytes().len() % 2 == 0 && forall|i: int|
            0 <= i < s.spec_bytes().len() ==> is_hex_digit_byte(#[trigger] s.spec_bytes()[i])),
        r matches Ok(v) ==> v@ == hex_parse(s.spec_bytes()),
        r is Err ==> r == Err::<Vec<u8>, M8Error>(M8Error::Format),
{
    let bs = s.as_bytes();
    if bs.len() % 2 != 0 {
        return Err(M8Error::Format);
    }
    let mut out: Vec<u8> = Vec::new();
    let mut i: usize = 0;
    while i < bs.len()
        invariant
            bs@ == s.spec_bytes(),
            i % 2 == 0,
            i <= bs@.len(),
            bs@.len() % 2 == 0,
            out@ == hex_parse(bs@.take(i as int)),
            forall|j: int| 0 <= j < i ==> is_hex_digit_byte(#[trigger] bs@[j]),
        decreases bs@.len() - i,
    {
        let hi = bs[i];
        let lo = bs[i + 1];
        if !(hi >= 48 && hi <= 57 || hi >= 97 && hi <= 102 || hi >= 65 && hi <= 70) {
            return Err(M8Error::Format);
        }
        if !(lo >= 48 && lo <= 57 || lo >= 97 && lo <= 102 || lo >= 65 && lo <= 70) {
            return Err(M8Error::Format);
        }
        let hv = if hi <= 57 { hi - 48 } else if hi >= 97 { hi - 87 } else { hi - 55 };
        let lv = if lo <= 57 { lo - 48 } else if lo >= 97 { lo - 87 } else { lo - 55 };
        out.push(hv * 16 + lv);
        proof {
            lemma_hex_parse_snoc_pair(bs@, i as int);
        }
        i = i + 2;
    }
    proof {
        assert(bs@.take(bs@.len() as int) =~= bs@);
    }
    Ok(out)
}

/// Extending an even-length prefix by one digit pair extends the parse
/// by the byte that the pair spells.
proof fn lemma_hex_parse_snoc_pair(bs: Seq<u8>, i: int)
    requires
        0 <= i,
        i % 2 == 0,
        i + 2 <= bs.len(),
    ensures
        hex_parse(bs.take(i + 2)) == hex_parse(bs.take(i))
            + seq![(hex_digit_val(bs[i]) * 16 + hex_digit_val(bs[i + 1])) as u8],
    decreases i,
{
    if i == 0 {
        assert(bs.take(2).skip(2) =~= Seq::<u8>::empty());
        assert(bs.take(0) =~= Seq::<u8>::empty());
        assert(hex_parse(bs.take(2)) =~= hex_parse(bs.take(0))
            + seq![(hex_digit_val(bs[0]) * 16 + hex_digit_val(bs[1])) as u8]);
    } else {
        lemma_hex_parse_snoc_pair(bs.skip(2), i - 2);
        assert(bs.skip(2).take(i) =~= bs.take(i + 2).skip(2));
        assert(bs.skip(2).take(i - 2) =~= bs.take(i).skip(2));
        assert(bs.skip(2)[i - 2] == bs[i]);
        assert(bs.skip(2)[i - 1] == bs[i + 1]);
        assert(hex_parse(bs.take(i + 2)) =~= hex_parse(bs.take(i))
            + seq![(hex_digit_val(bs[i]) * 16 + hex_digit_val(bs[i + 1])) as u8]);
    }
}

} // verus!
