//! Rendering of raw bytes for inspection: as text when they are valid UTF-8,
//! as space-separated uppercase hex byte pairs otherwise.

use vstd::prelude::*;
use vstd::slice::slice_index_get;
use vstd::string::StringExecFns;
use vstd::utf8::decode_utf8;
use vstd::utf8::valid_utf8;

verus! {

/// The uppercase hex digit for a value below 16.
pub open spec fn hex_digit(n: int) -> char {
    if n == 0 {
        '0'
    } else if n == 1 {
        '1'
    } else if n == 2 {
        '2'
    } else if n == 3 {
        '3'
    } else if n == 4 {
        '4'
    } else if n == 5 {
        '5'
    } else if n == 6 {
        '6'
    } else if n == 7 {
        '7'
    } else if n == 8 {
        '8'
    } else if n == 9 {
        '9'
    } else if n == 10 {
        'A'
    } else if n == 11 {
        'B'
    } else if n == 12 {
        'C'
    } else if n == 13 {
        'D'
    } else if n == 14 {
        'E'
    } else {
        'F'
    }
}

/// The two hex digits of one byte, high nibble first.
pub open spec fn hex_byte_chars(b: u8) -> Seq<char> {
    seq![hex_digit(b as int / 16), hex_digit(b as int % 16)]
}

/// A byte sequence as space-separated uppercase hex byte pairs, with no
/// trailing separator.
pub open spec fn hex_render(b: Seq<u8>) -> Seq<char>
    decreases b.len(),
{
    if b.len() == 0 {
        Seq::empty()
    } else if b.len() == 1 {
        hex_byte_chars(b[0])
    } else {
        hex_render(b.drop_last()) + seq![' '] + hex_byte_chars(b.last())
    }
}

/// A byte sequence rendered for inspection: decoded as text when it is valid
/// UTF-8, as a hex dump otherwise.
pub open spec fn text_render(b: Seq<u8>) -> Seq<char> {
    if valid_utf8(b) {
        decode_utf8(b)
    } else {
        hex_render(b)
    }
}

fn hex_digit_str(n: u8) -> (r: &'static str)
    requires
        n < 16,
    ensures
        r@ == seq![hex_digit(n as int)],
{
    proof {
        reveal_strlit("0");
        reveal_strlit("1");
        reveal_strlit("2");
        reveal_strlit("3");
        reveal_strlit("4");
        reveal_strlit("5");
        reveal_strlit("6");
        reveal_strlit("7");
        reveal_strlit("8");
        reveal_strlit("9");
        reveal_strlit("A");
        reveal_strlit("B");
        reveal_strlit("C");
        reveal_strlit("D");
        reveal_strlit("E");
        reveal_strlit("F");
    }
    let r: &'static str = match n {
        0 => "0",
        1 => "1",
        2 => "2",
        3 => "3",
        4 => "4",
        5 => "5",
        6 => "6",
        7 => "7",
        8 => "8",
        9 => "9",
        10 => "A",
        11 => "B",
        12 => "C",
        13 => "D",
        14 => "E",
        _ => "F",
    };
    proof {
        assert(r@ =~= seq![hex_digit(n as int)]);
    }
    r
}

/// Render a byte slice as space-separated uppercase hex byte pairs.
pub fn slice_to_hex_string(slice: &[u8]) -> (buff: String)
    ensures
        buff@ == hex_render(slice@),
{
    let mut buff = String::new();
    let n = slice.len();
    let mut i: usize = 0;
    while i < n
        invariant
            n == slice@.len(),
            i <= n,
            buff@ == hex_render(slice@.subrange(0, i as int)),
        decreases n - i,
    {
        let b: u8 = *slice_index_get(slice, i);
        if i > 0 {
            buff.append(" ");
        }
        buff.append(hex_digit_str(b / 16));
        buff.append(hex_digit_str(b % 16));
        proof {
            reveal_strlit(" ");
            let pre = slice@.subrange(0, i as int);
            let cur = slice@.subrange(0, i as int + 1);
            assert(cur.drop_last() =~= pre);
            assert(cur.last() == b);
            if i == 0 {
                assert(buff@ =~= hex_byte_chars(b));
            } else {
                assert(buff@ =~= hex_render(pre) + seq![' '] + hex_byte_chars(b));
            }
        }
        i = i + 1;
    }
    proof {
        assert(slice@.subrange(0, slice@.len() as int) =~= slice@);
    }
    buff
}

/// Relies on std::str::from_utf8: it returns Ok exactly when the bytes are
/// valid UTF-8, and the returned string is those bytes decoded.
#[verifier::external_body]
fn utf8_to_string(slice: &[u8]) -> (r: Option<String>)
    ensures
        r matches Some(s) ==> valid_utf8(slice@) && s@ == decode_utf8(slice@),
        r is None ==> !valid_utf8(slice@),
{
    match std::str::from_utf8(slice) {
        Ok(s) => Some(s.to_string()),
        Err(_) => None,
    }
}

/// Render a byte slice as text when it is valid UTF-8, as a hex dump
/// otherwise.
pub fn slice_to_string(slice: &[u8]) -> (r: String)
    ensures
        r@ == text_render(slice@),
{
    match utf8_to_string(slice) {
        Some(s) => s,
        None => slice_to_hex_string(slice),
    }
}

} // verus!
