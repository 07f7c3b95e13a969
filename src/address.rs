//! Contract addresses: 20 bytes written as 40 hexadecimal digits.
use vstd::prelude::*;

verus! {

pub open spec fn is_hex_char(c: char) -> bool {
    ('0' <= c <= '9') || ('a' <= c <= 'f') || ('A' <= c <= 'F')
}

/// The value of a hexadecimal digit, in either case.
pub open spec fn hex_value(c: char) -> int {
    if '0' <= c <= '9' {
        c as int - '0' as int
    } else if 'a' <= c <= 'f' {
        c as int - 'a' as int + 10
    } else {
        c as int - 'A' as int + 10
    }
}

/// The lower-case hexadecimal digit of `v`.
pub open spec fn lower_hex_char(v: int) -> char {
    if v < 10 {
        crate::amount::digit_char(v)
    } else if v == 10 {
        'a'
    } else if v == 11 {
        'b'
    } else if v == 12 {
        'c'
    } else if v == 13 {
        'd'
    } else if v == 14 {
        'e'
    } else {
        'f'
    }
}

/// The 40 digits of an address text, past an optional `0x` or `0X`.
pub open spec fn address_digits(t: Seq<char>) -> Seq<char> {
    if t.len() >= 2 && t[0] == '0' && (t[1] == 'x' || t[1] == 'X') {
        t.skip(2)
    } else {
        t
    }
}

/// Text that names a 20-byte address: 40 hexadecimal digits in any case,
/// after an optional `0x`.
pub open spec fn is_address_text(t: Seq<char>) -> bool {
    let d = address_digits(t);
    &&& d.len() == 40
    &&& forall|i: int| 0 <= i < 40 ==> is_hex_char(#[trigger] d[i])
}

/// The canonical form of an address text: its 40 digits in lower case,
/// without prefix. Two texts name the same address exactly when their
/// canonical forms are equal.
pub open spec fn canonical_address(t: Seq<char>) -> Seq<char> {
    let d = address_digits(t);
    Seq::new(d.len(), |i: int| lower_hex_char(hex_value(d[i])))
}

fn lower_hex_to_char(v: u8) -> (c: char)
    requires
        v < 16,
    ensures
        c == lower_hex_char(v as int),
{
    if v < 10 {
        crate::amount::digit_to_char(v)
    } else if v == 10 {
        'a'
    } else if v == 11 {
        'b'
    } else if v == 12 {
        'c'
    } else if v == 13 {
        'd'
    } else if v == 14 {
        'e'
    } else {
        'f'
    }
}

/// An ASCII character is a hexadecimal digit exactly when its byte is one.
proof fn lemma_ascii_hex(c: char)
    requires
        '\0' <= c <= '\u{7f}',
    ensures
        is_hex_char(c) <==> ((48 <= (c as u8) <= 57) || (97 <= (c as u8) <= 102) || (65 <= (c as u8)
            <= 70)),
        48 <= (c as u8) <= 57 ==> hex_value(c) == (c as u8) - 48,
        97 <= (c as u8) <= 102 ==> hex_value(c) == (c as u8) - 87,
        65 <= (c as u8) <= 70 ==> hex_value(c) == (c as u8) - 55,
{
}

/// The value of a hexadecimal digit byte, if it is one.
fn hex_byte_value(b: u8) -> (r: Option<u8>)
    ensures
        r matches Some(v) ==> v < 16,
        r is Some <==> ((48 <= b <= 57) || (97 <= b <= 102) || (65 <= b <= 70)),
        r matches Some(v) ==> (48 <= b <= 57 ==> v == b - 48) && (97 <= b <= 102 ==> v == b - 87)
            && (65 <= b <= 70 ==> v == b - 55),
{
    if 48 <= b && b <= 57 {
        Some(b - 48)
    } else if 97 <= b && b <= 102 {
        Some(b - 87)
    } else if 65 <= b && b <= 70 {
        Some(b - 55)
    } else {
        None
    }
}

/// The canonical form of an address text, or `None` where the text names
/// no address.
pub fn normalize_address(s: &str) -> (r: Option<String>)
    ensures
        r is Some <==> is_address_text(s@),
        r matches Some(c) ==> c@ == canonical_address(s@),
{
    broadcast use vstd::string::is_ascii_spec_bytes;

    if !s.is_ascii() {
        proof {
            if is_address_text(s@) {
                let i = choose|i: int| 0 <= i < s@.len() && !('\0' <= #[trigger] s@[i] <= '\u{7f}');
                let d = address_digits(s@);
                if d.len() != s@.len() {
                    if i >= 2 {
                        assert(d[i - 2] == s@[i]);
                    }
                } else {
                    assert(d[i] == s@[i]);
                }
            }
        }
        return None;
    }
    let b = s.as_bytes();
    let n = b.len();
    let prefixed = n >= 2 && b[0] == 48u8 && (b[1] == 120u8 || b[1] == 88u8);
    let start: usize = if prefixed { 2 } else { 0 };
    let ghost d = address_digits(s@);
    assert(prefixed == (s@.len() >= 2 && s@[0] == '0' && (s@[1] == 'x' || s@[1] == 'X')));
    if n - start != 40 {
        return None;
    }
    let mut r = String::new();
    let mut i: usize = 0;
    while i < 40
        invariant
            i <= 40,
            n == s@.len(),
            start + 40 == n,
            b@ == Seq::new(s@.len(), |k: int| s@[k] as u8),
            s.is_ascii(),
            d == if prefixed { s@.skip(2) } else { s@ },
            d.len() == 40,
            forall|k: int| 0 <= k < 40 ==> #[trigger] d[k] == s@[k + start],
            forall|k: int| 0 <= k < i ==> is_hex_char(#[trigger] d[k]),
            r@ =~= Seq::new(i as nat, |k: int| lower_hex_char(hex_value(d[k]))),
        decreases 40 - i,
    {
        let c = b[start + i];
        proof {
            lemma_ascii_hex(s@[start + i]);
            assert(d[i as int] == s@[start + i]);
        }
        match hex_byte_value(c) {
            Some(v) => {
                r.push(lower_hex_to_char(v));
            },
            None => {
                return None;
            },
        }
        i = i + 1;
    }
    Some(r)
}

} // verus!
