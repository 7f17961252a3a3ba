//! A 20-byte account address with hex parsing and formatting.

use vstd::prelude::*;

use crate::errors::AddressError;

verus! {

/// Whether a character is a hexadecimal digit.
pub open spec fn is_hex_digit(c: char) -> bool {
    let v = c as u32;
    (0x30 <= v <= 0x39) || (0x61 <= v <= 0x66) || (0x41 <= v <= 0x46)
}

/// The numeric value of a hexadecimal digit (0 for other characters).
pub open spec fn hex_digit_val(c: char) -> nat {
    let v = c as u32;
    if 0x30 <= v <= 0x39 {
        (v - 0x30) as nat
    } else if 0x61 <= v <= 0x66 {
        (v - 0x61 + 10) as nat
    } else if 0x41 <= v <= 0x46 {
        (v - 0x41 + 10) as nat
    } else {
        0
    }
}

/// The characters left after stripping one optional `0x` prefix.
pub open spec fn strip_0x(s: Seq<char>) -> Seq<char> {
    if s.len() >= 2 && s[0] == '0' && s[1] == 'x' {
        s.skip(2)
    } else {
        s
    }
}

/// Whether every character of the string is a hex digit.
pub open spec fn all_hex_digits(s: Seq<char>) -> bool {
    forall|i: int| 0 <= i < s.len() ==> is_hex_digit(#[trigger] s[i])
}

/// The bytes spelled by an even-length string of hex digits, two digits each.
pub open spec fn hex_bytes(s: Seq<char>) -> Seq<u8> {
    Seq::new(s.len() / 2, |i: int| (hex_digit_val(s[2 * i]) * 16 + hex_digit_val(s[2 * i + 1])) as u8)
}

/// The lowercase hex spelling of a byte string, two characters per byte.
pub open spec fn hex_str_of(bytes: Seq<u8>) -> Seq<char>
    decreases bytes.len(),
{
    if bytes.len() == 0 {
        Seq::empty()
    } else {
        hex_str_of(bytes.drop_last()) + seq![
            hex_char_of((bytes.last() / 16) as nat),
            hex_char_of((bytes.last() % 16) as nat),
        ]
    }
}

/// The lowercase hex character for a digit value below 16.
pub open spec fn hex_char_of(d: nat) -> char {
    if d == 0 {
        '0'
    } else if d == 1 {
        '1'
    } else if d == 2 {
        '2'
    } else if d == 3 {
        '3'
    } else if d == 4 {
        '4'
    } else if d == 5 {
        '5'
    } else if d == 6 {
        '6'
    } else if d == 7 {
        '7'
    } else if d == 8 {
        '8'
    } else if d == 9 {
        '9'
    } else if d == 10 {
        'a'
    } else if d == 11 {
        'b'
    } else if d == 12 {
        'c'
    } else if d == 13 {
        'd'
    } else if d == 14 {
        'e'
    } else {
        'f'
    }
}

/// A 20-byte address. Equality is byte-wise.
#[derive(Debug)]
pub struct Address {
    bytes: Vec<u8>,
}

impl View for Address {
    type V = Seq<u8>;

    closed spec fn view(&self) -> Seq<u8> {
        self.bytes@
    }
}

impl Address {
    /// The invariant: an `Address` always holds exactly 20 bytes.
    #[verifier::type_invariant]
    pub open spec fn wf(self) -> bool {
        self@.len() == 20
    }

    pub fn new(bytes: [u8; 20]) -> (r: Self)
        ensures
            r@ == bytes@,
            r@.len() == 20,
    {
        let mut v: Vec<u8> = Vec::new();
        let mut i: usize = 0;
        while i < 20
            invariant
                i <= 20,
                v@.len() == i,
                forall|j: int| 0 <= j < i ==> v@[j] == bytes@[j],
            decreases 20 - i,
        {
            v.push(bytes[i]);
            i = i + 1;
        }
        proof {
            assert(v@ =~= bytes@);
        }
        Address { bytes: v }
    }

    /// Builds an address from exactly 20 bytes held in a vector.
    pub fn from_bytes(bytes: Vec<u8>) -> (r: Self)
        requires
            bytes@.len() == 20,
        ensures
            r@ == bytes@,
    {
        Address { bytes }
    }

    pub fn as_bytes(&self) -> (r: &Vec<u8>)
        ensures
            r@ == self@,
            r@.len() == 20,
    {
        proof {
            use_type_invariant(self);
        }
        &self.bytes
    }

    /// Parses a hex address: after stripping an optional `0x` prefix, exactly
    /// 40 hex characters must remain, each pair spelling one byte.
    pub fn from_hex(hex: &str) -> (r: Result<Self, AddressError>)
        ensures
            match r {
                Ok(a) => strip_0x(hex@).len() == 40 && all_hex_digits(strip_0x(hex@)) && a@
                    == hex_bytes(strip_0x(hex@)) && a@.len() == 20,
                Err(AddressError::InvalidLength) => strip_0x(hex@).len() != 40,
                Err(AddressError::InvalidDigit) => strip_0x(hex@).len() == 40 && !all_hex_digits(
                    strip_0x(hex@),
                ),
            },
    {
        let full_len = hex.unicode_len();
        let stripped: &str = if full_len >= 2 && hex.get_char(0) == '0' && hex.get_char(1) == 'x' {
            hex.substring_char(2, full_len)
        } else {
            hex
        };
        proof {
            assert(stripped@ =~= strip_0x(hex@));
        }
        let n = stripped.unicode_len();
        if n != 40 {
            return Err(AddressError::InvalidLength);
        }
        let ghost target = hex_bytes(strip_0x(hex@));
        let mut bytes: Vec<u8> = Vec::new();
        let mut i: usize = 0;
        while i < 20
            invariant
                i <= 20,
                stripped@ == strip_0x(hex@),
                stripped@.len() == 40,
                target == hex_bytes(strip_0x(hex@)),
                bytes@.len() == i,
                forall|j: int| 0 <= j < i ==> bytes@[j] == target[j],
                forall|j: int| 0 <= j < 2 * i ==> is_hex_digit(#[trigger] stripped@[j]),
            decreases 20 - i,
        {
            let hi = match hex_digit_value(stripped.get_char(2 * i)) {
                Some(v) => v,
                None => {
                    return Err(AddressError::InvalidDigit);
                },
            };
            let lo = match hex_digit_value(stripped.get_char(2 * i + 1)) {
                Some(v) => v,
                None => {
                    return Err(AddressError::InvalidDigit);
                },
            };
            bytes.push(hi * 16 + lo);
            i = i + 1;
        }
        proof {
            assert(bytes@ =~= target);
            assert(forall|j: int| 0 <= j < 40 ==> is_hex_digit(#[trigger] stripped@[j]));
        }
        Ok(Address { bytes })
    }

    /// The lowercase `0x`-prefixed hex spelling of this address.
    pub fn to_hex_string(&self) -> (r: String)
        ensures
            r@ == "0x"@ + hex_str_of(self@),
    {
        proof {
            use_type_invariant(self);
        }
        let mut s = "0x".to_owned();
        let mut i: usize = 0;
        while i < 20
            invariant
                i <= 20,
                self@.len() == 20,
                s@ == "0x"@ + hex_str_of(self@.take(i as int)),
            decreases 20 - i,
        {
            let b = self.bytes[i];
            proof {
                assert(self@.take(i + 1).drop_last() =~= self@.take(i as int));
                assert(self@.take(i + 1).last() == self@[i as int]);
            }
            s.append(hex_digit_str(b / 16));
            s.append(hex_digit_str(b % 16));
            i = i + 1;
        }
        proof {
            assert(self@.take(20) =~= self@);
        }
        s
    }
}

impl Clone for Address {
    fn clone(&self) -> (r: Self)
        ensures
            r@ == self@,
    {
        proof {
            use_type_invariant(self);
        }
        let mut v: Vec<u8> = Vec::new();
        let mut i: usize = 0;
        while i < 20
            invariant
                i <= 20,
                self@.len() == 20,
                v@.len() == i,
                forall|j: int| 0 <= j < i ==> v@[j] == self@[j],
            decreases 20 - i,
        {
            v.push(self.bytes[i]);
            i = i + 1;
        }
        proof {
            assert(v@ =~= self@);
        }
        Address { bytes: v }
    }
}

impl PartialEq for Address {
    fn eq(&self, other: &Self) -> (r: bool) {
        let r = self.bytes == other.bytes;
        proof {
            if r {
                assert(self@ =~= other@);
            } else {
                if self@ == other@ {
                    assert(forall|i: int|
                        0 <= i < self.bytes@.len() ==> self.bytes@[i] == other.bytes@[i]);
                    assert(false);
                }
            }
        }
        r
    }
}

impl Eq for Address {

}

impl vstd::std_specs::cmp::PartialEqSpecImpl for Address {
    open spec fn obeys_eq_spec() -> bool {
        true
    }

    open spec fn eq_spec(&self, other: &Self) -> bool {
        self@ == other@
    }
}

/// The value of one hex digit character, or `None` for any other character.
pub fn hex_digit_value(c: char) -> (r: Option<u8>)
    ensures
        match r {
            Some(v) => is_hex_digit(c) && (v as nat) == hex_digit_val(c) && v < 16,
            None => !is_hex_digit(c),
        },
{
    let v = c as u32;
    if 0x30 <= v && v <= 0x39 {
        Some((v - 0x30) as u8)
    } else if 0x61 <= v && v <= 0x66 {
        Some((v - 0x61 + 10) as u8)
    } else if 0x41 <= v && v <= 0x46 {
        Some((v - 0x41 + 10) as u8)
    } else {
        None
    }
}

/// The lowercase hex character for a digit below 16, as a one-character string.
pub fn hex_digit_str(d: u8) -> (r: &'static str)
    requires
        d < 16,
    ensures
        r@ == seq![hex_char_of(d as nat)],
{
    proof {
        reveal_strlit("0");
        reveal_strlit("1");
        reveal_strlit("2");
        reveal_strlit("3");
        reveal_strlit("4");
        reveal_strlit("5");
        reveal_strlit("6");
        reveal_strlit("7");
        reveal_strlit("8");
        reveal_strlit("9");
        reveal_strlit("a");
        reveal_strlit("b");
        reveal_strlit("c");
        reveal_strlit("d");
        reveal_strlit("e");
        reveal_strlit("f");
    }
    match d {
        0 => "0",
        1 => "1",
        2 => "2",
        3 => "3",
        4 => "4",
        5 => "5",
        6 => "6",
        7 => "7",
        8 => "8",
        9 => "9",
        10 => "a",
        11 => "b",
        12 => "c",
        13 => "d",
        14 => "e",
        _ => "f",
    }
}

} // verus!
