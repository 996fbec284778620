//! Account and contract addresses: twenty bytes, shown as `0x` followed by
//! forty lowercase hexadecimal digits.

use vstd::prelude::*;

verus! {

/// Types with a canonical textual form.
pub trait StringRepresentation {
    /// The canonical textual form, as a sequence of characters.
    spec fn spec_string_representation(&self) -> Seq<char>;

    fn string_representation(&self) -> (r: String)
        ensures
            r@ == self.spec_string_representation(),
    ;
}

/// The lowercase hexadecimal digit with value `n`.
pub open spec fn hex_digit(n: nat) -> char {
    if n == 0 {
        '0'
    } else if n == 1 {
        '1'
    } else if n == 2 {
        '2'
    } else if n == 3 {
        '3'
    } else if n == 4 {
        '4'
    } else if n == 5 {
        '5'
    } else if n == 6 {
        '6'
    } else if n == 7 {
        '7'
    } else if n == 8 {
        '8'
    } else if n == 9 {
        '9'
    } else if n == 10 {
        'a'
    } else if n == 11 {
        'b'
    } else if n == 12 {
        'c'
    } else if n == 13 {
        'd'
    } else if n == 14 {
        'e'
    } else {
        'f'
    }
}

/// The value of a hexadecimal digit, lowercase or uppercase, or 16 if `c` is
/// no such digit.
pub open spec fn hex_val(c: char) -> nat {
    if c == '0' {
        0
    } else if c == '1' {
        1
    } else if c == '2' {
        2
    } else if c == '3' {
        3
    } else if c == '4' {
        4
    } else if c == '5' {
        5
    } else if c == '6' {
        6
    } else if c == '7' {
        7
    } else if c == '8' {
        8
    } else if c == '9' {
        9
    } else if c == 'a' || c == 'A' {
        10
    } else if c == 'b' || c == 'B' {
        11
    } else if c == 'c' || c == 'C' {
        12
    } else if c == 'd' || c == 'D' {
        13
    } else if c == 'e' || c == 'E' {
        14
    } else if c == 'f' || c == 'F' {
        15
    } else {
        16
    }
}

pub open spec fn is_hex_digit(c: char) -> bool {
    hex_val(c) < 16
}

/// The lowercase hexadecimal form of `bytes`, two digits per byte.
pub open spec fn hex_str(bytes: Seq<u8>) -> Seq<char>
    decreases bytes.len(),
{
    if bytes.len() == 0 {
        Seq::empty()
    } else {
        seq![
            hex_digit((bytes[0] / 16) as nat),
            hex_digit((bytes[0] % 16) as nat),
        ] + hex_str(bytes.drop_first())
    }
}

pub proof fn lemma_hex_str_len(bytes: Seq<u8>)
    ensures
        hex_str(bytes).len() == 2 * bytes.len(),
        forall|i: int|
            0 <= i < bytes.len() ==> hex_str(bytes)[2 * i] == hex_digit((bytes[i] / 16) as nat)
                && hex_str(bytes)[2 * i + 1] == hex_digit((bytes[i] % 16) as nat),
    decreases bytes.len(),
{
    if bytes.len() > 0 {
        lemma_hex_str_len(bytes.drop_first());
        assert(forall|i: int|
            1 <= i < bytes.len() ==> bytes.drop_first()[i - 1] == bytes[i] && hex_str(bytes)[2 * i]
                == hex_str(bytes.drop_first())[2 * (i - 1)] && hex_str(bytes)[2 * i + 1] == hex_str(
                bytes.drop_first(),
            )[2 * (i - 1) + 1]);
    }
}

/// An account or contract address: exactly twenty bytes.
#[derive(Debug)]
pub struct Address {
    bytes: Vec<u8>,
}

impl View for Address {
    type V = Seq<u8>;

    closed spec fn view(&self) -> Seq<u8> {
        self.bytes@
    }
}

impl Clone for Address {
    fn clone(&self) -> (r: Self)
        ensures
            r@ == self@,
    {
        let mut bytes: Vec<u8> = Vec::new();
        let mut i: usize = 0;
        while i < self.bytes.len()
            invariant
                i <= self.bytes@.len(),
                bytes@ == self.bytes@.take(i as int),
            decreases self.bytes@.len() - i,
        {
            bytes.push(self.bytes[i]);
            i = i + 1;
            proof {
                assert(bytes@ =~= self.bytes@.take(i as int));
            }
        }
        proof {
            assert(self.bytes@.take(self.bytes@.len() as int) =~= self.bytes@);
        }
        Address { bytes }
    }
}

/// The textual form of an address: `0x` then forty lowercase hex digits.
pub open spec fn address_str(bytes: Seq<u8>) -> Seq<char> {
    seq!['0', 'x'] + hex_str(bytes)
}

/// Whether `s` is a well-formed textual address: `0x` and then exactly forty
/// hexadecimal digits, either case.
pub open spec fn valid_address_str(s: Seq<char>) -> bool {
    &&& s.len() == 42
    &&& s[0] == '0'
    &&& s[1] == 'x'
    &&& forall|i: int| 2 <= i < 42 ==> is_hex_digit(#[trigger] s[i])
}

/// The byte at position `i` encoded in a valid textual address.
pub open spec fn address_str_byte(s: Seq<char>, i: int) -> u8 {
    (16 * hex_val(s[2 + 2 * i]) + hex_val(s[2 + 2 * i + 1])) as u8
}

/// The bytes encoded in a valid textual address.
pub open spec fn address_str_bytes(s: Seq<char>) -> Seq<u8> {
    Seq::new(20, |i: int| address_str_byte(s, i))
}

impl Address {
    /// The address is well formed: twenty bytes exactly.
    pub open spec fn wf(&self) -> bool {
        self@.len() == 20
    }

    /// An address made of the given twenty bytes.
    pub fn from_bytes(bytes: Vec<u8>) -> (r: Address)
        requires
            bytes@.len() == 20,
        ensures
            r@ == bytes@,
            r.wf(),
    {
        Address { bytes }
    }

    /// The bytes of the address.
    pub fn bytes(&self) -> (r: &Vec<u8>)
        ensures
            r@ == self@,
    {
        &self.bytes
    }

    /// Parses `0x`-prefixed, forty-hex-digit text; returns nothing on any
    /// other input.
    pub fn parse(s: &str) -> (r: Option<Address>)
        ensures
            r is Some <==> valid_address_str(s@),
            r matches Some(a) ==> a@ == address_str_bytes(s@) && a.wf(),
    {
        let cs = crate::text::str_to_chars(s);
        if cs.len() != 42 {
            return None;
        }
        if cs[0] != '0' || cs[1] != 'x' {
            return None;
        }
        let mut bytes: Vec<u8> = Vec::new();
        let mut i: usize = 0;
        while i < 20
            invariant
                i <= 20,
                cs@ == s@,
                cs@.len() == 42,
                bytes@.len() == i,
                forall|j: int| 0 <= j < i ==> bytes@[j] == address_str_byte(s@, j),
                forall|j: int| 2 <= j < 2 + 2 * i ==> is_hex_digit(#[trigger] s@[j]),
            decreases 20 - i,
        {
            let hi = hex_value(cs[2 + 2 * i]);
            let lo = hex_value(cs[3 + 2 * i]);
            if hi >= 16 || lo >= 16 {
                return None;
            }
            bytes.push(16 * hi + lo);
            i = i + 1;
        }
        proof {
            assert(bytes@ =~= address_str_bytes(s@));
        }
        Some(Address { bytes })
    }
}

/// The value of `c` as a hexadecimal digit, or 16 if it is none.
pub fn hex_value(c: char) -> (r: u8)
    ensures
        r == hex_val(c) || (r == 16 && hex_val(c) == 16),
        r <= 16,
{
    match c {
        '0' => 0,
        '1' => 1,
        '2' => 2,
        '3' => 3,
        '4' => 4,
        '5' => 5,
        '6' => 6,
        '7' => 7,
        '8' => 8,
        '9' => 9,
        'a' | 'A' => 10,
        'b' | 'B' => 11,
        'c' | 'C' => 12,
        'd' | 'D' => 13,
        'e' | 'E' => 14,
        'f' | 'F' => 15,
        _ => 16,
    }
}

/// The lowercase hexadecimal digit with value `n`.
pub fn hex_char(n: u8) -> (c: char)
    requires
        n < 16,
    ensures
        c == hex_digit(n as nat),
{
    match n {
        0 => '0',
        1 => '1',
        2 => '2',
        3 => '3',
        4 => '4',
        5 => '5',
        6 => '6',
        7 => '7',
        8 => '8',
        9 => '9',
        10 => 'a',
        11 => 'b',
        12 => 'c',
        13 => 'd',
        14 => 'e',
        _ => 'f',
    }
}

impl StringRepresentation for Address {
    open spec fn spec_string_representation(&self) -> Seq<char> {
        address_str(self@)
    }

    fn string_representation(&self) -> (r: String)
        ensures
            r@ == self.spec_string_representation(),
    {
        let mut out = String::new();
        crate::text::push_char(&mut out, '0');
        crate::text::push_char(&mut out, 'x');
        let mut i: usize = 0;
        while i < self.bytes.len()
            invariant
                i <= self.bytes@.len(),
                out@ == seq!['0', 'x'] + hex_str(self@.take(i as int)),
            decreases self.bytes@.len() - i,
        {
            let b = self.bytes[i];
            let hi = hex_char(b / 16);
            let lo = hex_char(b % 16);
            crate::text::push_char(&mut out, hi);
            crate::text::push_char(&mut out, lo);
            i = i + 1;
            proof {
                lemma_hex_push(self@.take(i - 1), self@[i - 1]);
                assert(self@.take(i as int) =~= self@.take(i - 1).push(self@[i - 1]));
            }
        }
        proof {
            assert(self@.take(self@.len() as int) =~= self@);
        }
        out
    }
}

pub proof fn lemma_hex_push(bytes: Seq<u8>, b: u8)
    ensures
        hex_str(bytes.push(b)) == hex_str(bytes) + seq![
            hex_digit((b / 16) as nat),
            hex_digit((b % 16) as nat),
        ],
    decreases bytes.len(),
{
    reveal_with_fuel(hex_str, 3);
    if bytes.len() == 0 {
        assert(bytes.push(b)[0] == b);
        assert(bytes.push(b).drop_first() =~= Seq::<u8>::empty());
        assert(hex_str(Seq::<u8>::empty()) == Seq::<char>::empty());
        assert(hex_str(bytes.push(b)) =~= hex_str(bytes) + seq![
            hex_digit((b / 16) as nat),
            hex_digit((b % 16) as nat),
        ]);
    } else {
        lemma_hex_push(bytes.drop_first(), b);
        assert(bytes.push(b).drop_first() =~= bytes.drop_first().push(b));
        assert(bytes.push(b)[0] == bytes[0]);
        let d = seq![hex_digit((b / 16) as nat), hex_digit((b % 16) as nat)];
        let h0 = seq![hex_digit((bytes[0] / 16) as nat), hex_digit((bytes[0] % 16) as nat)];
        assert(hex_str(bytes.push(b)) == h0 + hex_str(bytes.drop_first().push(b)));
        assert(hex_str(bytes.push(b)) == h0 + (hex_str(bytes.drop_first()) + d));
        assert(h0 + (hex_str(bytes.drop_first()) + d) =~= (h0 + hex_str(bytes.drop_first())) + d);
        assert(hex_str(bytes) == h0 + hex_str(bytes.drop_first()));
    }
}

/// An address survives the trip through its textual form: printing and then
/// parsing returns the same twenty bytes.
pub proof fn lemma_address_round_trip(bytes: Seq<u8>)
    requires
        bytes.len() == 20,
    ensures
        valid_address_str(address_str(bytes)),
        address_str_bytes(address_str(bytes)) == bytes,
{
    let s = address_str(bytes);
    lemma_hex_str_len(bytes);
    assert forall|i: int| 2 <= i < 42 implies is_hex_digit(#[trigger] s[i]) by {
        let j = (i - 2) / 2;
        assert(0 <= j < 20);
        if i % 2 == 0 {
            assert(i == 2 + 2 * j);
            assert(s[2 + 2 * j] == hex_digit((bytes[j] / 16) as nat));
        } else {
            assert(i == 2 + 2 * j + 1);
            assert(s[2 + 2 * j + 1] == hex_digit((bytes[j] % 16) as nat));
        }
    }
    assert(address_str_bytes(s) =~= bytes) by {
        assert(forall|j: int|
            0 <= j < 20 ==> s[2 + 2 * j] == hex_digit((bytes[j] / 16) as nat) && s[2 + 2 * j + 1]
                == hex_digit((bytes[j] % 16) as nat));
    }
}

} // verus!
