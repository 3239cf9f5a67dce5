use vstd::prelude::*;
use crate::strutil::push_char;

verus! {

/// An opaque 128-bit version identifier, compared by value.
#[derive(Clone, Copy, Debug, PartialEq, Eq, Structural)]
pub struct VersionId {
    pub bits: u128,
}

/// The lowercase hexadecimal digit for `n` in 0..16.
pub open spec fn hex_digit(n: int) -> char {
    if n == 0 {
        '0'
    } else if n == 1 {
        '1'
    } else if n == 2 {
        '2'
    } else if n == 3 {
        '3'
    } else if n == 4 {
        '4'
    } else if n == 5 {
        '5'
    } else if n == 6 {
        '6'
    } else if n == 7 {
        '7'
    } else if n == 8 {
        '8'
    } else if n == 9 {
        '9'
    } else if n == 10 {
        'a'
    } else if n == 11 {
        'b'
    } else if n == 12 {
        'c'
    } else if n == 13 {
        'd'
    } else if n == 14 {
        'e'
    } else {
        'f'
    }
}

/// `x` written as exactly `digits` hexadecimal digits, most significant first.
pub open spec fn hex_of(x: int, digits: nat) -> Seq<char>
    decreases digits,
{
    if digits == 0 {
        Seq::empty()
    } else {
        hex_of(x / 16, (digits - 1) as nat).push(hex_digit(x % 16))
    }
}

pub proof fn lemma_hex_of_len(x: int, digits: nat)
    ensures
        hex_of(x, digits).len() == digits,
    decreases digits,
{
    if digits > 0 {
        lemma_hex_of_len(x / 16, (digits - 1) as nat);
    }
}

/// The storage form of an identifier: 32 hex digits in five hyphenated groups
/// of 8, 4, 4, 4 and 12 digits, most significant digit first.
pub open spec fn file_name_of(bits: u128) -> Seq<char> {
    let h = hex_of(bits as int, 32);
    h.subrange(0, 8) + seq!['-'] + h.subrange(8, 12) + seq!['-'] + h.subrange(12, 16) + seq!['-']
        + h.subrange(16, 20) + seq!['-'] + h.subrange(20, 32)
}

fn hex_digit_exec(n: u8) -> (r: char)
    requires
        n < 16,
    ensures
        r == hex_digit(n as int),
{
    match n {
        0 => '0',
        1 => '1',
        2 => '2',
        3 => '3',
        4 => '4',
        5 => '5',
        6 => '6',
        7 => '7',
        8 => '8',
        9 => '9',
        10 => 'a',
        11 => 'b',
        12 => 'c',
        13 => 'd',
        14 => 'e',
        _ => 'f',
    }
}

fn hex_string(x: u128, digits: usize) -> (r: String)
    ensures
        r@ == hex_of(x as int, digits as nat),
    decreases digits,
{
    if digits == 0 {
        let r = String::new();
        assert(r@ =~= hex_of(x as int, 0));
        r
    } else {
        let mut r = hex_string(x / 16, digits - 1);
        push_char(&mut r, hex_digit_exec((x % 16) as u8));
        r
    }
}

/// The compact display form of an identifier: what bs58 makes of its big-endian
/// bytes. The exact digits are the encoder's affair; only the value determines them.
pub uninterp spec fn base58_of(bits: u128) -> Seq<char>;

/// Relies on bs58::encode over the identifier's 16 big-endian bytes; the result
/// is a function of those bytes alone.
#[verifier::external_body]
fn base58_string(bits: u128) -> (r: String)
    ensures
        r@ == base58_of(bits),
{
    bs58::encode(bits.to_be_bytes()).into_string()
}

/// Relies on bs58::decode, which inverts bs58::encode: the encoding of a
/// 16-byte value decodes to exactly that value, and a value comes back only
/// for the exact encoding of its 16 bytes — decode accepts no other spelling.
#[verifier::external_body]
fn base58_parse(s: &str) -> (r: Option<u128>)
    ensures
        forall|b: u128| s@ == base58_of(b) ==> r == Some(b),
        r matches Some(b) ==> s@ == base58_of(b),
{
    match bs58::decode(s).into_vec() {
        Ok(v) => match <[u8; 16]>::try_from(v) {
            Ok(a) => Some(u128::from_be_bytes(a)),
            Err(_) => None,
        },
        Err(_) => None,
    }
}

/// Relies on uuid::Uuid::new_v4 for a fresh randomly generated identifier;
/// nothing is assumed of the value that comes back.
#[verifier::external_body]
fn random_bits() -> u128 {
    uuid::Uuid::new_v4().as_u128()
}

impl VersionId {
    pub fn new() -> VersionId {
        VersionId { bits: random_bits() }
    }

    /// The filename-safe storage form of this identifier.
    pub fn to_file_name(&self) -> (r: String)
        ensures
            r@ == file_name_of(self.bits),
    {
        proof {
            lemma_hex_of_len(self.bits as int, 32);
        }
        let h = hex_string(self.bits, 32);
        let hs = h.as_str();
        let mut r = hs.substring_char(0, 8).to_owned();
        r.append("-");
        r.append(hs.substring_char(8, 12));
        r.append("-");
        r.append(hs.substring_char(12, 16));
        r.append("-");
        r.append(hs.substring_char(16, 20));
        r.append("-");
        r.append(hs.substring_char(20, 32));
        proof {
            reveal_strlit("-");
            assert("-"@ =~= seq!['-']);
            assert(r@ =~= file_name_of(self.bits));
        }
        r
    }

    /// The compact display form of this identifier.
    pub fn bs58(&self) -> (r: String)
        ensures
            r@ == base58_of(self.bits),
    {
        base58_string(self.bits)
    }

    /// Reads an identifier back from its compact display form: the encoding
    /// of an identifier yields that identifier, and any other text yields
    /// nothing.
    pub fn from_bs58(bs58: &str) -> (r: Option<VersionId>)
        ensures
            forall|b: u128| bs58@ == base58_of(b) ==> r == Some(VersionId { bits: b }),
            r matches Some(id) ==> bs58@ == base58_of(id.bits),
            r is None ==> forall|b: u128| bs58@ != base58_of(b),
    {
        match base58_parse(bs58) {
            Some(bits) => Some(VersionId { bits }),
            None => None,
        }
    }
}

} // verus!
