use vstd::prelude::*;
use crate::strutil::push_char;

verus! {

/// The consonant chosen for `n` in 0..16.
pub open spec fn consonant(n: int) -> char {
    if n == 0 {
        'b'
    } else if n == 1 {
        'd'
    } else if n == 2 {
        'f'
    } else if n == 3 {
        'g'
    } else if n == 4 {
        'h'
    } else if n == 5 {
        'k'
    } else if n == 6 {
        'l'
    } else if n == 7 {
        'm'
    } else if n == 8 {
        'n'
    } else if n == 9 {
        'p'
    } else if n == 10 {
        'r'
    } else if n == 11 {
        's'
    } else if n == 12 {
        't'
    } else if n == 13 {
        'v'
    } else if n == 14 {
        'z'
    } else {
        'j'
    }
}

/// The vowel chosen for `n` in 0..4.
pub open spec fn vowel(n: int) -> char {
    if n == 0 {
        'a'
    } else if n == 1 {
        'e'
    } else if n == 2 {
        'i'
    } else {
        'o'
    }
}

/// The two-letter syllable drawn from the low six bits of a byte value.
pub open spec fn syllable(b: int) -> Seq<char> {
    seq![consonant(b % 16), vowel((b / 16) % 4)]
}

/// The deterministic, pronounceable label derived from a content fingerprint:
/// four syllables drawn from its four low bytes.
pub open spec fn nickname_seq(fp: u128) -> Seq<char> {
    let x = fp as int;
    syllable(x % 256) + syllable((x / 256) % 256) + syllable((x / 65536) % 256) + syllable(
        (x / 16777216) % 256,
    )
}

fn consonant_exec(n: u64) -> (r: char)
    requires
        n < 16,
    ensures
        r == consonant(n as int),
{
    match n {
        0 => 'b',
        1 => 'd',
        2 => 'f',
        3 => 'g',
        4 => 'h',
        5 => 'k',
        6 => 'l',
        7 => 'm',
        8 => 'n',
        9 => 'p',
        10 => 'r',
        11 => 's',
        12 => 't',
        13 => 'v',
        14 => 'z',
        _ => 'j',
    }
}

fn vowel_exec(n: u64) -> (r: char)
    requires
        n < 4,
    ensures
        r == vowel(n as int),
{
    match n {
        0 => 'a',
        1 => 'e',
        2 => 'i',
        _ => 'o',
    }
}

fn push_syllable(s: &mut String, b: u64)
    requires
        b < 256,
    ensures
        final(s)@ == old(s)@ + syllable(b as int),
{
    push_char(s, consonant_exec(b % 16));
    push_char(s, vowel_exec((b / 16) % 4));
    assert(final(s)@ =~= old(s)@ + syllable(b as int));
}

/// The nickname for a fingerprint; every fingerprint maps to the same label on
/// every call.
pub fn new_nickname(fp: u128) -> (r: String)
    ensures
        r@ == nickname_seq(fp),
{
    let mut r = String::new();
    push_syllable(&mut r, (fp % 256) as u64);
    push_syllable(&mut r, ((fp / 256) % 256) as u64);
    push_syllable(&mut r, ((fp / 65536) % 256) as u64);
    push_syllable(&mut r, ((fp / 16777216) % 256) as u64);
    assert(r@ =~= nickname_seq(fp));
    r
}

/// Every nickname the library generates has this length.
pub fn max_length() -> (r: usize)
    ensures
        r == 8,
        forall|fp: u128| nickname_seq(fp).len() == r,
{
    8
}

} // verus!
