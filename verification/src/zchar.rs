//! Text encoder over the table of extra characters.
//!
//! [`utf8_to_zchar`] and [`string_to_zchar`] write text by the rules of
//! [`crate::util`]. Where that codec takes the whole ZSCII table, they take
//! the table of extra characters alone: its entries stand at the ZSCII
//! codes from 155 on, and no other code is known. A character that neither
//! the alphabets nor that table hold is rejected. What is written for a
//! character of the standard tables is what [`crate::util::zmap`] writes
//! for it ([`lemma_utf8_agrees`]), so a text made of such characters is
//! read back unchanged ([`lemma_utf8_text_roundtrip`]).

use crate::roundtrip::{all_writable, lemma_text_roundtrip};
use crate::util::{decode_text, encode_text, find_char, map_char, map_text, pack, packed_len};
use crate::zscii::{standard_tables, tables_of, zscii_entries, Tables, A0, A1, A2, S};
use vstd::prelude::*;
use vstd::std_specs::iter::IteratorSpec;

verus! {

/// ZSCII code of the first extra character.
pub const EXTRA_BASE: u8 = 155;

/// Packs a series of z-characters, three to a 16-bit word.
///
/// Only the low five bits of each input byte are used. A last word that is
/// not full is filled with [`crate::util::PADDING`], and the top bit of its
/// first byte is set to mark the end of the string.
pub fn zpack(input: Vec<u8>) -> (v: Vec<u8>)
    ensures
        v@ == pack(input@),
        v@.len() == packed_len(input@.len()),
        v@.len() % 2 == 0,
{
    crate::util::zpack(input)
}

/// The ZSCII table that holds the extra characters and nothing else:
/// `extra[i]` is the character of code 155 + `i`.
pub open spec fn extra_codes(extra: Seq<char>) -> Seq<Option<char>> {
    Seq::new(
        155 + extra.len(),
        |code: int|
            if code < 155 {
                None
            } else {
                Some(extra[code - 155])
            },
    )
}

/// The alphabets of [`crate::zscii`] with the extra characters [`S`] as the
/// only ZSCII codes.
pub open spec fn utf8_tables() -> Tables {
    tables_of(A0@, A1@, A2@, extra_codes(S@))
}

/// A character has its first code among the extra characters at 155 plus
/// its first index in their table.
pub proof fn lemma_extra_codes_first(extra: Seq<char>, c: char)
    ensures
        extra_codes(extra).index_of_first(Some(c)) == (match extra.index_of_first(c) {
            Some(i) => Some(i + 155),
            None => None,
        }),
{
    let codes = extra_codes(extra);
    extra.index_of_first_ensures(c);
    codes.index_of_first_ensures(Some(c));
    match extra.index_of_first(c) {
        Some(i) => {
            assert(codes[i + 155] == Some(c));
            let k: int = codes.index_of_first(Some(c)).unwrap();
            assert(extra[k - 155] == c);
        },
        None => {
            if codes.contains(Some(c)) {
                let k: int = codes.index_of_first(Some(c)).unwrap();
                assert(extra[k - 155] == c);
            }
        },
    }
}

/// Maps `c` to z-characters by the given tables.
fn utf8_by(c: char, a0: &[char], a1: &[char], a2: &[char], extra: &[char]) -> (r: Option<Vec<u8>>)
    requires
        a0@.len() + 6 <= 256,
        a1@.len() + 6 <= 256,
        a2@.len() + 7 <= 256,
        extra@.len() + 155 <= 256,
    ensures
        r is Some <==> map_char(c, tables_of(a0@, a1@, a2@, extra_codes(extra@))) is Some,
        r matches Some(v) ==> Some(v@) == map_char(
            c,
            tables_of(a0@, a1@, a2@, extra_codes(extra@)),
        ),
{
    proof {
        lemma_extra_codes_first(extra@, c);
    }
    let mut v: Vec<u8> = Vec::new();
    if c == ' ' {
        v.push(0);
        return Some(v);
    }
    if let Some(index) = find_char(a0, c) {
        v.push(index as u8 + 6);
        return Some(v);
    }
    if let Some(index) = find_char(a1, c) {
        v.push(0x04);
        v.push(index as u8 + 6);
        return Some(v);
    }
    if let Some(index) = find_char(a2, c) {
        v.push(0x05);
        v.push(index as u8 + 7);
        return Some(v);
    }
    match find_char(extra, c) {
        Some(index) => {
            v.push(0x05);
            v.push(0x06);
            let comb: u8 = index as u8 + EXTRA_BASE;
            let low: u8 = comb & 0x1f;
            let high: u8 = (comb & 0xe0) >> 5;
            v.push(high);
            v.push(low);
            proof {
                assert((comb & 0xe0) >> 5 == (comb / 32) % 8) by (bit_vector);
                assert(comb & 0x1f == comb % 32) by (bit_vector);
            }
            Some(v)
        },
        None => None,
    }
}

/// Maps a character to the z-characters that write it, by the alphabets
/// `a0`, `a1` and `a2` and the table of extra characters `extra`.
///
/// A space is z-character 0. A character of an alphabet is written as
/// [`crate::util::zmap`] writes it, and the first alphabet that holds it
/// decides. Any other character of `extra` is written as the escape 5, 6
/// and the two halves of 155 plus its index. Returns `None` where none of
/// the four tables holds `c`.
///
/// The tables must be short enough for every index, with its offset added,
/// to fit in a byte.
pub fn utf8_to_zchar(c: char, a0: Vec<char>, a1: Vec<char>, a2: Vec<char>, extra: Vec<char>) -> (r:
    Option<Vec<u8>>)
    requires
        a0@.len() + 6 <= 256,
        a1@.len() + 6 <= 256,
        a2@.len() + 7 <= 256,
        extra@.len() + 155 <= 256,
    ensures
        r is Some <==> map_char(c, tables_of(a0@, a1@, a2@, extra_codes(extra@))) is Some,
        r matches Some(v) ==> Some(v@) == map_char(
            c,
            tables_of(a0@, a1@, a2@, extra_codes(extra@)),
        ),
{
    utf8_by(c, a0.as_slice(), a1.as_slice(), a2.as_slice(), extra.as_slice())
}

/// Converts a string to a packed string of z-characters.
///
/// Each character is mapped by the alphabets and the extra characters of
/// [`crate::zscii`]; one that they do not hold is dropped. The z-characters
/// are then packed.
pub fn string_to_zchar(s: String) -> (v: Vec<u8>)
    ensures
        v@ == pack(map_text(s@, utf8_tables())),
{
    let ghost t = utf8_tables();
    let mut v: Vec<u8> = Vec::new();
    for x in it: s.as_str().chars()
        invariant
            it.seq() == s@,
            t == utf8_tables(),
            v@ == map_text(s@.take(it.index()), t),
    {
        let ghost before = s@.take(it.index());
        let chars = utf8_by(x, &A0, &A1, &A2, &S);
        proof {
            assert(s@.take(it.index() + 1) =~= before.push(x));
            assert(before.push(x).drop_last() =~= before);
        }
        match chars {
            Some(mut c) => {
                v.append(&mut c);
            },
            None => {},
        }
    }
    assert(s@.take(s@.len() as int) =~= s@);
    zpack(v)
}

/// No extra character is an ASCII character or a control character.
pub proof fn lemma_extra_characters_are_not_ascii(i: int)
    requires
        0 <= i < 69,
    ensures
        S@[i] as u32 > 126,
{
}

/// What is written here for a character is what the codec of
/// [`crate::util`] writes for it by the standard tables.
pub proof fn lemma_utf8_agrees(c: char)
    requires
        map_char(c, utf8_tables()) is Some,
    ensures
        map_char(c, standard_tables()) == map_char(c, utf8_tables()),
{
    let codes = zscii_entries();
    lemma_extra_codes_first(S@, c);
    S@.index_of_first_ensures(c);
    codes.index_of_first_ensures(Some(c));
    if let Some(i) = S@.index_of_first(c) {
        // `c` stands at code 155 + `i`, and at no code before it
        lemma_extra_characters_are_not_ascii(i);
        assert(codes[155 + i] == Some(c));
        let k: int = codes.index_of_first(Some(c)).unwrap();
        assert(k >= 155);
        assert(S@[k - 155] == c);
    }
}

/// A text of characters that are written here is written as the codec of
/// [`crate::util`] writes it.
pub proof fn lemma_utf8_text_agrees(s: Seq<char>)
    requires
        all_writable(s, utf8_tables()),
    ensures
        all_writable(s, standard_tables()),
        map_text(s, utf8_tables()) == map_text(s, standard_tables()),
        pack(map_text(s, utf8_tables())) == encode_text(s),
    decreases s.len(),
{
    assert forall|i: int| 0 <= i < s.len() implies map_char(
        #[trigger] s[i],
        standard_tables(),
    ) is Some by {
        lemma_utf8_agrees(s[i]);
    }
    if s.len() > 0 {
        let init = s.drop_last();
        assert(all_writable(init, utf8_tables()));
        lemma_utf8_text_agrees(init);
        lemma_utf8_agrees(s.last());
    }
}

/// A text of characters that are written here is read back unchanged from
/// its packed string.
pub proof fn lemma_utf8_text_roundtrip(s: Seq<char>)
    requires
        all_writable(s, utf8_tables()),
    ensures
        decode_text(pack(map_text(s, utf8_tables()))) == s,
{
    lemma_utf8_text_agrees(s);
    lemma_text_roundtrip(s);
}

/// The sixteen hexadecimal digits, in upper case.
pub const HEX_DIGITS: [char; 16] = [
    '0', '1', '2', '3', '4', '5', '6', '7',
    '8', '9', 'A', 'B', 'C', 'D', 'E', 'F',
];

/// The two hexadecimal digits of a byte.
pub open spec fn hex_pair(b: u8) -> Seq<char> {
    seq![HEX_DIGITS@[b as int / 16], HEX_DIGITS@[b as int % 16]]
}

/// The bytes in hexadecimal, two digits each, with one space between
/// neighbours.
pub open spec fn hex_text(bytes: Seq<u8>) -> Seq<char>
    decreases bytes.len(),
{
    if bytes.len() == 0 {
        Seq::empty()
    } else if bytes.len() == 1 {
        hex_pair(bytes[0])
    } else {
        hex_text(bytes.drop_last()) + seq![' '] + hex_pair(bytes.last())
    }
}

/// Writes bytes in hexadecimal: two upper-case digits for each byte, and a
/// space between two bytes.
pub fn format_vec(bytes: Vec<u8>) -> (s: String)
    ensures
        s@ == hex_text(bytes@),
{
    let mut s: String = String::new();
    let mut i: usize = 0;
    while i < bytes.len()
        invariant
            i <= bytes@.len(),
            s@ == hex_text(bytes@.take(i as int)),
        decreases bytes@.len() - i,
    {
        if i > 0 {
            s.push(' ');
        }
        let b: u8 = bytes[i];
        s.push(HEX_DIGITS[(b / 16) as usize]);
        s.push(HEX_DIGITS[(b % 16) as usize]);
        assert(bytes@.take(i + 1).drop_last() =~= bytes@.take(i as int));
        i += 1;
    }
    assert(bytes@.take(i as int) =~= bytes@);
    s
}

} // verus!
