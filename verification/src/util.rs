//! Text codec.
//!
//! Text is held as z-characters, values of five bits, three to a 16-bit
//! word. [`zpack`] and [`zunpack`] move between z-characters and the bytes of
//! the words; [`zmap`] and [`zunmap`] move between z-characters and Unicode
//! characters by way of the alphabet tables; [`string_to_zstring`] and
//! [`zstring_to_string`] put the two together.

use crate::zscii::{standard_tables, tables_of, zscii_table, Tables, A0, A1, A2};
use vstd::prelude::*;
use vstd::std_specs::iter::IteratorSpec;

verus! {

// Packing: z-characters to words and back.

/// The z-character that fills the last word of a packed string.
pub const PADDING: u8 = 5;

/// The z-character at index `i` of the input of the packer: its low five
/// bits, or [`PADDING`] past the end.
pub open spec fn zchar_at(chars: Seq<u8>, i: int) -> u8 {
    if i < chars.len() {
        chars[i] & 0x1f
    } else {
        PADDING
    }
}

/// Byte `j` of the words that hold `chars`, before the last word is marked.
/// A word holds three z-characters `c0`, `c1`, `c2`: its first byte is
/// `c0 << 2 | c1 >> 3`, its second `c1 << 5 | c2`.
pub open spec fn word_byte(chars: Seq<u8>, j: int) -> u8 {
    let c0: u8 = zchar_at(chars, 3 * (j / 2));
    let c1: u8 = zchar_at(chars, 3 * (j / 2) + 1);
    let c2: u8 = zchar_at(chars, 3 * (j / 2) + 2);
    if j % 2 == 0 {
        (c0 << 2) | (c1 >> 3)
    } else {
        (c1 << 5) | c2
    }
}

/// Number of bytes that `n` z-characters pack into: two for every three, rounded up.
pub open spec fn packed_len(n: nat) -> nat {
    2 * ((n + 2) / 3)
}

/// The packed form of `chars`: the bytes of its words, with the top bit set
/// on the first byte of the last word.
pub open spec fn pack(chars: Seq<u8>) -> Seq<u8> {
    Seq::new(
        packed_len(chars.len()),
        |j: int|
            if j + 2 == packed_len(chars.len()) {
                word_byte(chars, j) | 0x80
            } else {
                word_byte(chars, j)
            },
    )
}

/// Every value of `zchars` is a z-character: it fits in five bits.
pub open spec fn all_zchars(zchars: Seq<u8>) -> bool {
    forall|i: int| 0 <= i < zchars.len() ==> zchars[i] < 32
}

/// Z-character `k` of the words in `bytes`. A trailing odd byte counts as a
/// word whose second byte is 0.
pub open spec fn unpacked_zchar(bytes: Seq<u8>, k: int) -> u8 {
    let b0: u8 = bytes[2 * (k / 3)];
    let b1: u8 = if 2 * (k / 3) + 1 < bytes.len() {
        bytes[2 * (k / 3) + 1]
    } else {
        0
    };
    if k % 3 == 0 {
        (b0 & 0x7c) >> 2
    } else if k % 3 == 1 {
        ((b0 & 0x03) << 3) | ((b1 & 0xe0) >> 5)
    } else {
        b1 & 0x1f
    }
}

/// Number of z-characters that `n` bytes unpack into: three for every two, rounded up.
pub open spec fn unpacked_len(n: nat) -> nat {
    3 * ((n + 1) / 2)
}

/// The z-characters held by the words in `bytes`.
pub open spec fn unpack(bytes: Seq<u8>) -> Seq<u8> {
    Seq::new(unpacked_len(bytes.len()), |k: int| unpacked_zchar(bytes, k))
}

/// What is unpacked fits in five bits.
pub proof fn lemma_unpack_fits(bytes: Seq<u8>)
    ensures
        all_zchars(unpack(bytes)),
{
    assert forall|k: int| 0 <= k < unpack(bytes).len() implies unpack(bytes)[k] < 32 by {
        let b0: u8 = bytes[2 * (k / 3)];
        let b1: u8 = if 2 * (k / 3) + 1 < bytes.len() {
            bytes[2 * (k / 3) + 1]
        } else {
            0
        };
        assert((b0 & 0x7c) >> 2 < 32 && ((b0 & 0x03) << 3) | ((b1 & 0xe0) >> 5) < 32 && b1 & 0x1f
            < 32) by (bit_vector);
    }
}

/// The end marker stands on the last word of a packed string and on no
/// other: the top bit of the first byte of a word is set where the word is
/// the last, and clear everywhere else.
pub proof fn lemma_end_marker(chars: Seq<u8>, word: int)
    requires
        0 <= word,
        2 * word < packed_len(chars.len()),
    ensures
        pack(chars)[2 * word] & 0x80 == (if 2 * word + 2 == packed_len(chars.len()) {
            0x80u8
        } else {
            0u8
        }),
{
    let x: u8 = chars[3 * word];
    let c1: u8 = zchar_at(chars, 3 * word + 1);
    assert((((x & 0x1f) << 2) | (c1 >> 3)) & 0x80 == 0 && ((((x & 0x1f) << 2) | (c1 >> 3)) | 0x80)
        & 0x80 == 0x80) by (bit_vector);
}

/// Packs a series of z-characters, three to a 16-bit word.
///
/// Only the low five bits of each input byte are used. A last word that is
/// not full is filled with [`PADDING`], and the top bit of its first byte is
/// set to mark the end of the string.
pub fn zpack(input: Vec<u8>) -> (v: Vec<u8>)
    ensures
        v@ == pack(input@),
        v@.len() == packed_len(input@.len()),
        v@.len() % 2 == 0,
{
    let n: usize = input.len();
    let mut v: Vec<u8> = Vec::new();
    let mut i: usize = 0;
    while i < n
        invariant
            n == input@.len(),
            i <= n,
            i % 3 == 0 || i == n,
            v@.len() == packed_len(i as nat),
            forall|j: int| 0 <= j < v@.len() ==> v@[j] == word_byte(input@, j),
        decreases n - i,
    {
        let left: usize = n - i;
        let chunk0: u8 = input[i] & 0x1f;
        let chunk1: u8 = if left >= 2 {
            input[i + 1] & 0x1f
        } else {
            PADDING
        };
        let chunk2: u8 = if left >= 3 {
            input[i + 2] & 0x1f
        } else {
            PADDING
        };
        let hb: u8 = (chunk0 << 2) | (chunk1 >> 3);
        let lb: u8 = (chunk1 << 5) | chunk2;
        v.push(hb);
        v.push(lb);
        i = if left >= 3 {
            i + 3
        } else {
            n
        };
    }
    if v.len() == 0 {
        return v;
    }
    // mark the last word
    let last: usize = v.len() - 2;
    let marked: u8 = v[last] | 0x80;
    v.set(last, marked);
    v
}

/// Unpacks a series of 16-bit words into the z-characters they hold, three
/// for each word. The end marker is dropped. An odd last byte is read as a
/// word whose second byte is 0.
pub fn zunpack(input: Vec<u8>) -> (v: Vec<u8>)
    ensures
        v@ == unpack(input@),
        v@.len() == unpacked_len(input@.len()),
        all_zchars(v@),
{
    proof {
        lemma_unpack_fits(input@);
    }
    let n: usize = input.len();
    let mut v: Vec<u8> = Vec::new();
    let mut i: usize = 0;
    while i < n
        invariant
            n == input@.len(),
            i <= n,
            i % 2 == 0 || i == n,
            v@.len() == unpacked_len(i as nat),
            forall|k: int| 0 <= k < v@.len() ==> v@[k] == unpacked_zchar(input@, k),
        decreases n - i,
    {
        let left: usize = n - i;
        let chunk0: u8 = input[i];
        let chunk1: u8 = if left >= 2 {
            input[i + 1]
        } else {
            0
        };
        let zchar0: u8 = (chunk0 & 0x7c) >> 2;
        let zchar1: u8 = ((chunk0 & 0x03) << 3) | ((chunk1 & 0xe0) >> 5);
        let zchar2: u8 = chunk1 & 0x1f;
        v.push(zchar0);
        v.push(zchar1);
        v.push(zchar2);
        i = if left >= 2 {
            i + 2
        } else {
            n
        };
    }
    v
}

// Characters: one character to z-characters and back.

/// The z-characters that write ZSCII code `code`: the escape 5, 6, then the
/// three bits of `code` above the low five, then its low five bits.
pub open spec fn zscii_escape(code: int) -> Seq<u8> {
    seq![5u8, 6u8, ((code / 32) % 8) as u8, (code % 32) as u8]
}

/// The z-characters that write `c`, or `None` where no table holds `c`.
///
/// A space is z-character 0. A character of `a0` is its index plus 6; one of
/// `a1` is the shift 4 and then its index plus 6; one of `a2` is the shift 5
/// and then its index plus 7. Any other character is written by the index
/// of its first entry in the ZSCII table.
pub open spec fn map_char(c: char, t: Tables) -> Option<Seq<u8>> {
    if c == ' ' {
        Some(seq![0u8])
    } else if let Some(i) = t.a0.index_of_first(c) {
        Some(seq![(i + 6) as u8])
    } else if let Some(i) = t.a1.index_of_first(c) {
        Some(seq![4u8, (i + 6) as u8])
    } else if let Some(i) = t.a2.index_of_first(c) {
        Some(seq![5u8, (i + 7) as u8])
    } else if let Some(i) = t.zscii.index_of_first(Some(c)) {
        Some(zscii_escape(i))
    } else {
        None
    }
}

/// The ZSCII code that two z-characters spell: the low five bits of `high`
/// above the low five bits of `low`.
pub open spec fn zscii_code(high: u8, low: u8) -> int {
    (high % 32) * 32 + low % 32
}

/// The character that `zchars` starts with and the number of z-characters
/// that spell it, or `None` where `zchars` starts with no character.
///
/// Z-characters 1, 2 and 3 and values over 31 spell nothing, and neither
/// does an index that lies outside its table.
pub open spec fn unmap(zchars: Seq<u8>, t: Tables) -> Option<(char, u8)> {
    if zchars.len() < 1 {
        None
    } else if zchars[0] == 0 {
        Some((' ', 1u8))
    } else if zchars[0] == 4 {
        if zchars.len() >= 2 && 6 <= zchars[1] <= 31 && zchars[1] - 6 < t.a1.len() {
            Some((t.a1[zchars[1] - 6], 2u8))
        } else {
            None
        }
    } else if zchars[0] == 5 {
        if zchars.len() < 2 {
            None
        } else if zchars[1] == 6 {
            if zchars.len() >= 4 && zscii_code(zchars[2], zchars[3]) < t.zscii.len() {
                match t.zscii[zscii_code(zchars[2], zchars[3])] {
                    Some(c) => Some((c, 4u8)),
                    None => None,
                }
            } else {
                None
            }
        } else if 7 <= zchars[1] <= 31 && zchars[1] - 7 < t.a2.len() {
            Some((t.a2[zchars[1] - 7], 2u8))
        } else {
            None
        }
    } else if 6 <= zchars[0] <= 31 && zchars[0] - 6 < t.a0.len() {
        Some((t.a0[zchars[0] - 6], 1u8))
    } else {
        None
    }
}

/// A character can be written exactly where it is a space or one of the
/// tables holds it.
pub proof fn lemma_map_char_is_some(c: char, t: Tables)
    ensures
        map_char(c, t) is Some <==> c == ' ' || t.a0.contains(c) || t.a1.contains(c)
            || t.a2.contains(c) || t.zscii.contains(Some(c)),
{
    t.a0.index_of_first_ensures(c);
    t.a1.index_of_first_ensures(c);
    t.a2.index_of_first_ensures(c);
    t.zscii.index_of_first_ensures(Some(c));
}

/// `unmap` consumes what it reads: one, two or four z-characters, and no
/// more than there are.
pub proof fn lemma_unmap_consumes(zchars: Seq<u8>, t: Tables)
    ensures
        unmap(zchars, t) matches Some((_, n)) ==> (n == 1 || n == 2 || n == 4) && n
            <= zchars.len(),
{
}

/// A single z-character from 6 to 31 spells the entry of alphabet 0 that
/// it addresses.
pub proof fn lemma_unmap_alphabet0(v: u8)
    requires
        6 <= v <= 31,
    ensures
        unmap(seq![v], standard_tables()) == Some((A0@[v - 6], 1u8)),
{
}

/// `unmap` reads no further than four z-characters.
pub proof fn lemma_unmap_lookahead(zchars: Seq<u8>, t: Tables)
    requires
        zchars.len() >= 4,
    ensures
        unmap(zchars.take(4), t) == unmap(zchars, t),
{
}

/// Finds the first entry of `table` that is `c`.
pub(crate) fn find_char(table: &[char], c: char) -> (r: Option<usize>)
    ensures
        r is Some <==> table@.index_of_first(c) is Some,
        r matches Some(i) ==> i < table@.len() && table@.index_of_first(c) == Some(i as int),
{
    let mut i: usize = 0;
    while i < table.len()
        invariant
            i <= table@.len(),
            forall|j: int| 0 <= j < i ==> table@[j] != c,
        decreases table@.len() - i,
    {
        if table[i] == c {
            proof {
                table@.index_of_first_ensures(c);
            }
            return Some(i);
        }
        i += 1;
    }
    proof {
        table@.index_of_first_ensures(c);
    }
    None
}

/// Finds the first entry of `table` that holds `c`.
fn find_entry(table: &[Option<char>], c: char) -> (r: Option<usize>)
    ensures
        r is Some <==> table@.index_of_first(Some(c)) is Some,
        r matches Some(i) ==> i < table@.len() && table@.index_of_first(Some(c)) == Some(
            i as int,
        ),
{
    let mut i: usize = 0;
    while i < table.len()
        invariant
            i <= table@.len(),
            forall|j: int| 0 <= j < i ==> table@[j] != Some(c),
        decreases table@.len() - i,
    {
        let found: bool = match table[i] {
            Some(x) => x == c,
            None => false,
        };
        if found {
            proof {
                table@.index_of_first_ensures(Some(c));
            }
            return Some(i);
        }
        i += 1;
    }
    proof {
        table@.index_of_first_ensures(Some(c));
    }
    None
}

/// Maps `c` to z-characters by the given tables.
fn map_by(c: char, a0: &[char], a1: &[char], a2: &[char], zscii: &[Option<char>]) -> (r: Option<
    Vec<u8>,
>)
    requires
        a0@.len() + 6 <= 256,
        a1@.len() + 6 <= 256,
        a2@.len() + 7 <= 256,
    ensures
        r is Some <==> map_char(c, tables_of(a0@, a1@, a2@, zscii@)) is Some,
        r matches Some(v) ==> Some(v@) == map_char(c, tables_of(a0@, a1@, a2@, zscii@)),
{
    let mut v: Vec<u8> = Vec::new();
    if c == ' ' {
        v.push(0);
        return Some(v);
    }
    if let Some(index) = find_char(a0, c) {
        v.push(index as u8 + 6);
        return Some(v);
    }
    if let Some(index) = find_char(a1, c) {
        v.push(0x04);
        v.push(index as u8 + 6);
        return Some(v);
    }
    if let Some(index) = find_char(a2, c) {
        v.push(0x05);
        v.push(index as u8 + 7);
        return Some(v);
    }
    match find_entry(zscii, c) {
        Some(index) => {
            v.push(0x05);
            v.push(0x06);
            let hb: u8 = ((index & 0xe0) >> 5) as u8;
            let lb: u8 = (index & 0x1f) as u8;
            v.push(hb);
            v.push(lb);
            proof {
                assert((index & 0xe0) >> 5 == (index / 32) % 8) by (bit_vector);
                assert(index & 0x1f == index % 32) by (bit_vector);
            }
            Some(v)
        },
        None => None,
    }
}

/// Maps a character to the z-characters that write it.
///
/// The mapping goes by the alphabets `a0`, `a1` and `a2` and by the table
/// `zscii`. Returns `None` where none of them holds `c`.
///
/// The alphabets must be short enough for every index, with its offset
/// added, to fit in a byte.
pub fn zmap(c: char, a0: Vec<char>, a1: Vec<char>, a2: Vec<char>, zscii: Vec<Option<char>>) -> (r:
    Option<Vec<u8>>)
    requires
        a0@.len() + 6 <= 256,
        a1@.len() + 6 <= 256,
        a2@.len() + 7 <= 256,
    ensures
        r is Some <==> map_char(c, tables_of(a0@, a1@, a2@, zscii@)) is Some,
        r matches Some(v) ==> Some(v@) == map_char(c, tables_of(a0@, a1@, a2@, zscii@)),
{
    map_by(c, a0.as_slice(), a1.as_slice(), a2.as_slice(), zscii.as_slice())
}

/// Reads the character that `zchars` spells from index `start` on.
fn unmap_at(
    zchars: &[u8],
    start: usize,
    a0: &[char],
    a1: &[char],
    a2: &[char],
    zscii: &[Option<char>],
) -> (r: Option<(char, u8)>)
    requires
        start <= zchars@.len(),
    ensures
        r == unmap(zchars@.skip(start as int), tables_of(a0@, a1@, a2@, zscii@)),
{
    let left: usize = zchars.len() - start;
    if left < 1 {
        return None;
    }
    let first: u8 = zchars[start];
    if first == 0 {
        // null character
        Some((' ', 1))
    } else if first == 4 {
        // shift to A1
        if left < 2 {
            return None;
        }
        let second: u8 = zchars[start + 1];
        if second > 5 && second <= 31 {
            let index: usize = (second - 6) as usize;
            if index < a1.len() {
                return Some((a1[index], 2));
            }
        }
        None
    } else if first == 5 {
        // shift to A2
        if left < 2 {
            return None;
        }
        let second: u8 = zchars[start + 1];
        if second == 6 {
            // a ZSCII code follows
            if left < 4 {
                return None;
            }
            let third: u8 = zchars[start + 2];
            let fourth: u8 = zchars[start + 3];
            let hb: u16 = ((third & 0x1f) as u16) << 5;
            let lb: u16 = (fourth & 0x1f) as u16;
            let index: usize = (hb | lb) as usize;
            assert((((third & 0x1f) as u16) << 5) | ((fourth & 0x1f) as u16) == (third % 32) * 32
                + fourth % 32) by (bit_vector);
            if index < zscii.len() {
                match zscii[index] {
                    Some(c) => Some((c, 4)),
                    None => None,
                }
            } else {
                None
            }
        } else if second > 6 && second <= 31 {
            let index: usize = (second - 7) as usize;
            if index < a2.len() {
                Some((a2[index], 2))
            } else {
                None
            }
        } else {
            None
        }
    } else if first > 5 && first <= 31 {
        let index: usize = (first - 6) as usize;
        if index < a0.len() {
            Some((a0[index], 1))
        } else {
            None
        }
    } else {
        None
    }
}

/// Reads the character at the start of `zchars`, and tells how many
/// z-characters spell it.
///
/// Returns `None` where `zchars` is empty, starts with z-character 1, 2 or
/// 3 or with a value over 31, breaks off within a sequence, or names an
/// index that its table does not have.
pub fn zunmap(
    zchars: Vec<u8>,
    a0: Vec<char>,
    a1: Vec<char>,
    a2: Vec<char>,
    zscii: Vec<Option<char>>,
) -> (r: Option<(char, u8)>)
    ensures
        r == unmap(zchars@, tables_of(a0@, a1@, a2@, zscii@)),
{
    unmap_at(zchars.as_slice(), 0, a0.as_slice(), a1.as_slice(), a2.as_slice(), zscii.as_slice())
}

// Text: strings to packed strings and back.

/// The z-characters that write `c`; none where no table holds `c`.
pub open spec fn zchars_of(c: char, t: Tables) -> Seq<u8> {
    match map_char(c, t) {
        Some(zchars) => zchars,
        None => Seq::empty(),
    }
}

/// The z-characters that write the text `s`: those of its characters, one
/// after the other. A character that no table holds is left out.
pub open spec fn map_text(s: Seq<char>, t: Tables) -> Seq<u8>
    decreases s.len(),
{
    if s.len() == 0 {
        Seq::empty()
    } else {
        map_text(s.drop_last(), t) + zchars_of(s.last(), t)
    }
}

/// The text that `zchars` spells, read from left to right. Where `zchars`
/// starts with no character, one z-character is skipped.
pub open spec fn unmap_text(zchars: Seq<u8>, t: Tables) -> Seq<char>
    decreases zchars.len(),
{
    if zchars.len() == 0 {
        Seq::empty()
    } else {
        match unmap(zchars, t) {
            Some((c, n)) => seq![c] + unmap_text(zchars.skip(n as int), t),
            None => unmap_text(zchars.skip(1), t),
        }
    }
}

/// The packed string that holds the text `s`.
pub open spec fn encode_text(s: Seq<char>) -> Seq<u8> {
    pack(map_text(s, standard_tables()))
}

/// The text that the packed string `bytes` holds.
pub open spec fn decode_text(bytes: Seq<u8>) -> Seq<char> {
    unmap_text(unpack(bytes), standard_tables())
}

/// `String::push` of the standard library appends one character to the end
/// of the string and changes nothing else.
pub assume_specification[ String::push ](s: &mut String, ch: char)
    ensures
        final(s)@ == old(s)@.push(ch),
;

/// A text that ends with `c` is written as the text before it, then `c`.
pub proof fn lemma_map_text_push(s: Seq<char>, c: char, t: Tables)
    ensures
        map_text(s.push(c), t) == map_text(s, t) + zchars_of(c, t),
{
    assert(s.push(c).drop_last() =~= s);
}

/// Converts a string to a packed string of z-characters.
///
/// Each character is mapped by the standard tables; one that they do not
/// hold is dropped. The z-characters are then packed.
pub fn string_to_zstring(s: String) -> (v: Vec<u8>)
    ensures
        v@ == encode_text(s@),
{
    let table: [Option<char>; 255] = zscii_table();
    let ghost t = standard_tables();
    let mut v: Vec<u8> = Vec::new();
    for x in it: s.as_str().chars()
        invariant
            it.seq() == s@,
            t == standard_tables(),
            table@ == t.zscii,
            v@ == map_text(s@.take(it.index()), t),
    {
        let ghost before = s@.take(it.index());
        let chars = map_by(x, &A0, &A1, &A2, &table);
        proof {
            assert(s@.take(it.index() + 1) =~= before.push(x));
            lemma_map_text_push(before, x, t);
        }
        match chars {
            Some(mut c) => {
                v.append(&mut c);
            },
            None => {},
        }
    }
    assert(s@.take(s@.len() as int) =~= s@);
    zpack(v)
}

/// Converts a packed string of z-characters to a string.
///
/// The z-characters are unpacked and read from left to right. Where they
/// spell no character, one z-character is skipped and reading goes on.
pub fn zstring_to_string(z: Vec<u8>) -> (s: String)
    ensures
        s@ == decode_text(z@),
{
    let v: Vec<u8> = zunpack(z);
    let table: [Option<char>; 255] = zscii_table();
    let ghost t = standard_tables();
    let mut s: String = String::new();
    let mut i: usize = 0;
    proof {
        assert(v@.skip(0) =~= v@);
    }
    while i < v.len()
        invariant
            i <= v@.len(),
            t == standard_tables(),
            table@ == t.zscii,
            s@ + unmap_text(v@.skip(i as int), t) == unmap_text(v@, t),
        decreases v@.len() - i,
    {
        let ghost rest = v@.skip(i as int);
        let c = unmap_at(v.as_slice(), i, &A0, &A1, &A2, &table);
        proof {
            lemma_unmap_consumes(rest, t);
        }
        match c {
            Some(x) => {
                proof {
                    assert(rest.skip(x.1 as int) =~= v@.skip(i + x.1));
                    assert(s@.push(x.0) + unmap_text(v@.skip(i + x.1), t) =~= s@ + unmap_text(
                        rest,
                        t,
                    ));
                }
                s.push(x.0);
                i += x.1 as usize;
            },
            None => {
                proof {
                    assert(rest.skip(1) =~= v@.skip(i + 1));
                }
                i += 1;
            },
        }
    }
    s
}

} // verus!
