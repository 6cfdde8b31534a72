//! What is written can be read back.
//!
//! The main statement is [`lemma_text_roundtrip`]: a text made of
//! characters that the standard tables hold is decoded from its packed
//! string unchanged. Of any other text, the characters that the tables do
//! not hold are dropped and the rest comes back
//! ([`lemma_text_roundtrip_drops`]). Both rest on two facts of their own
//! interest: unpacking returns the packed z-characters followed by padding
//! ([`lemma_unpack_pack_zchars`]), and reading returns the characters that
//! were written ([`lemma_unmap_text_of_map_text`]).

use crate::util::{
    all_zchars, decode_text, encode_text, map_char, map_text, pack, unmap, unmap_text, unpack,
    zchar_at, zchars_of, PADDING,
};
use crate::zscii::{standard_tables, Tables};
use vstd::prelude::*;

verus! {

/// Every index of the alphabets can be written as a z-character, and every
/// index of the ZSCII table in eight bits.
pub open spec fn tables_fit(t: Tables) -> bool {
    &&& t.a0.len() <= 26
    &&& t.a1.len() <= 26
    &&& t.a2.len() <= 25
    &&& t.zscii.len() <= 256
}

/// Every character of `s` is held by one of the tables.
pub open spec fn all_writable(s: Seq<char>, t: Tables) -> bool {
    forall|i: int| 0 <= i < s.len() ==> map_char(#[trigger] s[i], t) is Some
}

/// The z-characters that fill the last word behind `n` z-characters: as
/// many as bring `n` up to a multiple of three.
pub open spec fn padding_after(n: nat) -> Seq<u8> {
    Seq::new(((3 - n % 3) % 3) as nat, |i: int| PADDING)
}

/// The low five bits of every value of `bytes`.
pub open spec fn masked(bytes: Seq<u8>) -> Seq<u8> {
    Seq::new(bytes.len(), |i: int| bytes[i] & 0x1f)
}

/// A word gives back the three z-characters that it was made of, whether
/// or not its top bit is set.
proof fn lemma_word_roundtrip(c0: u8, c1: u8, c2: u8)
    by (bit_vector)
    requires
        c0 < 32,
        c1 < 32,
        c2 < 32,
    ensures
        ((((c0 << 2) | (c1 >> 3)) & 0x7c) >> 2) == c0,
        (((((c0 << 2) | (c1 >> 3)) | 0x80) & 0x7c) >> 2) == c0,
        ((((c0 << 2) | (c1 >> 3)) & 0x03) << 3) | ((((c1 << 5) | c2) & 0xe0) >> 5) == c1,
        (((((c0 << 2) | (c1 >> 3)) | 0x80) & 0x03) << 3) | ((((c1 << 5) | c2) & 0xe0) >> 5) == c1,
        ((c1 << 5) | c2) & 0x1f == c2,
{
}

/// Masking gives a z-character, and leaves a z-character as it is.
proof fn lemma_mask(c: u8)
    by (bit_vector)
    ensures
        c & 0x1f < 32,
        c < 32 ==> c & 0x1f == c,
{
}

/// Unpacking a packed string gives back the low five bits of what was
/// packed, followed by the padding of the last word.
pub proof fn lemma_unpack_pack(bytes: Seq<u8>)
    ensures
        unpack(pack(bytes)) == masked(bytes) + padding_after(bytes.len()),
{
    let packed = pack(bytes);
    let unpacked = unpack(packed);
    let expected = masked(bytes) + padding_after(bytes.len());
    assert(unpacked.len() == expected.len());
    assert forall|k: int| 0 <= k < unpacked.len() implies unpacked[k] == expected[k] by {
        let w: int = k / 3;
        let c0: u8 = zchar_at(bytes, 3 * w);
        let c1: u8 = zchar_at(bytes, 3 * w + 1);
        let c2: u8 = zchar_at(bytes, 3 * w + 2);
        lemma_mask(bytes[3 * w]);
        lemma_mask(bytes[3 * w + 1]);
        lemma_mask(bytes[3 * w + 2]);
        lemma_word_roundtrip(c0, c1, c2);
        assert(2 * w + 1 < packed.len());
    }
}

/// Unpacking packed z-characters gives them back, followed by the padding
/// of the last word.
pub proof fn lemma_unpack_pack_zchars(zchars: Seq<u8>)
    requires
        all_zchars(zchars),
    ensures
        unpack(pack(zchars)) == zchars + padding_after(zchars.len()),
{
    lemma_unpack_pack(zchars);
    assert forall|i: int| 0 <= i < zchars.len() implies masked(zchars)[i] == zchars[i] by {
        lemma_mask(zchars[i]);
    }
    assert(masked(zchars) =~= zchars);
}

/// Every z-character that writes a character fits in five bits.
pub proof fn lemma_zchars_of_fit(c: char, t: Tables)
    requires
        tables_fit(t),
    ensures
        all_zchars(zchars_of(c, t)),
{
    t.a0.index_of_first_ensures(c);
    t.a1.index_of_first_ensures(c);
    t.a2.index_of_first_ensures(c);
    t.zscii.index_of_first_ensures(Some(c));
}

/// Every z-character that writes a text fits in five bits.
pub proof fn lemma_map_text_fit(s: Seq<char>, t: Tables)
    requires
        tables_fit(t),
    ensures
        all_zchars(map_text(s, t)),
    decreases s.len(),
{
    if s.len() > 0 {
        lemma_map_text_fit(s.drop_last(), t);
        lemma_zchars_of_fit(s.last(), t);
    }
}

/// What writes a character spells that character, whatever follows.
pub proof fn lemma_unmap_of_map(c: char, t: Tables, rest: Seq<u8>)
    requires
        tables_fit(t),
        map_char(c, t) is Some,
    ensures
        unmap(zchars_of(c, t) + rest, t) == Some((c, zchars_of(c, t).len() as u8)),
        1 <= zchars_of(c, t).len() <= 4,
{
    t.a0.index_of_first_ensures(c);
    t.a1.index_of_first_ensures(c);
    t.a2.index_of_first_ensures(c);
    t.zscii.index_of_first_ensures(Some(c));
    let written = zchars_of(c, t);
    let zchars = written + rest;
    // `zchars` starts with what was written
    assert(forall|k: int| 0 <= k < written.len() ==> zchars[k] == written[k]);
    if c == ' ' {
        assert(zchars[0] == 0);
    } else if let Some(i) = t.a0.index_of_first(c) {
        assert(zchars[0] == i + 6);
    } else if let Some(i) = t.a1.index_of_first(c) {
        assert(zchars[0] == 4 && zchars[1] == i + 6);
    } else if let Some(i) = t.a2.index_of_first(c) {
        assert(zchars[0] == 5 && zchars[1] == i + 7);
    } else if let Some(i) = t.zscii.index_of_first(Some(c)) {
        assert(zchars[0] == 5 && zchars[1] == 6 && zchars[2] == i / 32 && zchars[3] == i % 32);
    }
}

/// A text is written as its first character, then the rest.
pub proof fn lemma_map_text_front(s: Seq<char>, t: Tables)
    requires
        s.len() > 0,
    ensures
        map_text(s, t) == zchars_of(s[0], t) + map_text(s.drop_first(), t),
    decreases s.len(),
{
    if s.len() == 1 {
        assert(s.drop_last() =~= Seq::<char>::empty());
        assert(s.drop_first() =~= Seq::<char>::empty());
    } else {
        let init = s.drop_last();
        lemma_map_text_front(init, t);
        assert(init.drop_first() =~= s.drop_first().drop_last());
    }
}

/// The characters of `s` that one of the tables holds, in their order.
pub open spec fn writable_part(s: Seq<char>, t: Tables) -> Seq<char> {
    s.filter(|c: char| map_char(c, t) is Some)
}

/// A text of which the tables hold every character is its own writable part.
pub proof fn lemma_writable_part_of_writable(s: Seq<char>, t: Tables)
    requires
        all_writable(s, t),
    ensures
        writable_part(s, t) == s,
    decreases s.len(),
{
    reveal(Seq::filter);
    if s.len() > 0 {
        let init = s.drop_last();
        assert(all_writable(init, t));
        lemma_writable_part_of_writable(init, t);
        assert(map_char(s[s.len() - 1], t) is Some);
        assert(init.push(s.last()) =~= s);
    }
}

/// Reading what writes a text gives back the characters of it that the
/// tables hold, and goes on with what follows.
pub proof fn lemma_unmap_text_of_map_text(s: Seq<char>, t: Tables, rest: Seq<u8>)
    requires
        tables_fit(t),
    ensures
        unmap_text(map_text(s, t) + rest, t) == writable_part(s, t) + unmap_text(rest, t),
    decreases s.len(),
{
    let held = |c: char| map_char(c, t) is Some;
    if s.len() == 0 {
        reveal(Seq::filter);
        assert(writable_part(s, t) + unmap_text(rest, t) =~= unmap_text(rest, t));
    } else {
        let c = s[0];
        let tail = s.drop_first();
        let written = zchars_of(c, t);
        let after = map_text(tail, t) + rest;
        let zchars = map_text(s, t) + rest;
        lemma_map_text_front(s, t);
        lemma_unmap_text_of_map_text(tail, t, rest);
        assert(zchars =~= written + after);
        assert(s =~= seq![c] + tail);
        Seq::filter_distributes_over_add(seq![c], tail, held);
        assert(seq![c].filter(held) =~= if held(c) {
            seq![c]
        } else {
            Seq::empty()
        }) by {
            reveal_with_fuel(Seq::filter, 2);
        }
        if map_char(c, t) is Some {
            lemma_unmap_of_map(c, t, after);
            assert(zchars.skip(written.len() as int) =~= after);
            assert(seq![c] + (writable_part(tail, t) + unmap_text(rest, t)) =~= writable_part(s, t)
                + unmap_text(rest, t));
        } else {
            assert(zchars =~= after);
        }
    }
}

/// The padding of a last word spells nothing.
pub proof fn lemma_padding_spells_nothing(n: nat, t: Tables)
    ensures
        unmap_text(padding_after(n), t) == Seq::<char>::empty(),
{
    let pad = padding_after(n);
    if pad.len() == 1 {
        assert(unmap_text(pad.skip(1), t) =~= Seq::<char>::empty());
    } else if pad.len() == 2 {
        let last = pad.skip(1);
        assert(unmap_text(last.skip(1), t) =~= Seq::<char>::empty());
        assert(unmap_text(last, t) =~= Seq::<char>::empty());
    }
}

/// The standard tables fit.
pub proof fn lemma_standard_tables_fit()
    ensures
        tables_fit(standard_tables()),
{
}

/// Decoding the packed string of a text gives back the characters of the
/// text that the standard tables hold: the others were dropped when the
/// text was encoded, and nothing else is lost or added.
pub proof fn lemma_text_roundtrip_drops(s: Seq<char>)
    ensures
        decode_text(encode_text(s)) == writable_part(s, standard_tables()),
{
    let t = standard_tables();
    let zchars = map_text(s, t);
    let pad = padding_after(zchars.len());
    lemma_standard_tables_fit();
    lemma_map_text_fit(s, t);
    lemma_unpack_pack_zchars(zchars);
    lemma_unmap_text_of_map_text(s, t, pad);
    lemma_padding_spells_nothing(zchars.len(), t);
}

/// Decoding the packed string of a text gives the text back, provided that
/// the standard tables hold every character of it.
pub proof fn lemma_text_roundtrip(s: Seq<char>)
    requires
        all_writable(s, standard_tables()),
    ensures
        decode_text(encode_text(s)) == s,
{
    lemma_text_roundtrip_drops(s);
    lemma_writable_part_of_writable(s, standard_tables());
}

} // verus!
