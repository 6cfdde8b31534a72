//! Alphabet tables and the ZSCII table.
//!
//! A z-character addresses the three alphabets directly: values 6 to 31
//! stand for the entries of `A0` and `A1`, values 7 to 31 for those of `A2`.
//! Every other character is written as an index into the ZSCII table.

use vstd::prelude::*;

verus! {

/// Alphabet 0: the lower-case letters.
pub const A0: [char; 26] = [
    'a', 'b', 'c', 'd', 'e', 'f', 'g', 'h',
    'i', 'j', 'k', 'l', 'm', 'n', 'o', 'p',
    'q', 'r', 's', 't', 'u', 'v', 'w', 'x',
    'y', 'z',
];

/// Alphabet 1: the upper-case letters.
pub const A1: [char; 26] = [
    'A', 'B', 'C', 'D', 'E', 'F', 'G', 'H',
    'I', 'J', 'K', 'L', 'M', 'N', 'O', 'P',
    'Q', 'R', 'S', 'T', 'U', 'V', 'W', 'X',
    'Y', 'Z',
];

/// Alphabet 2: digits and punctuation.
pub const A2: [char; 25] = [
    '^', '0', '1', '2', '3', '4', '5', '6',
    '7', '8', '9', '.', ',', '!', '?', '_',
    '#', '\'', '"', '/', '\\', '-', ':', '(', ')',
];

/// The extra characters: those of ZSCII codes 155 to 223.
pub const S: [char; 69] = [
    'ä', 'ö', 'ü', 'Ä', 'Ö', 'Ü', 'ß', '»',
    '«', 'ë', 'ï', 'ÿ', 'Ë', 'Ï', 'á', 'é',
    'í', 'ó', 'ú', 'ý', 'Á', 'É', 'Í', 'Ó',
    'Ú', 'Ý', 'à', 'è', 'ì', 'ò', 'ù', 'À',
    'È', 'Ì', 'Ò', 'Ù', 'â', 'ê', 'î', 'ô',
    'û', 'Â', 'Ê', 'Î', 'Ô', 'Û', 'å', 'Å',
    'ø', 'Ø', 'ã', 'ñ', 'õ', 'Ã', 'Ñ', 'Õ',
    'æ', 'Æ', 'ç', 'Ç', 'þ', 'ð', 'Þ', 'Ð',
    '£', 'œ', 'Œ', '¡', '¿',
];

/// Number of entries of the ZSCII table.
pub const ZSCII_LEN: usize = 255;

/// The character of ZSCII code `code`, or `None` where the code has none.
///
/// Codes 0 and 11 are a space, 9 a tabulation, 13 a new line; codes 32 to
/// 126 are the ASCII characters of the same number; codes 155 to 223 are the
/// entries of [`S`].
pub open spec fn zscii_entry(code: int) -> Option<char> {
    if code == 0 || code == 11 {
        Some(' ')
    } else if code == 9 {
        Some('\t')
    } else if code == 13 {
        Some('\n')
    } else if 32 <= code <= 126 {
        Some(code as char)
    } else if 155 <= code <= 223 {
        Some(S@[code - 155])
    } else {
        None
    }
}

/// The ZSCII table as a sequence: entry `i` is [`zscii_entry`]`(i)`.
pub open spec fn zscii_entries() -> Seq<Option<char>> {
    Seq::new(ZSCII_LEN as nat, |code: int| zscii_entry(code))
}

/// The tables that the text codec works with.
pub struct Tables {
    pub a0: Seq<char>,
    pub a1: Seq<char>,
    pub a2: Seq<char>,
    pub zscii: Seq<Option<char>>,
}

/// The tables made of the given sequences.
pub open spec fn tables_of(
    a0: Seq<char>,
    a1: Seq<char>,
    a2: Seq<char>,
    zscii: Seq<Option<char>>,
) -> Tables {
    Tables { a0, a1, a2, zscii }
}

/// The tables of this module.
pub open spec fn standard_tables() -> Tables {
    tables_of(A0@, A1@, A2@, zscii_entries())
}

/// Builds the ZSCII table.
pub fn zscii_table() -> (table: [Option<char>; 255])
    ensures
        table@ == zscii_entries(),
{
    let mut table: [Option<char>; 255] = [None; 255];
    table[0] = Some(' ');
    table[9] = Some('\t');
    table[11] = Some(' ');
    table[13] = Some('\n');
    let mut code: u8 = 32;
    while code <= 126
        invariant
            32 <= code <= 127,
            forall|i: int| 0 <= i < code ==> table@[i] == zscii_entry(i),
            forall|i: int| code <= i < 255 ==> table@[i] is None,
        decreases 127 - code,
    {
        table[code as usize] = Some(code as char);
        code += 1;
    }
    let mut i: usize = 0;
    while i < 69
        invariant
            i <= 69,
            forall|j: int| 0 <= j < 155 + i ==> table@[j] == zscii_entry(j),
            forall|j: int| 155 + i <= j < 255 ==> table@[j] is None,
        decreases 69 - i,
    {
        table[155 + i] = Some(S[i]);
        i += 1;
    }
    table
}

} // verus!
