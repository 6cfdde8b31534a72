use zmachine::zscii::{zscii_table, A0, A1, A2, S, ZSCII_LEN};

#[test]
fn alphabets_have_their_sizes() {
    assert_eq!(A0.len(), 26);
    assert_eq!(A1.len(), 26);
    assert_eq!(A2.len(), 25);
    assert_eq!(S.len(), 69);
    assert_eq!(zscii_table().len(), 255);
    assert_eq!(ZSCII_LEN, 255);
}

#[test]
fn alphabets_hold_letters_digits_and_punctuation() {
    let a0: String = A0.iter().collect();
    let a1: String = A1.iter().collect();
    let a2: String = A2.iter().collect();
    assert_eq!(a0, "abcdefghijklmnopqrstuvwxyz");
    assert_eq!(a1, "ABCDEFGHIJKLMNOPQRSTUVWXYZ");
    assert_eq!(a2, "^0123456789.,!?_#'\"/\\-:()");
}

#[test]
fn extra_characters_are_the_accented_letters() {
    let s: String = S.iter().collect();
    assert_eq!(s, "äöüÄÖÜß»«ëïÿËÏáéíóúýÁÉÍÓÚÝàèìòùÀÈÌÒÙâêîôûÂÊÎÔÛåÅøØãñõÃÑÕæÆçÇþðÞÐ£œŒ¡¿");
}

#[test]
fn zscii_table_control_codes() {
    let table = zscii_table();
    assert_eq!(table[0], Some(' '));
    assert_eq!(table[9], Some('\t'));
    assert_eq!(table[11], Some(' '));
    assert_eq!(table[13], Some('\n'));
    for code in 1..32 {
        if code != 9 && code != 11 && code != 13 {
            assert_eq!(table[code], None);
        }
    }
}

#[test]
fn zscii_table_ascii_codes() {
    let table = zscii_table();
    for code in 32u8..=126 {
        assert_eq!(table[code as usize], Some(code as char));
    }
    assert_eq!(table[32], Some(' '));
    assert_eq!(table[65], Some('A'));
    assert_eq!(table[126], Some('~'));
}

#[test]
fn zscii_table_extra_codes() {
    let table = zscii_table();
    for (i, c) in S.iter().enumerate() {
        assert_eq!(table[155 + i], Some(*c));
    }
    assert_eq!(table[155], Some('ä'));
    assert_eq!(table[161], Some('ß'));
    assert_eq!(table[223], Some('¿'));
}

#[test]
fn zscii_table_undefined_codes() {
    let table = zscii_table();
    for code in 127..155 {
        assert_eq!(table[code], None);
    }
    for code in 224..255 {
        assert_eq!(table[code], None);
    }
}

#[test]
fn zscii_table_counts_its_entries() {
    let defined = zscii_table().iter().filter(|entry| entry.is_some()).count();
    assert_eq!(defined, 4 + 95 + 69);
}
