use zmachine::zcode::{decode_instruction, ZInstruction, ZOperand};

#[test]
fn test_decode_detects_long_form_2op_small_small(){
    for i in 0x00..0x1f {
        // correct number of operands
        let decoded = decode_instruction(vec![i, 0x5a, 0xa5]).unwrap();
        let expected = ZInstruction {
            opcode: i & 0b11111,
            operand_count: 2,
            operands: [
                Some(ZOperand::Small{value: 0x5a}),
                Some(ZOperand::Small{value: 0xa5}),
                None, None, None, None, None, None
            ]
        };
        assert_eq!(decoded, expected);

        // wrong number of operands
        let decoded = decode_instruction(vec![i, 0x5a]);
        let expected: Option<_> = None;
        assert_eq!(decoded, expected);
    }
}

#[test]
fn test_decode_detects_long_form_2op_small_variable(){
    for i in 0x20..0x3f {
        // correct number of operands
        let decoded = decode_instruction(vec![i, 0x5a, 0xa5]).unwrap();
        let expected = ZInstruction {
            opcode: i & 0b11111,
            operand_count: 2,
            operands: [
                Some(ZOperand::Small{value: 0x5a}),
                Some(ZOperand::Variable {value: 0xa5}),
                None, None, None, None, None, None
            ]
        };
        assert_eq!(decoded, expected);

        // wrong number of operands
        let decoded = decode_instruction(vec![i, 0x5a]);
        let expected: Option<_> = None;
        assert_eq!(decoded, expected);
    }
}

#[test]
fn test_decode_detects_long_form_2op_variable_small(){
    for i in 0x40..0x5f {
        // correct number of operands
        let decoded = decode_instruction(vec![i, 0x5a, 0xa5]).unwrap();
        let expected = ZInstruction {
            opcode: i & 0b11111,
            operand_count: 2,
            operands: [
                Some(ZOperand::Variable{value: 0x5a}),
                Some(ZOperand::Small{value: 0xa5}),
                None, None, None, None, None, None
            ]
        };
        assert_eq!(decoded, expected);

        // wrong number of operands
        let decoded = decode_instruction(vec![i, 0x5a]);
        let expected: Option<_> = None;
        assert_eq!(decoded, expected);
    }
}

#[test]
fn test_decode_detects_long_form_2op_variable_variable(){
    for i in 0x60..0x7f {
        // correct number of operands
        let decoded = decode_instruction(vec![i, 0x5a, 0xa5]).unwrap();
        let expected = ZInstruction {
            opcode: i & 0b11111,
            operand_count: 2,
            operands: [
                Some(ZOperand::Variable{value: 0x5a}),
                Some(ZOperand::Variable{value: 0xa5}),
                None, None, None, None, None, None
            ]
        };
        assert_eq!(decoded, expected);

        // wrong number of operands
        let decoded = decode_instruction(vec![i, 0x5a]);
        let expected: Option<_> = None;
        assert_eq!(decoded, expected);
    }
}

#[test]
fn test_decode_detects_short_form_1op_large(){
    for i in 0x80..0x8f {
        // correct number of operands
        let decoded = decode_instruction(vec![i, 0x5a, 0xa5]).unwrap();
        let expected = ZInstruction {
            opcode: i & 0b1111,
            operand_count: 1,
            operands: [
                Some(ZOperand::Large{value: [0x5a, 0xa5]}),
                None, None, None, None, None, None, None
            ]
        };
        assert_eq!(decoded, expected);

        // wrong number of operands
        let decoded = decode_instruction(vec![i, 0x5a]);
        let expected: Option<_> = None;
        assert_eq!(decoded, expected);
    }
}

#[test]
fn test_decode_detects_short_form_1op_small(){
    for i in 0x90..0x9f {
        // correct number of operands
        let decoded = decode_instruction(vec![i, 0x5a]).unwrap();
        let expected = ZInstruction {
            opcode: i & 0b1111,
            operand_count: 1,
            operands: [
                Some(ZOperand::Small{value: 0x5a}),
                None, None, None, None, None, None, None
            ]
        };
        assert_eq!(decoded, expected);

        // wrong number of operands
        let decoded = decode_instruction(vec![i]);
        let expected: Option<_> = None;
        assert_eq!(decoded, expected);
    }
}

#[test]
fn test_decode_detects_short_form_1op_variable(){
    for i in 0xa0..0xaf {
        // correct number of operands
        let decoded = decode_instruction(vec![i, 0x5a]).unwrap();
        let expected = ZInstruction {
            opcode: i & 0b1111,
            operand_count: 1,
            operands: [
                Some(ZOperand::Variable{value: 0x5a}),
                None, None, None, None, None, None, None
            ]
        };
        assert_eq!(decoded, expected);

        // wrong number of operands
        let decoded = decode_instruction(vec![i]);
        let expected: Option<_> = None;
        assert_eq!(decoded, expected);
    }
}

#[test]
fn test_decode_detects_short_form_0op(){
    for i in 0xb0..0xbf {
        if i == 0xbe {
            // skip extended instructions
            continue;
        }
        // correct number of operands
        let decoded = decode_instruction(vec![i]).unwrap();
        let expected = ZInstruction {
            opcode: i & 0b1111,
            operand_count: 0,
            operands: [
                None, None, None, None, None, None, None, None
            ]
        };
        assert_eq!(decoded, expected);

        // wrong number of operands
        let decoded = decode_instruction(vec![]);
        let expected: Option<_> = None;
        assert_eq!(decoded, expected);
    }
}

#[test]
fn test_decode_detects_variable_form_2op_var(){
    for i in 0xc0..=0xdf {
        let opcode: u8 = i & 0b11111;

        // omitting all operands is illegal
        let optypes = 0b11111111;
        let decoded = decode_instruction(vec![
            i, optypes,
            0x00, 0x00, 0x00, 0x00,
            0x00, 0x00, 0x00, 0x00,
            0x00, 0x00, 0x00, 0x00,
            0x00, 0x00, 0x00, 0x00,
            0x00, 0x00, 0x00, 0x00,
            0x00, 0x00, 0x00, 0x00,
        ]);
        assert_eq!(decoded, None);

        // only 1 operand provided is illegal
        let opcode: u8 = i & 0b11111;
        let optypes = 0b00111111;
        let decoded = decode_instruction(vec![
            i, optypes,
            0x00, 0x00, 0x00, 0x00,
            0x00, 0x00, 0x00, 0x00,
            0x00, 0x00, 0x00, 0x00,
            0x00, 0x00, 0x00, 0x00,
            0x00, 0x00, 0x00, 0x00,
            0x00, 0x00, 0x00, 0x00,
        ]);
        assert_eq!(decoded, None);

        // provide 2 large constants
        let optypes = 0b00001111;
        let decoded = decode_instruction(vec![
            i, optypes,
            0x01, 0x02, 0x03, 0x04,
        ]).unwrap();
        let expected = ZInstruction {
            opcode: opcode,
            operand_count: 2,
            operands: [
                Some(ZOperand::Large { value: [0x01, 0x02] }),
                Some(ZOperand::Large { value: [0x03, 0x04] }),
                None, None, None, None, None, None
            ]
        };
        assert_eq!(decoded, expected);

        // provide 2 large constants - but not enough to read from
        let optypes = 0b00001111;
        let decoded = decode_instruction(vec![
            i, optypes,
            0x01, 0x02, 0x03,
        ]);
        assert_eq!(decoded, None);

        // provide 2 small constants
        let optypes = 0b01011111;
        let decoded = decode_instruction(vec![
            i, optypes,
            0x01, 0x03,
        ]).unwrap();
        let expected = ZInstruction {
            opcode: opcode,
            operand_count: 2,
            operands: [
                Some(ZOperand::Small { value: 0x01 }),
                Some(ZOperand::Small { value: 0x03 }),
                None, None, None, None, None, None
            ]
        };
        assert_eq!(decoded, expected);

        // provide 2 small constants - but not enough to read from
        let optypes = 0b01011111;
        let decoded = decode_instruction(vec![
            i, optypes,
            0x01,
        ]);
        assert_eq!(decoded, None);

        // provide 2 variables
        let optypes = 0b10101111;
        let decoded = decode_instruction(vec![
            i, optypes,
            0x01, 0x03,
        ]).unwrap();
        let expected = ZInstruction {
            opcode: opcode,
            operand_count: 2,
            operands: [
                Some(ZOperand::Variable { value: 0x01 }),
                Some(ZOperand::Variable { value: 0x03 }),
                None, None, None, None, None, None
            ]
        };
        assert_eq!(decoded, expected);

        // provide 2 variables - but not enough to read from
        let optypes = 0b10101111;
        let decoded = decode_instruction(vec![
            i, optypes,
            0x01,
        ]);
        assert_eq!(decoded, None);

        // provide large constant and variable
        let optypes = 0b00101111;
        let decoded = decode_instruction(vec![
            i, optypes,
            0x01, 0x02, 0x03,
        ]).unwrap();
        let expected = ZInstruction {
            opcode: opcode,
            operand_count: 2,
            operands: [
                Some(ZOperand::Large { value: [0x01, 0x02] }),
                Some(ZOperand::Variable { value: 0x03 }),
                None, None, None, None, None, None
            ]
        };
        assert_eq!(decoded, expected);

        // provide large constant and variable - but not enough to read from
        let optypes = 0b00101111;
        let decoded = decode_instruction(vec![
            i, optypes,
            0x01,
        ]);
        assert_eq!(decoded, None);

        // provide three large constants - third will be ignored
        // (even if not enough mem is provided)
        let optypes = 0b00000011;
        let decoded = decode_instruction(vec![
            i, optypes,
            0x01, 0x02, 0x03, 0x04
        ]).unwrap();
        let expected = ZInstruction {
            opcode: opcode,
            operand_count: 2,
            operands: [
                Some(ZOperand::Large { value: [0x01, 0x02] }),
                Some(ZOperand::Large{ value: [0x03, 0x04] }),
                None, None, None, None, None, None
            ]
        };
        assert_eq!(decoded, expected);

    }
}

#[test]
fn test_decode_detects_variable_form_opcount_var() {
    for i in 0xe0..=0xff {
        let opcode: u8 = i & 0b11111;

        // skip double var instructions
        if opcode == 12 || opcode == 26 {
            continue;
        }

        // provide 2 large constants
        let optypes = 0b00001111;
        let decoded = decode_instruction(vec![
            i, optypes,
            0x01, 0x02, 0x03, 0x04,
        ]).unwrap();
        let expected = ZInstruction {
            opcode: opcode,
            operand_count: 2,
            operands: [
                Some(ZOperand::Large { value: [0x01, 0x02] }),
                Some(ZOperand::Large { value: [0x03, 0x04] }),
                None, None, None, None, None, None
            ]
        };
        assert_eq!(decoded, expected);

        // provide 2 large constants - but not enough to read from
        let optypes = 0b00001111;
        let decoded = decode_instruction(vec![
            i, optypes,
            0x01, 0x02, 0x03,
        ]);
        assert_eq!(decoded, None);

        // provide 3 large constants
        let optypes = 0b00000011;
        let decoded = decode_instruction(vec![
            i, optypes,
            0x01, 0x02, 0x03, 0x04, 0x05, 0x06
        ]).unwrap();
        let expected = ZInstruction {
            opcode: opcode,
            operand_count: 3,
            operands: [
                Some(ZOperand::Large { value: [0x01, 0x02] }),
                Some(ZOperand::Large { value: [0x03, 0x04] }),
                Some(ZOperand::Large { value: [0x05, 0x06] }),
                None, None, None, None, None
            ]
        };
        assert_eq!(decoded, expected);

        // provide 3 large constants - but split by
        // ommitted -> ignore third operand and interpret
        // as 2OP
        let optypes = 0b00001100;
        let decoded = decode_instruction(vec![
            i, optypes,
            0x01, 0x02, 0x03, 0x04
        ]).unwrap();
        let expected = ZInstruction {
            opcode: opcode,
            operand_count: 2,
            operands: [
                Some(ZOperand::Large { value: [0x01, 0x02] }),
                Some(ZOperand::Large { value: [0x03, 0x04] }),
                None, None, None, None, None, None
            ]
        };
        assert_eq!(decoded, expected);



    }
}

#[test]
fn test_decode_detects_variable_form_opcount_var_except_12_and_26() {
    for i in 0xe0..=0xff {
        let opcode: u8 = i & 0b11111;

        // skip double var instructions
        if opcode != 12 && opcode != 26 {
            continue;
        }

        // provide 6 large constants - but not enough
        // memory to read the types
        let optypes = 0b0000000;
        let decoded = decode_instruction(vec![
            i, optypes,
        ]);
        assert_eq!(decoded, None);

        // provide 6 large constants - but not enough
        // memory to read the operands
        let optypes0 = 0b00000000;
        let optypes1 = 0b00001111;
        let decoded = decode_instruction(vec![
            i, optypes0, optypes1,
        ]);
        assert_eq!(decoded, None);

        // provide 6 large constants
        let optypes0 = 0b00000000;
        let optypes1 =0b00001111;
        let decoded = decode_instruction(vec![
            i, optypes0, optypes1,
            0x01, 0x02, 0x03, 0x04,
            0x01, 0x02, 0x03, 0x04,
            0x01, 0x02, 0x03, 0x04,
        ]).unwrap();
        let expected = ZInstruction {
            opcode: opcode,
            operand_count: 6,
            operands: [
                Some(ZOperand::Large { value: [0x01, 0x02] }),
                Some(ZOperand::Large { value: [0x03, 0x04] }),
                Some(ZOperand::Large { value: [0x01, 0x02] }),
                Some(ZOperand::Large { value: [0x03, 0x04] }),
                Some(ZOperand::Large { value: [0x01, 0x02] }),
                Some(ZOperand::Large { value: [0x03, 0x04] }),
                None, None
            ]
        };
        assert_eq!(decoded, expected);

        // provide 4 large constants - mix with variable and short
        let optypes0 = 0b00010000;
        let optypes1 =0b10001111;
        let decoded = decode_instruction(vec![
            i, optypes0, optypes1,
            0x01, 0x02,
            0x03,
            0x04,0x01, 0x02, 0x03,
            0x04,
            0x01, 0x02,
        ]).unwrap();
        let expected = ZInstruction {
            opcode: opcode,
            operand_count: 6,
            operands: [
                Some(ZOperand::Large { value: [0x01, 0x02] }),
                Some(ZOperand::Small { value: 0x03 }),
                Some(ZOperand::Large { value: [0x04, 0x01] }),
                Some(ZOperand::Large { value: [0x02, 0x03] }),
                Some(ZOperand::Variable { value: 0x04 }),
                Some(ZOperand::Large { value: [0x01, 0x02] }),
                None, None
            ]
        };
        assert_eq!(decoded, expected);

    }
}
