//! Instruction decoder.
//!
//! An instruction starts with one byte that selects its form. The long and
//! short forms have a fixed layout. The two variable forms carry one or two
//! type bytes, each holding four 2-bit fields that announce the operands
//! which follow. [`decode`] states the whole format over a sequence of bytes;
//! [`decode_instruction`] implements it.

use vstd::prelude::*;
use vstd::std_specs::cmp::PartialEqSpec;

verus! {

/// One operand of a decoded instruction.
#[allow(inconsistent_fields)]
#[derive(Copy, Clone, Debug)]
pub enum ZOperand {
    /// A 16-bit constant, as the two bytes read from the input.
    Large { value: [u8; 2] },
    /// An 8-bit constant.
    Small { value: u8 },
    /// The number of a variable.
    Variable { value: u8 },
}

/// A decoded instruction.
#[derive(Debug)]
pub struct ZInstruction {
    /// The opcode: the low bits of the first byte, or the second byte in the
    /// extended form.
    pub opcode: u8,
    /// The number of operands.
    pub operand_count: u8,
    /// The operands, in the first `operand_count` slots.
    pub operands: [Option<ZOperand>; 8],
}

/// The mathematical value of a [`ZOperand`].
pub enum Operand {
    Large(u8, u8),
    Small(u8),
    Variable(u8),
}

/// The mathematical value of a [`ZInstruction`]: its opcode and its operands in order.
#[verifier::ext_equal]
pub struct Instruction {
    pub opcode: u8,
    pub operands: Seq<Operand>,
}

impl View for ZOperand {
    type V = Operand;

    open spec fn view(&self) -> Operand {
        match *self {
            ZOperand::Large { value } => Operand::Large(value@[0], value@[1]),
            ZOperand::Small { value } => Operand::Small(value),
            ZOperand::Variable { value } => Operand::Variable(value),
        }
    }
}

/// The value held by one operand slot.
pub open spec fn slot_view(slot: Option<ZOperand>) -> Option<Operand> {
    match slot {
        Some(op) => Some(op@),
        None => None,
    }
}

impl ZInstruction {
    /// The first `operand_count` slots are filled and the others are empty.
    pub open spec fn wf(&self) -> bool {
        &&& self.operand_count <= 8
        &&& forall|i: int| 0 <= i < 8 ==> (self.operands@[i] is Some <==> i < self.operand_count)
    }
}

impl View for ZInstruction {
    type V = Instruction;

    open spec fn view(&self) -> Instruction {
        Instruction {
            opcode: self.opcode,
            operands: Seq::new(self.operand_count as nat, |i: int| self.operands@[i].unwrap()@),
        }
    }
}

/// Field value that announces a large constant: two bytes.
pub const LARGE: u8 = 0;

/// Field value that announces a small constant: one byte.
pub const SMALL: u8 = 1;

/// Field value that announces the number of a variable: one byte.
pub const VARIABLE: u8 = 2;

/// Field value that ends the list of operands.
pub const OMITTED: u8 = 3;

/// Field `i` of a type byte; field 0 is the two most significant bits.
pub open spec fn type_field(types: u8, i: int) -> u8 {
    if i == 0 {
        (types & 0xc0) >> 6
    } else if i == 1 {
        (types & 0x30) >> 4
    } else if i == 2 {
        (types & 0x0c) >> 2
    } else {
        types & 0x03
    }
}

/// The fields of a run of type bytes, in the order in which they are read.
pub open spec fn type_fields(types: Seq<u8>) -> Seq<u8> {
    Seq::new(4 * types.len(), |k: int| type_field(types[k / 4], k % 4))
}

/// How many fields stand before the first [`OMITTED`] one.
pub open spec fn announced(fields: Seq<u8>) -> nat
    decreases fields.len(),
{
    if fields.len() == 0 || fields[0] == OMITTED {
        0
    } else {
        1 + announced(fields.drop_first())
    }
}

/// Bytes taken by an operand of the kind that `field` names.
pub open spec fn operand_len(field: u8) -> nat {
    if field == LARGE {
        2
    } else {
        1
    }
}

/// Bytes taken by the operands that the first `n` fields name.
pub open spec fn operands_len(fields: Seq<u8>, n: nat) -> nat
    decreases n,
{
    if n == 0 {
        0
    } else {
        operands_len(fields, (n - 1) as nat) + operand_len(fields[n - 1])
    }
}

/// The operand of the kind that `field` names, read from `bytes` at `at`.
pub open spec fn operand_at(field: u8, bytes: Seq<u8>, at: int) -> Operand {
    if field == LARGE {
        Operand::Large(bytes[at], bytes[at + 1])
    } else if field == SMALL {
        Operand::Small(bytes[at])
    } else {
        Operand::Variable(bytes[at])
    }
}

/// The operands that the fields before the first [`OMITTED`] one name, read
/// from `bytes` one after the other.
pub open spec fn read_operands(fields: Seq<u8>, bytes: Seq<u8>) -> Seq<Operand> {
    Seq::new(
        announced(fields),
        |i: int| operand_at(fields[i], bytes, operands_len(fields, i as nat) as int),
    )
}

/// Opcodes of the variable form that carry two type bytes.
pub open spec fn is_double_variable(opcode: u8) -> bool {
    opcode == 12 || opcode == 26
}

/// A long-form instruction: two one-byte operands, of the kinds that the
/// field values `first` and `second` name.
pub open spec fn decode_long(input: Seq<u8>, first: u8, second: u8) -> Option<Instruction> {
    if input.len() < 3 {
        None
    } else {
        Some(
            Instruction {
                opcode: input[0] & 0x1f,
                operands: seq![operand_at(first, input, 1), operand_at(second, input, 2)],
            },
        )
    }
}

/// A short-form instruction with one operand, of the kind that the field
/// value `kind` names.
pub open spec fn decode_short(input: Seq<u8>, kind: u8) -> Option<Instruction> {
    if input.len() < 1 + operand_len(kind) {
        None
    } else {
        Some(Instruction { opcode: input[0] & 0x0f, operands: seq![operand_at(kind, input, 1)] })
    }
}

/// A variable-form instruction: `types` are its type bytes as they are
/// honoured, `header` is the number of bytes before the first operand, and
/// at least `least` operands must be announced.
pub open spec fn decode_variable(input: Seq<u8>, types: Seq<u8>, header: nat, least: nat) -> Option<
    Instruction,
> {
    let fields = type_fields(types);
    if announced(fields) < least {
        None
    } else if input.len() < header + operands_len(fields, announced(fields)) {
        None
    } else {
        Some(
            Instruction {
                opcode: input[0] & 0x1f,
                operands: read_operands(fields, input.skip(header as int)),
            },
        )
    }
}

/// The instruction that a sequence of bytes starts with, or `None` where the
/// bytes do not hold a whole instruction.
pub open spec fn decode(input: Seq<u8>) -> Option<Instruction> {
    if input.len() < 1 {
        None
    } else if input[0] <= 0x1f {
        decode_long(input, SMALL, SMALL)
    } else if input[0] <= 0x3f {
        decode_long(input, SMALL, VARIABLE)
    } else if input[0] <= 0x5f {
        decode_long(input, VARIABLE, SMALL)
    } else if input[0] <= 0x7f {
        decode_long(input, VARIABLE, VARIABLE)
    } else if input[0] <= 0x8f {
        decode_short(input, LARGE)
    } else if input[0] <= 0x9f {
        decode_short(input, SMALL)
    } else if input[0] <= 0xaf {
        decode_short(input, VARIABLE)
    } else if input[0] == 0xbe {
        // Extended form: the opcode is the next byte, and no operand is decoded.
        if input.len() < 2 {
            None
        } else {
            Some(Instruction { opcode: input[1], operands: Seq::empty() })
        }
    } else if input[0] <= 0xbf {
        Some(Instruction { opcode: input[0] & 0x0f, operands: Seq::empty() })
    } else if input.len() < 2 {
        None
    } else if input[0] <= 0xdf {
        // Only the first two fields of the type byte are honoured.
        decode_variable(input, seq![(input[1] & 0xf0) | 0x0f, 0xff], 2, 2)
    } else if !is_double_variable(input[0] & 0x1f) {
        decode_variable(input, seq![input[1], 0xff], 2, 0)
    } else if input.len() < 3 {
        None
    } else {
        decode_variable(input, seq![input[1], input[2]], 3, 0)
    }
}

/// `announced` is the index of the first [`OMITTED`] field, or the number of
/// fields where there is none.
pub proof fn lemma_announced(fields: Seq<u8>, n: nat)
    requires
        n <= fields.len(),
        forall|j: int| 0 <= j < n ==> fields[j] != OMITTED,
        n == fields.len() || fields[n as int] == OMITTED,
    ensures
        announced(fields) == n,
    decreases n,
{
    if n > 0 {
        lemma_announced(fields.drop_first(), (n - 1) as nat);
    }
}

/// The field at index `announced`, where there is one, is [`OMITTED`], and
/// none before it is.
pub proof fn lemma_announced_ends(fields: Seq<u8>)
    ensures
        announced(fields) <= fields.len(),
        forall|j: int| 0 <= j < announced(fields) ==> fields[j] != OMITTED,
        announced(fields) == fields.len() || fields[announced(fields) as int] == OMITTED,
    decreases fields.len(),
{
    if fields.len() > 0 && fields[0] != OMITTED {
        let rest = fields.drop_first();
        lemma_announced_ends(rest);
        assert forall|j: int| 0 <= j < announced(fields) implies fields[j] != OMITTED by {
            if j > 0 {
                assert(rest[j - 1] == fields[j]);
            }
        }
    }
}

/// The operands named by more fields take at least as many bytes.
pub proof fn lemma_operands_len_monotonic(fields: Seq<u8>, m: nat, n: nat)
    requires
        m <= n,
    ensures
        operands_len(fields, m) <= operands_len(fields, n),
        operands_len(fields, n) <= operands_len(fields, m) + 2 * (n - m),
    decreases n,
{
    if m < n {
        lemma_operands_len_monotonic(fields, m, (n - 1) as nat);
    }
}

/// The number of bytes that a variable-form instruction takes: `header`
/// bytes and then the operands that `types` announce. `None` where fewer
/// than `least` operands are announced.
pub open spec fn variable_len(types: Seq<u8>, header: nat, least: nat) -> Option<nat> {
    let fields = type_fields(types);
    if announced(fields) < least {
        None
    } else {
        Some(header + operands_len(fields, announced(fields)))
    }
}

/// The number of bytes that the instruction at the start of `input` takes,
/// as far as `input` tells it: `None` where `input` breaks off before its
/// type bytes, or announces too few operands.
pub open spec fn instruction_len(input: Seq<u8>) -> Option<nat> {
    if input.len() < 1 {
        None
    } else if input[0] <= 0x8f {
        Some(3)
    } else if input[0] <= 0xaf || input[0] == 0xbe {
        Some(2)
    } else if input[0] <= 0xbf {
        Some(1)
    } else if input.len() < 2 {
        None
    } else if input[0] <= 0xdf {
        variable_len(seq![(input[1] & 0xf0) | 0x0f, 0xff], 2, 2)
    } else if !is_double_variable(input[0] & 0x1f) {
        variable_len(seq![input[1], 0xff], 2, 0)
    } else if input.len() < 3 {
        None
    } else {
        variable_len(seq![input[1], input[2]], 3, 0)
    }
}

/// An instruction is decoded exactly where the input holds all of its
/// bytes.
pub proof fn lemma_decode_needs_every_byte(input: Seq<u8>)
    ensures
        decode(input) is Some <==> (instruction_len(input) matches Some(n) && n <= input.len()),
{
}

/// Operand `i` of those that `fields` announce lies within the bytes that
/// all of them take, and is read from those bytes alone.
pub proof fn lemma_operand_within(fields: Seq<u8>, bytes: Seq<u8>, i: int)
    requires
        0 <= i < announced(fields),
        bytes.len() >= operands_len(fields, announced(fields)),
    ensures
        operands_len(fields, i as nat) + operand_len(fields[i]) <= operands_len(
            fields,
            announced(fields),
        ),
        operand_at(fields[i], bytes, operands_len(fields, i as nat) as int) == operand_at(
            fields[i],
            bytes.take(operands_len(fields, announced(fields)) as int),
            operands_len(fields, i as nat) as int,
        ),
{
    lemma_operands_len_monotonic(fields, (i + 1) as nat, announced(fields));
}

/// What follows an instruction is not read: the bytes of the instruction
/// alone decode to the same instruction.
pub proof fn lemma_decode_reads_its_bytes(input: Seq<u8>)
    requires
        decode(input) is Some,
    ensures
        decode(input.take(instruction_len(input).unwrap() as int)) == decode(input),
{
    let n: nat = instruction_len(input).unwrap();
    let own = input.take(n as int);
    if input[0] >= 0xc0 {
        let header: nat = if input[0] >= 0xe0 && is_double_variable(input[0] & 0x1f) {
            3
        } else {
            2
        };
        let types = if input[0] <= 0xdf {
            seq![(input[1] & 0xf0) | 0x0f, 0xff]
        } else if header == 2 {
            seq![input[1], 0xff]
        } else {
            seq![input[1], input[2]]
        };
        let fields = type_fields(types);
        let bytes = input.skip(header as int);
        let total: nat = operands_len(fields, announced(fields));
        assert(own.skip(header as int) =~= bytes.take(total as int));
        assert forall|i: int| 0 <= i < announced(fields) implies read_operands(fields, bytes)[i]
            == read_operands(fields, bytes.take(total as int))[i] by {
            lemma_operand_within(fields, bytes, i);
        }
    }
}

/// Reads field `k` out of two type bytes.
fn field_of(optypes: &[u8; 2], k: usize) -> (f: u8)
    requires
        k < 8,
    ensures
        f == type_fields(optypes@)[k as int],
        f <= 3,
{
    let types: u8 = optypes[k / 4];
    let i: usize = k % 4;
    let f: u8 = if i == 0 {
        (types & 0xc0) >> 6
    } else if i == 1 {
        (types & 0x30) >> 4
    } else if i == 2 {
        (types & 0x0c) >> 2
    } else {
        types & 0x03
    };
    assert((types & 0xc0) >> 6 <= 3 && (types & 0x30) >> 4 <= 3 && (types & 0x0c) >> 2 <= 3 && types
        & 0x03 <= 3) by (bit_vector);
    f
}

/// Counts the operands that two type bytes announce, and the bytes they take.
fn determine_operand_size(optypes: [u8; 2]) -> (r: (u8, u8))
    ensures
        r.0 == announced(type_fields(optypes@)),
        r.1 == operands_len(type_fields(optypes@), r.0 as nat),
        r.0 <= 8,
        r.1 <= 16,
{
    let ghost fields = type_fields(optypes@);
    let mut opcount: u8 = 0;
    let mut memsize: u8 = 0;
    let mut k: usize = 0;
    while k < 8
        invariant
            k <= 8,
            fields == type_fields(optypes@),
            opcount == k,
            memsize == operands_len(fields, k as nat),
            memsize <= 2 * k,
            forall|j: int| 0 <= j < k ==> fields[j] != OMITTED,
        decreases 8 - k,
    {
        let f: u8 = field_of(&optypes, k);
        if f == OMITTED {
            proof {
                lemma_announced(fields, k as nat);
            }
            return (opcount, memsize);
        }
        memsize += if f == LARGE { 2 } else { 1 };
        opcount += 1;
        k += 1;
    }
    proof {
        lemma_announced(fields, 8);
    }
    (opcount, memsize)
}

/// Reads the operands that two type bytes announce from `ops`.
fn determine_var_operands(optypes: [u8; 2], ops: Vec<u8>) -> (operands: [Option<ZOperand>; 8])
    requires
        ops@.len() >= operands_len(
            type_fields(optypes@),
            announced(type_fields(optypes@)),
        ),
    ensures
        forall|i: int|
            0 <= i < announced(type_fields(optypes@)) ==> slot_view(#[trigger] operands@[i])
                == Some(read_operands(type_fields(optypes@), ops@)[i]),
        forall|i: int|
            announced(type_fields(optypes@)) <= i < 8 ==> (#[trigger] operands@[i]) is None,
{
    let ghost fields = type_fields(optypes@);
    let ghost count = announced(fields);
    let mut operands: [Option<ZOperand>; 8] = [None; 8];
    let mut opp: usize = 0;
    let mut k: usize = 0;
    while k < 8
        invariant
            k <= 8,
            fields == type_fields(optypes@),
            count == announced(fields),
            ops@.len() >= operands_len(fields, count),
            opp == operands_len(fields, k as nat),
            forall|j: int| 0 <= j < k ==> fields[j] != OMITTED,
            forall|j: int|
                0 <= j < k ==> slot_view(#[trigger] operands@[j]) == Some(
                    operand_at(fields[j], ops@, operands_len(fields, j as nat) as int),
                ),
            forall|j: int| k <= j < 8 ==> (#[trigger] operands@[j]) is None,
        decreases 8 - k,
    {
        let f: u8 = field_of(&optypes, k);
        if f == OMITTED {
            proof {
                lemma_announced(fields, k as nat);
            }
            return operands;
        }
        proof {
            // Field `k` is announced, so its operand lies within `ops`.
            lemma_announced_ends(fields);
            lemma_operands_len_monotonic(fields, (k + 1) as nat, count);
        }
        let operand: ZOperand = if f == LARGE {
            let large = ZOperand::Large { value: [ops[opp], ops[opp + 1]] };
            opp += 2;
            large
        } else if f == SMALL {
            let small = ZOperand::Small { value: ops[opp] };
            opp += 1;
            small
        } else {
            let variable = ZOperand::Variable { value: ops[opp] };
            opp += 1;
            variable
        };
        operands[k] = Some(operand);
        k += 1;
    }
    proof {
        lemma_announced(fields, 8);
    }
    operands
}

/// Builds an instruction with no operand.
fn without_operands(opcode: u8) -> (ins: ZInstruction)
    ensures
        ins.wf(),
        ins@ == (Instruction { opcode, operands: Seq::empty() }),
{
    ZInstruction { opcode, operand_count: 0, operands: [None; 8] }
}

/// Builds an instruction with one operand.
fn with_one_operand(opcode: u8, first: ZOperand) -> (ins: ZInstruction)
    ensures
        ins.wf(),
        ins@ == (Instruction { opcode, operands: seq![first@] }),
{
    ZInstruction {
        opcode,
        operand_count: 1,
        operands: [Some(first), None, None, None, None, None, None, None],
    }
}

/// Builds an instruction with two operands.
fn with_two_operands(opcode: u8, first: ZOperand, second: ZOperand) -> (ins: ZInstruction)
    ensures
        ins.wf(),
        ins@ == (Instruction { opcode, operands: seq![first@, second@] }),
{
    ZInstruction {
        opcode,
        operand_count: 2,
        operands: [Some(first), Some(second), None, None, None, None, None, None],
    }
}

/// Decodes the operands of a variable-form instruction whose type bytes, as
/// they are honoured, are `optypes`, and whose operands start at `header`.
fn decode_var_operands(input: Vec<u8>, optypes: [u8; 2], header: u8, least: u8) -> (r: Option<
    ZInstruction,
>)
    requires
        1 <= header <= 3,
        header <= input@.len(),
    ensures
        r is Some <==> decode_variable(input@, optypes@, header as nat, least as nat) is Some,
        r matches Some(ins) ==> ins.wf() && ins@ == decode_variable(
            input@,
            optypes@,
            header as nat,
            least as nat,
        ).unwrap(),
{
    let opcode: u8 = input[0] & 0b11111;
    let (opcount, memsize): (u8, u8) = determine_operand_size(optypes);
    if opcount < least {
        return None;
    }
    if input.len() < (memsize + header) as usize {
        return None;
    }
    let mut rest: Vec<u8> = input;
    let ops: Vec<u8> = rest.split_off(header as usize);
    let operands = determine_var_operands(optypes, ops);
    Some(ZInstruction { opcode, operand_count: opcount, operands })
}

/// Decodes the instruction at the start of `input`.
///
/// Returns `None` where `input` is too short for the form that its first
/// byte selects, or for the operands that its type bytes announce.
pub fn decode_instruction(input: Vec<u8>) -> (r: Option<ZInstruction>)
    ensures
        r is Some <==> decode(input@) is Some,
        r matches Some(ins) ==> ins.wf() && ins@ == decode(input@).unwrap(),
{
    if input.len() < 1 {
        return None;
    }
    let opcode: u8 = input[0];
    if opcode <= 0x7f {
        // long form: two operands, each a small constant or a variable
        if input.len() < 3 {
            return None;
        }
        let first = if opcode <= 0x3f {
            ZOperand::Small { value: input[1] }
        } else {
            ZOperand::Variable { value: input[1] }
        };
        let second = if opcode <= 0x1f || (0x40 <= opcode && opcode <= 0x5f) {
            ZOperand::Small { value: input[2] }
        } else {
            ZOperand::Variable { value: input[2] }
        };
        Some(with_two_operands(opcode & 0b00011111, first, second))
    } else if opcode <= 0x8f {
        // short form: one large constant
        if input.len() < 3 {
            return None;
        }
        Some(
            with_one_operand(opcode & 0b00001111, ZOperand::Large { value: [input[1], input[2]] }),
        )
    } else if opcode <= 0x9f {
        // short form: one small constant
        if input.len() < 2 {
            return None;
        }
        Some(with_one_operand(opcode & 0b00001111, ZOperand::Small { value: input[1] }))
    } else if opcode <= 0xaf {
        // short form: one variable
        if input.len() < 2 {
            return None;
        }
        Some(with_one_operand(opcode & 0b00001111, ZOperand::Variable { value: input[1] }))
    } else if opcode == 0xbe {
        // extended form: the operands are left undecoded
        if input.len() < 2 {
            return None;
        }
        Some(without_operands(input[1]))
    } else if opcode <= 0xbf {
        // short form: no operand
        Some(without_operands(opcode & 0b00001111))
    } else if opcode <= 0xdf {
        // variable form, two operands
        if input.len() < 2 {
            return None;
        }
        let optypes: [u8; 2] = [(input[1] & 0b11110000) | 0b00001111, 0b11111111];
        decode_var_operands(input, optypes, 2, 2)
    } else {
        // variable form, up to eight operands
        if input.len() < 2 {
            return None;
        }
        let low: u8 = opcode & 0b11111;
        if low == 12 || low == 26 {
            if input.len() < 3 {
                return None;
            }
            let optypes: [u8; 2] = [input[1], input[2]];
            decode_var_operands(input, optypes, 3, 0)
        } else {
            let optypes: [u8; 2] = [input[1], 0b11111111];
            decode_var_operands(input, optypes, 2, 0)
        }
    }
}

impl PartialEq for ZOperand {
    /// Two operands are equal when they are of the same kind and hold the same value.
    fn eq(&self, other: &Self) -> (r: bool) {
        match (self, other) {
            (ZOperand::Large { value: s }, ZOperand::Large { value: o }) => {
                s[0] == o[0] && s[1] == o[1]
            },
            (ZOperand::Small { value: s }, ZOperand::Small { value: o }) => *s == *o,
            (ZOperand::Variable { value: s }, ZOperand::Variable { value: o }) => *s == *o,
            _ => false,
        }
    }
}

impl vstd::std_specs::cmp::PartialEqSpecImpl for ZOperand {
    open spec fn obeys_eq_spec() -> bool {
        true
    }

    open spec fn eq_spec(&self, other: &Self) -> bool {
        self@ == other@
    }
}

/// Compares two operand slots.
fn slot_eq(a: &Option<ZOperand>, b: &Option<ZOperand>) -> (r: bool)
    ensures
        r == (slot_view(*a) == slot_view(*b)),
{
    match (a, b) {
        (Some(x), Some(y)) => x == y,
        (None, None) => true,
        _ => false,
    }
}

impl PartialEq for ZInstruction {
    /// Two instructions are equal when their opcodes, their operand counts
    /// and all of their operand slots agree.
    fn eq(&self, other: &Self) -> (r: bool) {
        let mut is_eq: bool = self.opcode == other.opcode && self.operand_count
            == other.operand_count;
        let mut i: usize = 0;
        while i < 8
            invariant
                i <= 8,
                is_eq == (self.opcode == other.opcode && self.operand_count == other.operand_count
                    && forall|j: int|
                    0 <= j < i ==> slot_view(self.operands@[j]) == slot_view(other.operands@[j])),
            decreases 8 - i,
        {
            is_eq = is_eq && slot_eq(&self.operands[i], &other.operands[i]);
            i += 1;
        }
        is_eq
    }
}

impl vstd::std_specs::cmp::PartialEqSpecImpl for ZInstruction {
    open spec fn obeys_eq_spec() -> bool {
        true
    }

    open spec fn eq_spec(&self, other: &Self) -> bool {
        &&& self.opcode == other.opcode
        &&& self.operand_count == other.operand_count
        &&& forall|j: int|
            0 <= j < 8 ==> slot_view(self.operands@[j]) == slot_view(other.operands@[j])
    }
}

/// On well-formed instructions, `==` holds exactly when the two have the
/// same value.
pub proof fn lemma_eq_is_value_equality(a: ZInstruction, b: ZInstruction)
    requires
        a.wf(),
        b.wf(),
    ensures
        a.eq_spec(&b) <==> a@ == b@,
{
    if a.eq_spec(&b) {
        assert(a@.operands =~= b@.operands);
    }
    if a@ == b@ {
        assert(a@.operands.len() == b@.operands.len());
        assert forall|j: int| 0 <= j < 8 implies slot_view(a.operands@[j]) == slot_view(
            b.operands@[j],
        ) by {
            if j < a.operand_count {
                assert(a@.operands[j] == b@.operands[j]);
            }
        }
    }
}

/// A first byte up to 0x1f starts a long-form instruction with two small
/// constants: three bytes decode to it, and two bytes are too few.
pub proof fn lemma_long_form_small_small(op: u8, a: u8, b: u8)
    requires
        op <= 0x1f,
    ensures
        decode(seq![op, a, b]) == Some(
            Instruction {
                opcode: op & 0x1f,
                operands: seq![Operand::Small(a), Operand::Small(b)],
            },
        ),
        decode(seq![op, a]) is None,
{
}

} // verus!
