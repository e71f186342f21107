//! The instruction codec.
//!
//! A logical instruction is a triple `(opcode, operand1, operand2)` with a
//! 16-bit signed first operand and an 8-bit signed second operand. On the
//! wire it is one 32-bit word: the opcode ordinal in the most significant
//! byte, `operand1` in the next two bytes (big-endian, two's complement) and
//! `operand2` in the least significant byte. Encoding is total and injective
//! over the opcode set; decoding is total and never fails: every ordinal
//! outside the opcode table (the reserved maximum among them) decodes to the
//! distinguished illegal opcode [`Opcode::ILG`], and only executing it is an
//! error.

use vstd::prelude::*;

verus! {

/// The closed set of instruction kinds.
///
/// `ILG` is the sentinel that every unassigned ordinal decodes to; it is
/// never produced by the assembler and faults when executed.
#[derive(Copy, Clone, PartialEq, Eq, Structural, Debug)]
pub enum Opcode {
    HALT,
    ILG,
    LEN,
    POP,
    PUSH,
    DUP,
    ADD,
    SUB,
    MUL,
    DIV,
    MOD,
    CMP,
    JMP,
    JE,
    JNE,
    JG,
    JL,
    JGE,
    JLE,
    STDIN,
    STDOUT,
    LOAD,
    STORE,
    CALL,
    RETURN,
}

/// The ordinal that stands for an opcode in the most significant byte of an
/// encoded instruction. `ILG` takes the reserved maximum.
pub open spec fn opcode_ordinal(op: Opcode) -> u8 {
    match op {
        Opcode::HALT => 0,
        Opcode::LEN => 1,
        Opcode::POP => 2,
        Opcode::PUSH => 3,
        Opcode::DUP => 4,
        Opcode::ADD => 5,
        Opcode::SUB => 6,
        Opcode::MUL => 7,
        Opcode::DIV => 8,
        Opcode::MOD => 9,
        Opcode::CMP => 10,
        Opcode::JMP => 11,
        Opcode::JE => 12,
        Opcode::JNE => 13,
        Opcode::JG => 14,
        Opcode::JL => 15,
        Opcode::JGE => 16,
        Opcode::JLE => 17,
        Opcode::STDIN => 18,
        Opcode::STDOUT => 19,
        Opcode::LOAD => 20,
        Opcode::STORE => 21,
        Opcode::CALL => 22,
        Opcode::RETURN => 23,
        Opcode::ILG => 255,
    }
}

/// The opcode a byte decodes to: the table above, and `ILG` everywhere else.
pub open spec fn opcode_of_ordinal(b: u8) -> Opcode {
    if b == 0 {
        Opcode::HALT
    } else if b == 1 {
        Opcode::LEN
    } else if b == 2 {
        Opcode::POP
    } else if b == 3 {
        Opcode::PUSH
    } else if b == 4 {
        Opcode::DUP
    } else if b == 5 {
        Opcode::ADD
    } else if b == 6 {
        Opcode::SUB
    } else if b == 7 {
        Opcode::MUL
    } else if b == 8 {
        Opcode::DIV
    } else if b == 9 {
        Opcode::MOD
    } else if b == 10 {
        Opcode::CMP
    } else if b == 11 {
        Opcode::JMP
    } else if b == 12 {
        Opcode::JE
    } else if b == 13 {
        Opcode::JNE
    } else if b == 14 {
        Opcode::JG
    } else if b == 15 {
        Opcode::JL
    } else if b == 16 {
        Opcode::JGE
    } else if b == 17 {
        Opcode::JLE
    } else if b == 18 {
        Opcode::STDIN
    } else if b == 19 {
        Opcode::STDOUT
    } else if b == 20 {
        Opcode::LOAD
    } else if b == 21 {
        Opcode::STORE
    } else if b == 22 {
        Opcode::CALL
    } else if b == 23 {
        Opcode::RETURN
    } else {
        Opcode::ILG
    }
}

/// The two's-complement 16-bit pattern of a signed value.
pub open spec fn u16_of_i16(x: i16) -> u16 {
    if x >= 0 {
        x as u16
    } else {
        (x + 0x10000) as u16
    }
}

/// The signed value of a two's-complement 16-bit pattern.
pub open spec fn i16_of_u16(x: u16) -> i16 {
    if x < 0x8000 {
        x as i16
    } else {
        (x - 0x10000) as i16
    }
}

/// The two's-complement 8-bit pattern of a signed value.
pub open spec fn u8_of_i8(x: i8) -> u8 {
    if x >= 0 {
        x as u8
    } else {
        (x + 0x100) as u8
    }
}

/// The signed value of a two's-complement 8-bit pattern.
pub open spec fn i8_of_u8(x: u8) -> i8 {
    if x < 0x80 {
        x as i8
    } else {
        (x - 0x100) as i8
    }
}

/// The encoded word: opcode ordinal, then `operand1` big-endian, then
/// `operand2`.
pub open spec fn spec_encode(opcode: Opcode, operand1: i16, operand2: i8) -> u32 {
    ((opcode_ordinal(opcode) as u32) * 0x100_0000 + (u16_of_i16(operand1) as u32) * 0x100
        + (u8_of_i8(operand2) as u32)) as u32
}

/// The decoded triple of a word: its four big-endian bytes read back as
/// opcode ordinal, 16-bit first operand and 8-bit second operand.
pub open spec fn spec_decode(instruction: u32) -> (Opcode, i16, i8) {
    (
        opcode_of_ordinal((instruction / 0x100_0000) as u8),
        i16_of_u16(((instruction / 0x100) % 0x1_0000) as u16),
        i8_of_u8((instruction % 0x100) as u8),
    )
}

/// The four bytes of a word, most significant first.
pub open spec fn spec_word_bytes(instruction: u32) -> Seq<u8> {
    seq![
        (instruction / 0x100_0000) as u8,
        ((instruction / 0x1_0000) % 0x100) as u8,
        ((instruction / 0x100) % 0x100) as u8,
        (instruction % 0x100) as u8,
    ]
}

/// The word with the given big-endian bytes.
pub open spec fn spec_word_of_bytes(b0: u8, b1: u8, b2: u8, b3: u8) -> u32 {
    ((b0 as u32) * 0x100_0000 + (b1 as u32) * 0x1_0000 + (b2 as u32) * 0x100 + (b3 as u32)) as u32
}

impl Opcode {
    /// Packs an instruction into its 32-bit wire word.
    pub fn encode(opcode: Opcode, operand1: i16, operand2: i8) -> (instruction: u32)
        ensures
            instruction == spec_encode(opcode, operand1, operand2),
    {
        let high: u32 = opcode.to_ordinal() as u32;
        let mid: u32 = if operand1 >= 0 {
            operand1 as u32
        } else {
            (operand1 as i32 + 0x10000) as u32
        };
        let low: u32 = if operand2 >= 0 {
            operand2 as u32
        } else {
            (operand2 as i16 + 0x100) as u32
        };
        high * 0x100_0000 + mid * 0x100 + low
    }

    /// Unpacks a 32-bit wire word; total, so an unassigned opcode ordinal
    /// comes back as [`Opcode::ILG`] rather than as an error.
    pub fn decode(instruction: u32) -> (decoded: (Opcode, i16, i8))
        ensures
            decoded == spec_decode(instruction),
    {
        let high: u8 = (instruction / 0x100_0000) as u8;
        let mid: u16 = ((instruction / 0x100) % 0x1_0000) as u16;
        let low: u8 = (instruction % 0x100) as u8;
        let operand1: i16 = if mid < 0x8000 {
            mid as i16
        } else {
            (mid as i32 - 0x10000) as i16
        };
        let operand2: i8 = if low < 0x80 {
            low as i8
        } else {
            (low as i16 - 0x100) as i8
        };
        (Opcode::from_ordinal(high), operand1, operand2)
    }

    /// The four big-endian bytes of a word, for binary-file interchange.
    pub fn instruction_to_byte_array(instruction: u32) -> (bytes: [u8; 4])
        ensures
            bytes@ == spec_word_bytes(instruction),
    {
        let bytes: [u8; 4] = [
            (instruction / 0x100_0000) as u8,
            ((instruction / 0x1_0000) % 0x100) as u8,
            ((instruction / 0x100) % 0x100) as u8,
            (instruction % 0x100) as u8,
        ];
        proof {
            assert(bytes@ =~= spec_word_bytes(instruction));
        }
        bytes
    }

    /// The word with the given four big-endian bytes.
    pub fn byte_array_to_instruction(array: [u8; 4]) -> (instruction: u32)
        ensures
            instruction == spec_word_of_bytes(array@[0], array@[1], array@[2], array@[3]),
    {
        (array[0] as u32) * 0x100_0000 + (array[1] as u32) * 0x1_0000 + (array[2] as u32) * 0x100
            + (array[3] as u32)
    }

    /// The table row of this opcode, as [`opcode_ordinal`] gives it.
    pub fn to_ordinal(self) -> (b: u8)
        ensures
            b == opcode_ordinal(self),
    {
        match self {
            Opcode::HALT => 0,
            Opcode::LEN => 1,
            Opcode::POP => 2,
            Opcode::PUSH => 3,
            Opcode::DUP => 4,
            Opcode::ADD => 5,
            Opcode::SUB => 6,
            Opcode::MUL => 7,
            Opcode::DIV => 8,
            Opcode::MOD => 9,
            Opcode::CMP => 10,
            Opcode::JMP => 11,
            Opcode::JE => 12,
            Opcode::JNE => 13,
            Opcode::JG => 14,
            Opcode::JL => 15,
            Opcode::JGE => 16,
            Opcode::JLE => 17,
            Opcode::STDIN => 18,
            Opcode::STDOUT => 19,
            Opcode::LOAD => 20,
            Opcode::STORE => 21,
            Opcode::CALL => 22,
            Opcode::RETURN => 23,
            Opcode::ILG => 255,
        }
    }

    /// The opcode a mnemonic names, as [`opcode_of_name`]: [`Opcode::ILG`]
    /// for any word outside the mnemonic table.
    pub fn from_name(name: &String) -> (op: Opcode)
        ensures
            op == opcode_of_name(name@),
    {
        if *name == "HALT".to_owned() {
            Opcode::HALT
        } else if *name == "LEN".to_owned() {
            Opcode::LEN
        } else if *name == "POP".to_owned() {
            Opcode::POP
        } else if *name == "PUSH".to_owned() {
            Opcode::PUSH
        } else if *name == "DUP".to_owned() {
            Opcode::DUP
        } else if *name == "ADD".to_owned() {
            Opcode::ADD
        } else if *name == "SUB".to_owned() {
            Opcode::SUB
        } else if *name == "MUL".to_owned() {
            Opcode::MUL
        } else if *name == "DIV".to_owned() {
            Opcode::DIV
        } else if *name == "MOD".to_owned() {
            Opcode::MOD
        } else if *name == "CMP".to_owned() {
            Opcode::CMP
        } else if *name == "JMP".to_owned() {
            Opcode::JMP
        } else if *name == "JE".to_owned() {
            Opcode::JE
        } else if *name == "JNE".to_owned() {
            Opcode::JNE
        } else if *name == "JG".to_owned() {
            Opcode::JG
        } else if *name == "JL".to_owned() {
            Opcode::JL
        } else if *name == "JGE".to_owned() {
            Opcode::JGE
        } else if *name == "JLE".to_owned() {
            Opcode::JLE
        } else if *name == "STDIN".to_owned() {
            Opcode::STDIN
        } else if *name == "STDOUT".to_owned() {
            Opcode::STDOUT
        } else if *name == "LOAD".to_owned() {
            Opcode::LOAD
        } else if *name == "STORE".to_owned() {
            Opcode::STORE
        } else if *name == "CALL".to_owned() {
            Opcode::CALL
        } else if *name == "RETURN".to_owned() {
            Opcode::RETURN
        } else {
            Opcode::ILG
        }
    }

    /// The opcode of a table row, [`Opcode::ILG`] for every unassigned one.
    pub fn from_ordinal(b: u8) -> (op: Opcode)
        ensures
            op == opcode_of_ordinal(b),
    {
        if b == 0 {
            Opcode::HALT
        } else if b == 1 {
            Opcode::LEN
        } else if b == 2 {
            Opcode::POP
        } else if b == 3 {
            Opcode::PUSH
        } else if b == 4 {
            Opcode::DUP
        } else if b == 5 {
            Opcode::ADD
        } else if b == 6 {
            Opcode::SUB
        } else if b == 7 {
            Opcode::MUL
        } else if b == 8 {
            Opcode::DIV
        } else if b == 9 {
            Opcode::MOD
        } else if b == 10 {
            Opcode::CMP
        } else if b == 11 {
            Opcode::JMP
        } else if b == 12 {
            Opcode::JE
        } else if b == 13 {
            Opcode::JNE
        } else if b == 14 {
            Opcode::JG
        } else if b == 15 {
            Opcode::JL
        } else if b == 16 {
            Opcode::JGE
        } else if b == 17 {
            Opcode::JLE
        } else if b == 18 {
            Opcode::STDIN
        } else if b == 19 {
            Opcode::STDOUT
        } else if b == 20 {
            Opcode::LOAD
        } else if b == 21 {
            Opcode::STORE
        } else if b == 22 {
            Opcode::CALL
        } else if b == 23 {
            Opcode::RETURN
        } else {
            Opcode::ILG
        }
    }
}

/// The opcode a mnemonic names, [`Opcode::ILG`] for any other word.
pub open spec fn opcode_of_name(s: Seq<char>) -> Opcode {
    if s == "HALT"@ {
        Opcode::HALT
    } else if s == "LEN"@ {
        Opcode::LEN
    } else if s == "POP"@ {
        Opcode::POP
    } else if s == "PUSH"@ {
        Opcode::PUSH
    } else if s == "DUP"@ {
        Opcode::DUP
    } else if s == "ADD"@ {
        Opcode::ADD
    } else if s == "SUB"@ {
        Opcode::SUB
    } else if s == "MUL"@ {
        Opcode::MUL
    } else if s == "DIV"@ {
        Opcode::DIV
    } else if s == "MOD"@ {
        Opcode::MOD
    } else if s == "CMP"@ {
        Opcode::CMP
    } else if s == "JMP"@ {
        Opcode::JMP
    } else if s == "JE"@ {
        Opcode::JE
    } else if s == "JNE"@ {
        Opcode::JNE
    } else if s == "JG"@ {
        Opcode::JG
    } else if s == "JL"@ {
        Opcode::JL
    } else if s == "JGE"@ {
        Opcode::JGE
    } else if s == "JLE"@ {
        Opcode::JLE
    } else if s == "STDIN"@ {
        Opcode::STDIN
    } else if s == "STDOUT"@ {
        Opcode::STDOUT
    } else if s == "LOAD"@ {
        Opcode::LOAD
    } else if s == "STORE"@ {
        Opcode::STORE
    } else if s == "CALL"@ {
        Opcode::CALL
    } else if s == "RETURN"@ {
        Opcode::RETURN
    } else {
        Opcode::ILG
    }
}

impl From<u8> for Opcode {
    /// The opcode of a table row, as [`Opcode::from_ordinal`].
    fn from(o: u8) -> (op: Opcode) {
        Opcode::from_ordinal(o)
    }
}

impl vstd::std_specs::convert::FromSpecImpl<u8> for Opcode {
    open spec fn obeys_from_spec() -> bool {
        true
    }

    open spec fn from_spec(o: u8) -> Opcode {
        opcode_of_ordinal(o)
    }
}

impl From<Opcode> for u8 {
    /// The table row of an opcode, as [`Opcode::to_ordinal`].
    fn from(v: Opcode) -> (b: u8) {
        v.to_ordinal()
    }
}

impl vstd::std_specs::convert::FromSpecImpl<Opcode> for u8 {
    open spec fn obeys_from_spec() -> bool {
        true
    }

    open spec fn from_spec(v: Opcode) -> u8 {
        opcode_ordinal(v)
    }
}

/// Round trip of the codec: decoding an encoded instruction gives back
/// exactly the opcode and the two operands, for every representable triple,
/// the illegal opcode included. Injectivity of `encode` over the opcode set
/// follows.
pub proof fn lemma_decode_encode(opcode: Opcode, operand1: i16, operand2: i8)
    ensures
        spec_decode(spec_encode(opcode, operand1, operand2)) == (opcode, operand1, operand2),
{
    let w = spec_encode(opcode, operand1, operand2);
    let high = opcode_ordinal(opcode) as u32;
    let mid = u16_of_i16(operand1) as u32;
    let low = u8_of_i8(operand2) as u32;
    assert(w == high * 0x100_0000 + mid * 0x100 + low);
    assert(w / 0x100_0000 == high) by (nonlinear_arith)
        requires
            w == high * 0x100_0000 + mid * 0x100 + low,
            high < 0x100,
            mid < 0x1_0000,
            low < 0x100,
    ;
    assert((w / 0x100) % 0x1_0000 == mid) by (nonlinear_arith)
        requires
            w == high * 0x100_0000 + mid * 0x100 + low,
            high < 0x100,
            mid < 0x1_0000,
            low < 0x100,
    ;
    assert(w % 0x100 == low) by (nonlinear_arith)
        requires
            w == high * 0x100_0000 + mid * 0x100 + low,
            high < 0x100,
            mid < 0x1_0000,
            low < 0x100,
    ;
}

/// Encoding is injective: two instructions with the same wire word are the
/// same instruction, the illegal opcode included.
pub proof fn lemma_encode_injective(
    opcode1: Opcode,
    operand1a: i16,
    operand2a: i8,
    opcode2: Opcode,
    operand1b: i16,
    operand2b: i8,
)
    requires
        spec_encode(opcode1, operand1a, operand2a) == spec_encode(opcode2, operand1b, operand2b),
    ensures
        opcode1 == opcode2 && operand1a == operand1b && operand2a == operand2b,
{
    lemma_decode_encode(opcode1, operand1a, operand2a);
    lemma_decode_encode(opcode2, operand1b, operand2b);
}

/// Round trip of the byte-array conversion: a word taken apart into its four
/// big-endian bytes and put back together is unchanged.
pub proof fn lemma_word_bytes_round_trip(instruction: u32)
    ensures
        spec_word_of_bytes(
            spec_word_bytes(instruction)[0],
            spec_word_bytes(instruction)[1],
            spec_word_bytes(instruction)[2],
            spec_word_bytes(instruction)[3],
        ) == instruction,
{
    let w = instruction;
    assert((w / 0x100_0000) * 0x100_0000 + ((w / 0x1_0000) % 0x100) * 0x1_0000 + ((w / 0x100)
        % 0x100) * 0x100 + w % 0x100 == w) by (nonlinear_arith);
}

} // verus!
