use vstd::prelude::*;

use crate::error::EmulatorError;
use crate::opcode::Opcode;
use crate::opcode::code_of;
use crate::opcode::lemma_opcode_code_roundtrip;
use crate::opcode::opcode_of_code;
use crate::token::Register;
use crate::token::Token;

verus! {

/// The catalog entry a token selects.
pub open spec fn token_opcode(t: Token) -> Opcode {
    match t {
        Token::Mov(Register::A, _) => Opcode::MovA,
        Token::Mov(Register::B, _) => Opcode::MovB,
        Token::MovAB => Opcode::MovA2B,
        Token::MovBA => Opcode::MovB2A,
        Token::Add(Register::A, _) => Opcode::AddA,
        Token::Add(Register::B, _) => Opcode::AddB,
        Token::Jmp(_) => Opcode::Jmp,
        Token::Jnc(_) => Opcode::Jnc,
        Token::In(Register::A) => Opcode::InA,
        Token::In(Register::B) => Opcode::InB,
        Token::OutB => Opcode::OutB,
        Token::OutIm(_) => Opcode::OutIm,
    }
}

/// The token's immediate operand as parsed, zero where it has none.
pub open spec fn token_immediate(t: Token) -> u8 {
    match t {
        Token::Mov(_, immediate) => immediate,
        Token::Add(_, immediate) => immediate,
        Token::Jmp(immediate) => immediate,
        Token::Jnc(immediate) => immediate,
        Token::OutIm(immediate) => immediate,
        _ => 0,
    }
}

/// One encoded word: the operation code in the high nibble, the immediate
/// masked to its low 4 bits in the low nibble.
pub open spec fn pack_word(code: u8, immediate: u8) -> u8 {
    (code << 4) | (immediate & 0x0f)
}

/// The byte a token assembles to.
pub open spec fn encode_token(t: Token) -> u8 {
    pack_word(code_of(token_opcode(t)), token_immediate(t))
}

/// Unpacking a packed word recovers the code, and the immediate masked to
/// 4 bits: an operand above 15 is silently truncated, never an error.
pub proof fn lemma_pack_unpack(code: u8, immediate: u8)
    by (bit_vector)
    requires
        code <= 15,
    ensures
        pack_word(code, immediate) >> 4 == code,
        pack_word(code, immediate) & 0x0f == immediate & 0x0f,
        immediate & 0x0f == immediate % 16,
{
}

/// Round trip of the whole catalog: decoding the byte a token assembles to
/// recovers the token's opcode exactly, and its immediate up to 4-bit
/// masking, so in-range operands come back unchanged.
pub proof fn lemma_encode_decode_roundtrip(t: Token)
    ensures
        opcode_of_code(encode_token(t) >> 4) == Some(token_opcode(t)),
        encode_token(t) & 0x0f == token_immediate(t) % 16,
        token_immediate(t) <= 15 ==> encode_token(t) & 0x0f == token_immediate(t),
{
    lemma_pack_unpack(code_of(token_opcode(t)), token_immediate(t));
    lemma_opcode_code_roundtrip(token_opcode(t));
    assert(token_immediate(t) <= 15 ==> token_immediate(t) % 16 == token_immediate(t));
}

/// The assembler's back end: packs a sequence of instruction tokens into
/// one encoded byte each.
#[derive(Clone, Copy, PartialEq, Eq, Structural, Debug)]
pub struct Compiler;

impl Compiler {
    pub fn new() -> (res: Self)
        ensures
            res == Compiler,
    {
        Self
    }

    /// Encodes every token in order. Fails exactly when the token list is
    /// empty; a well-formed token always packs into a byte.
    pub fn compile(&self, tokens: Vec<Token>) -> (res: Result<Vec<u8>, EmulatorError>)
        ensures
            res is Ok <==> tokens@.len() > 0,
            res matches Ok(bytes) ==> {
                &&& bytes@.len() == tokens@.len()
                &&& forall|i: int|
                    0 <= i < tokens@.len() ==> bytes@[i] == encode_token(tokens@[i])
            },
    {
        if tokens.is_empty() {
            return Err(EmulatorError::new("Failed to start to compile: Token list is empty"));
        }

        let mut result: Vec<u8> = Vec::new();

        let mut i: usize = 0;
        while i < tokens.len()
            invariant
                i <= tokens@.len(),
                result@.len() == i,
                forall|k: int| 0 <= k < i ==> result@[k] == encode_token(tokens@[k]),
            decreases tokens@.len() - i,
        {
            let token = tokens[i];
            let program = match token {
                Token::Mov(Register::A, immediate) => self.generate_binary_code(0b0011, immediate),
                Token::Mov(Register::B, immediate) => self.generate_binary_code(0b0111, immediate),
                Token::MovAB => self.generate_binary_code_with_zero_padding(0b0100),
                Token::MovBA => self.generate_binary_code_with_zero_padding(0b0001),
                Token::Add(Register::A, immediate) => self.generate_binary_code(0b0000, immediate),
                Token::Add(Register::B, immediate) => self.generate_binary_code(0b0101, immediate),
                Token::Jmp(immediate) => self.generate_binary_code(0b1111, immediate),
                Token::Jnc(immediate) => self.generate_binary_code(0b1110, immediate),
                Token::In(Register::A) => self.generate_binary_code_with_zero_padding(0b0010),
                Token::In(Register::B) => self.generate_binary_code_with_zero_padding(0b0110),
                Token::OutB => self.generate_binary_code_with_zero_padding(0b1001),
                Token::OutIm(immediate) => self.generate_binary_code(0b1011, immediate),
            };
            result.push(program);
            i = i + 1;
        }

        Ok(result)
    }

    /// Packs an operation code and an immediate into one encoded word,
    /// masking the immediate to its low 4 bits.
    pub fn generate_binary_code(&self, operation: u8, immediate: u8) -> (res: u8)
        requires
            operation <= 15,
        ensures
            res == pack_word(operation, immediate),
    {
        let shift_operation = operation << 4;
        let shift_data = immediate & 0x0f;
        shift_operation | shift_data
    }

    /// Packs an operation code that takes no operand: the low nibble is zero.
    pub fn generate_binary_code_with_zero_padding(&self, operation: u8) -> (res: u8)
        requires
            operation <= 15,
        ensures
            res == pack_word(operation, 0),
    {
        let shift_operation = operation << 4;
        let zero_padding = 0b0000 & 0x0f;
        shift_operation | zero_padding
    }
}

impl Default for Compiler {
    fn default() -> (res: Self)
        ensures
            res == Compiler,
    {
        Self
    }
}

} // verus!
