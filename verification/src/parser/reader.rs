//! Decoding a flat binary image into a program.
//!
//! The persistence format is a headerless sequence of 4-byte big-endian
//! words. Decoding checks the image's alignment before anything else, so a
//! misaligned image fails before any instruction could execute.

use vstd::prelude::*;

use crate::parser::assembler::bytes_of_words;
use crate::vm::cpu::FaultKind;
use crate::vm::instruction::Opcode;
use crate::vm::instruction::lemma_word_bytes_round_trip;
use crate::vm::instruction::spec_word_bytes;
use crate::vm::instruction::spec_word_of_bytes;

verus! {

/// The program a well-aligned binary image holds: each group of four bytes
/// read as one big-endian word.
pub open spec fn words_of_bytes(bytes: Seq<u8>) -> Seq<u32> {
    Seq::new(
        (bytes.len() / 4) as nat,
        |k: int|
            spec_word_of_bytes(bytes[4 * k], bytes[4 * k + 1], bytes[4 * k + 2], bytes[4 * k + 3]),
    )
}

/// A binary image is four bytes per word.
proof fn lemma_bytes_of_words_len(words: Seq<u32>)
    ensures
        bytes_of_words(words).len() == 4 * words.len(),
    decreases words.len(),
{
    if words.len() > 0 {
        lemma_bytes_of_words_len(words.drop_last());
    }
}

/// The byte at offset `4 * k + r` of a binary image belongs to word `k`.
proof fn lemma_bytes_of_words_index(words: Seq<u32>, k: int, r: int)
    requires
        0 <= k < words.len(),
        0 <= r < 4,
    ensures
        bytes_of_words(words)[4 * k + r] == spec_word_bytes(words[k])[r],
    decreases words.len(),
{
    lemma_bytes_of_words_len(words.drop_last());
    if k < words.len() - 1 {
        lemma_bytes_of_words_index(words.drop_last(), k, r);
    }
}

/// Round trip of the binary-image form: a program written as its image and
/// loaded back is unchanged, and the image is always well-aligned.
pub proof fn lemma_image_round_trip(words: Seq<u32>)
    ensures
        bytes_of_words(words).len() % 4 == 0,
        words_of_bytes(bytes_of_words(words)) == words,
{
    let bytes = bytes_of_words(words);
    lemma_bytes_of_words_len(words);
    assert(words_of_bytes(bytes) =~= words) by {
        assert forall|k: int| 0 <= k < words.len() implies words_of_bytes(bytes)[k]
            == words[k] by {
            lemma_bytes_of_words_index(words, k, 0);
            lemma_bytes_of_words_index(words, k, 1);
            lemma_bytes_of_words_index(words, k, 2);
            lemma_bytes_of_words_index(words, k, 3);
            lemma_word_bytes_round_trip(words[k]);
        }
    }
}

/// Reads programs back from their binary-image form.
pub struct Reader;

impl Reader {
    /// Decodes a binary image into a program: every four bytes become one
    /// big-endian word. Fails — before any instruction could execute — if
    /// and only if the image's byte length is not a multiple of four, and
    /// with that one fault kind.
    pub fn decode_program(bytes: &Vec<u8>) -> (program: Result<Vec<u32>, FaultKind>)
        ensures
            program is Ok <==> bytes@.len() % 4 == 0,
            match program {
                Ok(words) => words@ == words_of_bytes(bytes@),
                Err(kind) => kind == FaultKind::MisalignedBinary,
            },
    {
        if bytes.len() % 4 != 0 {
            return Err(FaultKind::MisalignedBinary);
        }
        let count = bytes.len() / 4;
        proof {
            vstd::arithmetic::div_mod::lemma_fundamental_div_mod(bytes@.len() as int, 4);
        }
        let mut words: Vec<u32> = Vec::new();
        let mut k: usize = 0;
        while k < count
            invariant
                4 * count == bytes@.len(),
                k <= count,
                words@ == words_of_bytes(bytes@).take(k as int),
            decreases count - k,
        {
            proof {
                assert(bytes.len() == bytes@.len());
                assert(4 * k + 3 < bytes@.len()) by (nonlinear_arith)
                    requires
                        k < count,
                        4 * count == bytes@.len(),
                ;
            }
            let word = Opcode::byte_array_to_instruction(
                [bytes[4 * k], bytes[4 * k + 1], bytes[4 * k + 2], bytes[4 * k + 3]],
            );
            words.push(word);
            proof {
                assert(words@ =~= words_of_bytes(bytes@).take(k as int + 1));
            }
            k = k + 1;
        }
        proof {
            assert(words@ =~= words_of_bytes(bytes@));
        }
        Ok(words)
    }
}

} // verus!
