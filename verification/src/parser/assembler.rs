//! The assembler: from tokens to a program.
//!
//! An instruction is exactly three tokens — a mnemonic, `operand1` and
//! `operand2` — once label definitions are stripped. A label definition
//! binds its name to the instruction index of the instruction that follows
//! it (a later definition of the same name wins), and a branch or call may
//! name a label as its first operand; `PUSH` may take a one-character word,
//! pushing the character's code. The whole translation is the specification
//! function [`assembled`]; [`Assembler::assemble`] computes exactly it.

use vstd::prelude::*;

use crate::parser::tokens::Token;
use crate::parser::tokens::TokenModel;
use crate::parser::tokens::TokenType;
use crate::parser::tokens::TokenTypeModel;
use crate::vm::instruction::Opcode;
use crate::vm::instruction::opcode_of_name;
use crate::vm::instruction::spec_encode;
use crate::vm::instruction::spec_word_bytes;

verus! {

/// The tokens that make up instructions: everything but label definitions.
pub open spec fn stripped(toks: Seq<TokenModel>) -> Seq<TokenModel>
    decreases toks.len(),
{
    if toks.len() == 0 {
        Seq::<TokenModel>::empty()
    } else {
        let rest = stripped(toks.drop_first());
        match toks[0].token_type {
            TokenTypeModel::Identifier(_) => rest,
            _ => seq![toks[0]] + rest,
        }
    }
}

/// The label bindings of a token sequence, `cnt` instruction tokens already
/// seen: each label definition binds its name to the instruction index of
/// the instruction after it, and a later definition of the same name wins.
pub open spec fn labels(toks: Seq<TokenModel>, cnt: int) -> Map<Seq<char>, int>
    decreases toks.len(),
{
    if toks.len() == 0 {
        Map::<Seq<char>, int>::empty()
    } else {
        match toks[0].token_type {
            TokenTypeModel::Identifier(name) => {
                let rest = labels(toks.drop_first(), cnt);
                if rest.contains_key(name) {
                    rest
                } else {
                    rest.insert(name, cnt / 3)
                }
            },
            _ => labels(toks.drop_first(), cnt + 1),
        }
    }
}

/// What a name is bound to in a list of `(name, address)` entries, the last
/// entry winning.
pub open spec fn assoc_lookup(entries: Seq<(String, usize)>, name: Seq<char>) -> Option<int>
    decreases entries.len(),
{
    if entries.len() == 0 {
        None::<int>
    } else if entries.last().0@ == name {
        Some(entries.last().1 as int)
    } else {
        assoc_lookup(entries.drop_last(), name)
    }
}

/// The bindings of `m`, extended by those of `entries` for every name `m`
/// does not bind.
pub open spec fn combined(entries: Seq<(String, usize)>, m: Map<Seq<char>, int>) -> Map<
    Seq<char>,
    int,
> {
    Map::new(
        |name: Seq<char>| m.contains_key(name) || assoc_lookup(entries, name) is Some,
        |name: Seq<char>|
            if m.contains_key(name) {
                m[name]
            } else {
                assoc_lookup(entries, name)->0
            },
    )
}

/// The opcodes whose first operand may be a label.
pub open spec fn is_branch_op(op: Opcode) -> bool {
    ||| op == Opcode::JMP
    ||| op == Opcode::JE
    ||| op == Opcode::JNE
    ||| op == Opcode::JG
    ||| op == Opcode::JL
    ||| op == Opcode::JGE
    ||| op == Opcode::JLE
    ||| op == Opcode::CALL
}

/// The operand a one-character `PUSH` word stands for: the character's code
/// point truncated to a byte and read as a signed value.
pub open spec fn char_operand(c: char) -> i16 {
    let b = (c as u32) % 256;
    if b < 128 {
        b as i16
    } else {
        (b - 256) as i16
    }
}

/// The word one instruction triple encodes to under the label bindings
/// `lab`, or nothing where the triple is ill-formed: an unknown mnemonic,
/// an `operand2` outside the 8-bit range, a label that is not bound or does
/// not fit 16 bits, a word operand on an opcode that takes none, or a label
/// definition standing as an operand.
pub open spec fn instruction_word(
    lab: Map<Seq<char>, int>,
    m: TokenModel,
    t1: TokenModel,
    t2: TokenModel,
) -> Option<u32> {
    match (m.token_type, t2.token_type) {
        (TokenTypeModel::Str(name), TokenTypeModel::Num(n2)) => {
            let op = opcode_of_name(name);
            if op == Opcode::ILG || n2 < -128 || n2 > 127 {
                None
            } else {
                match t1.token_type {
                    TokenTypeModel::Num(n1) => Some(spec_encode(op, n1, n2 as i8)),
                    TokenTypeModel::Str(word) => {
                        if is_branch_op(op) {
                            if lab.contains_key(word) && 0 <= lab[word] <= 0x7fff {
                                Some(spec_encode(op, lab[word] as i16, n2 as i8))
                            } else {
                                None
                            }
                        } else if op == Opcode::PUSH && word.len() == 1 {
                            Some(spec_encode(op, char_operand(word[0]), n2 as i8))
                        } else {
                            None
                        }
                    },
                    TokenTypeModel::Identifier(_) => None,
                }
            }
        },
        _ => None,
    }
}

/// The program a token sequence assembles to: its label definitions
/// resolved, the remaining tokens taken three at a time and each triple
/// encoded — or nothing where the sequence is not assemblable: no
/// instruction at all, a token count that is not a multiple of three, or an
/// ill-formed triple.
pub open spec fn assembled(toks: Seq<TokenModel>) -> Option<Seq<u32>> {
    let st = stripped(toks);
    let lab = labels(toks, 0);
    if st.len() == 0 || st.len() % 3 != 0 {
        None
    } else if forall|k: int|
        0 <= k < st.len() / 3 ==> (#[trigger] instruction_word(
            lab,
            st[3 * k],
            st[3 * k + 1],
            st[3 * k + 2],
        )) is Some {
        Some(
            Seq::new(
                (st.len() / 3) as nat,
                |k: int| instruction_word(lab, st[3 * k], st[3 * k + 1], st[3 * k + 2])->0,
            ),
        )
    } else {
        None
    }
}

/// The binary image of a program: each word as its four big-endian bytes.
pub open spec fn bytes_of_words(words: Seq<u32>) -> Seq<u8>
    decreases words.len(),
{
    if words.len() == 0 {
        Seq::<u8>::empty()
    } else {
        bytes_of_words(words.drop_last()) + spec_word_bytes(words.last())
    }
}

/// Pushing an entry relabels exactly its own name, and only where the
/// bindings it extends do not already bind that name.
proof fn lemma_combined_push(
    entries: Seq<(String, usize)>,
    rest: Map<Seq<char>, int>,
    entry: (String, usize),
)
    ensures
        combined(entries.push(entry), rest) == combined(
            entries,
            if rest.contains_key(entry.0@) {
                rest
            } else {
                rest.insert(entry.0@, entry.1 as int)
            },
        ),
{
    let name = entry.0@;
    let pushed = entries.push(entry);
    assert(pushed.drop_last() =~= entries);
    assert(pushed.last() == entry);
    let extended = if rest.contains_key(name) {
        rest
    } else {
        rest.insert(name, entry.1 as int)
    };
    assert(combined(pushed, rest) =~= combined(entries, extended));
}

/// The assembler: the token stream to translate, the program assembled so
/// far, and the path the caller means to write the binary image to.
pub struct Assembler {
    source: Vec<Token>,
    pub output: Vec<u32>,
    file_path: String,
}

/// The mathematical view of the assembler.
pub struct AssemblerModel {
    pub source: Seq<TokenModel>,
    pub output: Seq<u32>,
    pub file_path: Seq<char>,
}

impl View for Assembler {
    type V = AssemblerModel;

    closed spec fn view(&self) -> AssemblerModel {
        AssemblerModel {
            source: self.source.deep_view(),
            output: self.output@,
            file_path: self.file_path@,
        }
    }
}

/// The address a name is bound to among the recorded label definitions, the
/// last definition winning.
fn lookup_label(entries: &Vec<(String, usize)>, name: &String) -> (address: Option<usize>)
    ensures
        match address {
            Some(a) => assoc_lookup(entries@, name@) == Some(a as int),
            None => assoc_lookup(entries@, name@) is None,
        },
{
    let mut k = entries.len();
    proof {
        assert(entries@.take(k as int) =~= entries@);
    }
    while k > 0
        invariant
            k <= entries@.len(),
            assoc_lookup(entries@.take(k as int), name@) == assoc_lookup(entries@, name@),
        decreases k,
    {
        k = k - 1;
        proof {
            assert(entries@.take(k as int + 1).drop_last() =~= entries@.take(k as int));
            assert(entries@.take(k as int + 1).last() == entries@[k as int]);
        }
        if entries[k].0 == *name {
            return Some(entries[k].1);
        }
    }
    proof {
        assert(entries@.take(0) =~= Seq::<(String, usize)>::empty());
    }
    None
}

impl Assembler {
    /// An assembler over `source`, nothing assembled yet, remembering where
    /// the binary image is meant to go.
    pub fn new(source: Vec<Token>, file_path: &str) -> (assembler: Assembler)
        ensures
            assembler@.source == source.deep_view(),
            assembler@.output == Seq::<u32>::empty(),
            assembler@.file_path == file_path@,
    {
        let assembler = Assembler { source, output: Vec::new(), file_path: file_path.to_owned() };
        proof {
            assert(assembler@.output =~= Seq::<u32>::empty());
        }
        assembler
    }

    /// Translates the token stream and appends the program to `output`:
    /// exactly the words [`assembled`] gives. Requires the stream to be
    /// assemblable — label definitions may stand anywhere, every remaining
    /// token triple must be a well-formed instruction — and leaves the
    /// stream itself as it was.
    pub fn assemble(&mut self)
        requires
            assembled(old(self)@.source) is Some,
        ensures
            final(self)@.source == old(self)@.source,
            final(self)@.file_path == old(self)@.file_path,
            final(self)@.output == old(self)@.output + assembled(old(self)@.source).unwrap(),
    {
        let ghost toks = self@.source;
        let ghost st = stripped(toks);
        let ghost lab = labels(toks, 0);
        let n = self.source.len();
        let mut identifiers: Vec<(String, usize)> = Vec::new();
        let mut positions: Vec<usize> = Vec::new();
        let mut i: usize = 0;
        proof {
            assert(toks.skip(0) =~= toks);
            let sel0 = Seq::new(positions@.len() as nat, |m: int| toks[positions@[m] as int]);
            assert(sel0 + stripped(toks.skip(0)) =~= stripped(toks));
            assert(combined(identifiers@, labels(toks.skip(0), 0)) =~= labels(toks, 0));
        }
        while i < n
            invariant
                self@.source == toks,
                self@.output == old(self)@.output,
                self@.file_path == old(self)@.file_path,
                n == toks.len(),
                i <= n,
                forall|m: int| 0 <= m < positions@.len() ==> #[trigger] positions@[m] < n,
                Seq::new(positions@.len() as nat, |m: int| toks[positions@[m] as int]) + stripped(
                    toks.skip(i as int),
                ) == stripped(toks),
                combined(identifiers@, labels(toks.skip(i as int), positions@.len() as int))
                    == labels(toks, 0),
            decreases n - i,
        {
            let ghost sel = Seq::new(positions@.len() as nat, |m: int| toks[positions@[m] as int]);
            let ghost cnt = positions@.len() as int;
            proof {
                assert(toks.skip(i as int).drop_first() =~= toks.skip(i as int + 1));
                assert(toks.skip(i as int)[0] == toks[i as int]);
            }
            match &self.source[i].token_type {
                TokenType::Identifier(name) => {
                    let ghost prev_entries = identifiers@;
                    let entry = (name.clone(), positions.len() / 3);
                    identifiers.push(entry);
                    proof {
                        let rest = labels(toks.skip(i as int + 1), cnt);
                        assert(identifiers@ == prev_entries.push(identifiers@.last()));
                        lemma_combined_push(prev_entries, rest, identifiers@.last());
                    }
                },
                _ => {
                    positions.push(i);
                    proof {
                        assert(stripped(toks.skip(i as int)) == seq![toks[i as int]] + stripped(
                            toks.skip(i as int + 1),
                        ));
                        assert(Seq::new(
                            positions@.len() as nat,
                            |m: int| toks[positions@[m] as int],
                        ) =~= sel.push(toks[i as int]));
                        assert(sel.push(toks[i as int]) + stripped(toks.skip(i as int + 1))
                            =~= sel + (seq![toks[i as int]] + stripped(toks.skip(i as int + 1))));
                    }
                },
            }
            i = i + 1;
        }
        proof {
            assert(toks.skip(n as int) =~= Seq::<TokenModel>::empty());
            let seln = Seq::new(positions@.len() as nat, |m: int| toks[positions@[m] as int]);
            assert(seln + stripped(toks.skip(n as int)) =~= seln);
            assert(labels(toks.skip(n as int), positions@.len() as int) =~= Map::<
                Seq<char>,
                int,
            >::empty());
        }
        let total = positions.len();
        proof {
            assert(st.len() == total);
            assert(st.len() % 3 == 0 && st.len() > 0);
        }
        let count = total / 3;
        proof {
            vstd::arithmetic::div_mod::lemma_fundamental_div_mod(total as int, 3);
        }
        let mut k: usize = 0;
        while k < count
            invariant
                self@.source == toks,
                self@.file_path == old(self)@.file_path,
                n == toks.len(),
                st == stripped(toks),
                lab == labels(toks, 0),
                assembled(toks) is Some,
                3 * count == st.len(),
                k <= count,
                positions@.len() == st.len(),
                forall|m: int| 0 <= m < positions@.len() ==> #[trigger] positions@[m] < n,
                Seq::new(positions@.len() as nat, |m: int| toks[positions@[m] as int]) == st,
                combined(identifiers@, Map::<Seq<char>, int>::empty()) == lab,
                self@.output == old(self)@.output + assembled(toks).unwrap().take(k as int),
            decreases count - k,
        {
            proof {
                assert(3 * k + 2 < st.len()) by (nonlinear_arith)
                    requires
                        k < count,
                        3 * count == st.len(),
                ;
                assert(positions.len() == positions@.len());
            }
            let p0 = positions[3 * k];
            let p1 = positions[3 * k + 1];
            let p2 = positions[3 * k + 2];
            let ghost m0 = st[3 * k as int];
            let ghost m1 = st[3 * k as int + 1];
            let ghost m2 = st[3 * k as int + 2];
            proof {
                assert(toks[p0 as int] == m0);
                assert(toks[p1 as int] == m1);
                assert(toks[p2 as int] == m2);
                assert(instruction_word(lab, m0, m1, m2) is Some);
            }
            let opcode = match &self.source[p0].token_type {
                TokenType::Str(name) => Opcode::from_name(name),
                _ => {
                    proof {
                        assert(false);
                    }
                    Opcode::ILG
                },
            };
            let operand2 = match &self.source[p2].token_type {
                TokenType::Num(value) => *value,
                _ => {
                    proof {
                        assert(false);
                    }
                    0i16
                },
            };
            let word = match &self.source[p1].token_type {
                TokenType::Num(value) => Opcode::encode(opcode, *value, operand2 as i8),
                TokenType::Str(name) => {
                    let branching = matches!(
                        opcode,
                        Opcode::JMP | Opcode::JE | Opcode::JNE | Opcode::JG | Opcode::JL
                            | Opcode::JGE | Opcode::JLE | Opcode::CALL
                    );
                    if branching {
                        match lookup_label(&identifiers, name) {
                            Some(address) => Opcode::encode(opcode, address as i16, operand2 as i8),
                            None => {
                                proof {
                                    assert(false);
                                }
                                0u32
                            },
                        }
                    } else {
                        let ch = name.as_str().get_char(0);
                        let code = (ch as u32) % 256;
                        let operand1: i16 = if code < 128 {
                            code as i16
                        } else {
                            (code as i32 - 256) as i16
                        };
                        Opcode::encode(opcode, operand1, operand2 as i8)
                    }
                },
                TokenType::Identifier(_) => {
                    proof {
                        assert(false);
                    }
                    0u32
                },
            };
            proof {
                assert(word == instruction_word(lab, m0, m1, m2)->0);
                assert(word == assembled(toks).unwrap()[k as int]);
            }
            self.output.push(word);
            proof {
                assert(self@.output =~= old(self)@.output + assembled(toks).unwrap().take(
                    k as int + 1,
                ));
            }
            k = k + 1;
        }
        proof {
            assert(assembled(toks).unwrap().take(count as int) =~= assembled(toks).unwrap());
        }
    }

    /// The path the binary image is meant to be written to.
    pub fn file_path(&self) -> (path: &String)
        ensures
            path@ == self@.file_path,
    {
        &self.file_path
    }

    /// The binary image of the assembled program: every word of `output` as
    /// four big-endian bytes, in order, with no header.
    pub fn to_bytes(&self) -> (bytes: Vec<u8>)
        ensures
            bytes@ == bytes_of_words(self@.output),
    {
        let mut bytes: Vec<u8> = Vec::new();
        let mut w: usize = 0;
        proof {
            assert(bytes@ =~= bytes_of_words(self@.output.take(0)));
        }
        while w < self.output.len()
            invariant
                w <= self@.output.len(),
                bytes@ == bytes_of_words(self@.output.take(w as int)),
            decreases self@.output.len() - w,
        {
            let quad = Opcode::instruction_to_byte_array(self.output[w]);
            bytes.push(quad[0]);
            bytes.push(quad[1]);
            bytes.push(quad[2]);
            bytes.push(quad[3]);
            proof {
                let taken = self@.output.take(w as int + 1);
                assert(taken.drop_last() =~= self@.output.take(w as int));
                assert(taken.last() == self@.output[w as int]);
                assert(bytes@ =~= bytes_of_words(self@.output.take(w as int))
                    + spec_word_bytes(self@.output[w as int]));
            }
            w = w + 1;
        }
        proof {
            assert(self@.output.take(self@.output.len() as int) =~= self@.output);
        }
        bytes
    }
}

} // verus!
