//! File identity, the source registry and the per-file compilation
//! driver.

use vstd::prelude::*;
use crate::error::TalkError;
use crate::lexer::{views_of, spec_lex, lemma_lex_terminal_eof, Lexer};
use crate::parsed_types::ProgramModel;
use crate::parser::{is_parser_error, spec_parse_program, ParseOutcome, Parser};

verus! {

/// A file's identity: a numeric id derived deterministically from its path
/// text, embedded in every span so diagnostics can name the file without
/// holding a path reference.
pub type FileId = usize;

/// One step of the rolling polynomial hash: multiply by 31 and add the next
/// character's code point, keeping the low 32 bits (the wrapping arithmetic
/// of a 32-bit accumulator).
pub open spec fn spec_hash32(s: Seq<char>) -> u32
    decreases s.len(),
{
    if s.len() == 0 {
        0u32
    } else {
        (((spec_hash32(s.drop_last()) * 31) + (s.last() as u32)) % 0x1_0000_0000) as u32
    }
}

/// The id of a file path: the 32-bit rolling hash, reinterpreted as a
/// signed 32-bit value and converted to the machine word width.  The hash
/// is not collision free: two distinct paths may share an id, which is why
/// ids serve only diagnostic attribution, never unique storage keys.
pub open spec fn spec_file_id(s: Seq<char>) -> FileId {
    (spec_hash32(s) as i32) as usize
}

/// Derives a file id from a path string: a base-31 rolling polynomial hash
/// of the path's characters, truncated to 32 bits and sign-extended to the
/// word width.  Pure and deterministic: equal paths always give equal ids.
pub fn file_name_to_id(file_name: &str) -> (r: FileId)
    ensures
        r == spec_file_id(file_name@),
{
    let len = file_name.unicode_len();
    let mut hash: u32 = 0;
    let mut i: usize = 0;
    while i < len
        invariant
            i <= len,
            len == file_name@.len(),
            hash == spec_hash32(file_name@.take(i as int)),
        decreases len - i,
    {
        let c = file_name.get_char(i);
        let wide: u64 = (hash as u64) * 31 + (c as u32 as u64);
        let next: u64 = wide % 0x1_0000_0000;
        proof {
            assert(file_name@.take(i + 1).drop_last() =~= file_name@.take(i as int));
            assert(file_name@.take(i + 1).last() == file_name@[i as int]);
        }
        hash = next as u32;
        i = i + 1;
    }
    proof {
        assert(file_name@.take(len as int) =~= file_name@);
    }
    let signed: i32 = #[verifier::truncate] (hash as i32);
    #[verifier::truncate] (signed as usize)
}

/// A classified numeric literal value, tagged with its intended width and
/// signedness.  Only the platform-size unsigned variant is produced by the
/// lexer today; the remaining variants are kept for forward compatibility
/// (literal suffixes, negative literals, typed literals).
#[derive(Clone, Copy, PartialEq, Eq, Structural, Debug)]
pub enum NumericConstant {
    I8(i8),
    I16(i16),
    I32(i32),
    I64(i64),
    U8(u8),
    U16(u16),
    U32(u32),
    U64(u64),
    USize(u64),
}

/// Duplicates a byte buffer.
fn clone_bytes(bytes: &Vec<u8>) -> (r: Vec<u8>)
    ensures
        r@ == bytes@,
{
    let mut r: Vec<u8> = Vec::new();
    let mut i: usize = 0;
    while i < bytes.len()
        invariant
            i <= bytes@.len(),
            r@ == bytes@.take(i as int),
        decreases bytes@.len() - i,
    {
        r.push(bytes[i]);
        proof {
            assert(bytes@.take(i + 1) =~= bytes@.take(i as int).push(bytes@[i as int]));
        }
        i = i + 1;
    }
    proof {
        assert(bytes@.take(i as int) =~= bytes@);
    }
    r
}

/// The outcome of one registered file's lex-then-parse pipeline: parsing
/// the token sequence lexed from its bytes under its path-derived id.
pub open spec fn file_outcome(f: (Seq<char>, Seq<u8>)) -> ParseOutcome<ProgramModel> {
    spec_parse_program(spec_lex(f.1, spec_file_id(f.0)), 0)
}

/// The source registry and driver: an ordered collection of the files
/// registered so far, each held as its path text and raw bytes.
pub struct Compiler {
    raw_files: Vec<(String, Vec<u8>)>,
}

impl Compiler {
    /// The registered files, in registration order: each one's path text
    /// and raw bytes.
    pub closed spec fn files(&self) -> Seq<(Seq<char>, Seq<u8>)> {
        self.raw_files@.map_values(|f: (String, Vec<u8>)| (f.0@, f.1@))
    }

    pub fn new() -> (r: Self)
        ensures
            r.files() == Seq::<(Seq<char>, Seq<u8>)>::empty(),
    {
        let c = Self { raw_files: Vec::new() };
        proof {
            assert(c.files() =~= Seq::<(Seq<char>, Seq<u8>)>::empty());
        }
        c
    }

    /// Appends one already-read file to the registry.  The caller reads
    /// the file's whole byte content; no id is assigned here — ids are
    /// derived on demand from the path text whenever lexing begins.
    pub fn add_file_contents(&mut self, file_name: String, file_contents: Vec<u8>)
        ensures
            final(self).files() == old(self).files().push((file_name@, file_contents@)),
    {
        let ghost name = file_name@;
        let ghost bytes = file_contents@;
        self.raw_files.push((file_name, file_contents));
        proof {
            assert(final(self).files() =~= old(self).files().push((name, bytes)));
        }
    }

    /// Runs the lex-then-parse pipeline over every registered file, each
    /// file independently, stopping at the first file whose parse fails.
    /// Success returns the empty output (no later stage is built yet);
    /// failure returns the first file's parse error.
    #[verifier::loop_isolation(false)]
    pub fn compile(&mut self) -> (r: Result<String, TalkError>)
        ensures
            final(self).files() == old(self).files(),
            match r {
                Ok(out) => out@ == Seq::<char>::empty() && (forall|i: int|
                    0 <= i < old(self).files().len() ==> (#[trigger] file_outcome(
                        old(self).files()[i],
                    )) is Success),
                Err(e) => (exists|i: int|
                    0 <= i < old(self).files().len() && (forall|j: int|
                        0 <= j < i ==> (#[trigger] file_outcome(old(self).files()[j])) is Success)
                        && ((#[trigger] file_outcome(old(self).files()[i])) matches
                        ParseOutcome::Failure(m, sp) && is_parser_error(e, m, sp))),
            },
    {
        let ghost files = self.files();
        let mut index: usize = 0;
        while index < self.raw_files.len()
            invariant
                index <= self.raw_files@.len(),
                self.raw_files == old(self).raw_files,
                forall|i: int|
                    0 <= i < index ==> (#[trigger] file_outcome(files[i])) is Success,
            decreases self.raw_files@.len() - index,
        {
            let file_name = self.raw_files[index].0.clone();
            let file_contents = clone_bytes(&self.raw_files[index].1);
            let ghost name = files[index as int].0;
            let ghost bytes = files[index as int].1;
            proof {
                assert(file_name@ == name);
                assert(file_contents@ == bytes);
            }
            let id = file_name_to_id(file_name.as_str());
            let mut lexer = Lexer::new(id, file_name.clone(), file_contents);
            let tokens = lexer.lex();
            proof {
                vstd::std_specs::vec::axiom_spec_len(&tokens);
                lemma_lex_terminal_eof(bytes, id);
            }
            let mut parser = Parser::new(lexer.file_id, file_name, tokens);
            proof {
                assert forall|i: int| 0 <= i < parser.tokens@.len() implies (#[trigger] parser
                    .tokens@[i]).span.file_id == parser.file_id by {
                    assert(views_of(parser.tokens@) == spec_lex(bytes, id));
                    assert(views_of(parser.tokens@)[i] == parser.tokens@[i]@);
                    assert(spec_lex(bytes, id)[i].span.file_id == id);
                }
                assert(parser.wf());
            }
            match parser.parse() {
                Ok(_) => {},
                Err(e) => {
                    proof {
                        assert(file_outcome(files[index as int]) == spec_parse_program(
                            spec_lex(bytes, spec_file_id(name)),
                            0,
                        ));
                    }
                    return Err(e);
                },
            }
            index = index + 1;
        }
        Ok(String::new())
    }
}

} // verus!
