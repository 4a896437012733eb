//! Markdown shell pre-processor.
//!
//! The library recognizes command annotations embedded in a markdown
//! document (in HTML comments, code spans, fenced code blocks, or links),
//! acquires data for each (a shell command's output, file contents, or
//! literal text), and materializes the result back into the document as a
//! sentinel-delimited block.  Re-processing a processed document is meant
//! to reproduce it; `Cleaner` strips the generated blocks instead.
//!
//! The tokenizer and the execution engine are verified; running commands
//! and reading files is outside work that a caller performs on the
//! engine's behalf, one request at a time.
use vstd::prelude::*;

pub mod cli;
pub mod executor;
pub mod parser;
pub mod props;

verus! {

/// A half-open range of character positions into the input document.
#[derive(Clone, Copy, Debug, PartialEq, Eq, Structural)]
pub struct Span {
    pub start: usize,
    pub end: usize,
}

impl Span {
    /// The text of the document that the span selects.
    pub open spec fn text(self, s: Seq<char>) -> Seq<char> {
        s.subrange(self.start as int, self.end as int)
    }
}

/// One tokenized unit of the document stream.
#[derive(Clone, Copy, Debug, PartialEq, Eq, Structural)]
pub enum MdPiece {
    /// A previously generated sentinel-delimited block; always re-derived,
    /// never copied forward.
    FencedBlock(Span),
    /// A command annotation: the whole source text it was recognized in,
    /// and its decoded shape.
    Action(Span, executor::Action),
    /// Anything else, passed through verbatim.
    RawLine(Span),
}

impl MdPiece {
    /// The source text of the piece: the characters it covers.
    pub open spec fn source(self) -> Span {
        match self {
            MdPiece::FencedBlock(sp) => sp,
            MdPiece::Action(sp, _) => sp,
            MdPiece::RawLine(sp) => sp,
        }
    }
}

/// Marker line that opens an engine-generated block.
pub open spec fn begin_marker() -> Seq<char> {
    seq![
        '<',
        '!',
        '-',
        '-',
        ' ',
        'B',
        'E',
        'G',
        'I',
        'N',
        ' ',
        'm',
        'd',
        's',
        'h',
        ' ',
        '-',
        '-',
        '>',
    ]
}

/// Marker line that closes an engine-generated block.
pub open spec fn end_marker() -> Seq<char> {
    seq!['<', '!', '-', '-', ' ', 'E', 'N', 'D', ' ', 'm', 'd', 's', 'h', ' ', '-', '-', '>']
}

/// The begin marker, as text.
pub fn begin_marker_str() -> (r: &'static str)
    ensures
        r@ == begin_marker(),
        r@.len() == 19,
{
    proof {
        reveal_strlit("<!-- BEGIN mdsh -->");
        assert("<!-- BEGIN mdsh -->"@ =~= begin_marker());
    }
    "<!-- BEGIN mdsh -->"
}

/// The end marker, as text.
pub fn end_marker_str() -> (r: &'static str)
    ensures
        r@ == end_marker(),
        r@.len() == 17,
{
    proof {
        reveal_strlit("<!-- END mdsh -->");
        assert("<!-- END mdsh -->"@ =~= end_marker());
    }
    "<!-- END mdsh -->"
}

} // verus!

verus! {

/// What one piece contributes to a cleaned document: generated blocks
/// vanish, everything else is its source text.
pub open spec fn clean_piece_text(s: Seq<char>, p: MdPiece) -> Seq<char> {
    match p {
        MdPiece::FencedBlock(_) => Seq::empty(),
        MdPiece::Action(sp, _) => sp.text(s),
        MdPiece::RawLine(sp) => sp.text(s),
    }
}

/// The cleaned emission of a piece sequence from index `i` on.
pub open spec fn clean_emit(s: Seq<char>, ps: Seq<MdPiece>, i: int) -> Seq<char>
    decreases ps.len() - i,
{
    if i < 0 || i >= ps.len() {
        Seq::empty()
    } else {
        clean_piece_text(s, ps[i]) + clean_emit(s, ps, i + 1)
    }
}

/// The cleaned document: all generated blocks removed, everything
/// else kept byte for byte.
pub open spec fn spec_clean(s: Seq<char>) -> Result<Seq<char>, parser::ParseError> {
    match parser::spec_tokenize(s, 0) {
        Err(e) => Err(e),
        Ok(ps) => Ok(clean_emit(s, ps, 0)),
    }
}

/// Removes all generated blocks from a document, writing everything
/// else through to its output buffer.
#[derive(Debug)]
pub struct Cleaner {
    pub out: String,
}

impl Cleaner {
    /// A cleaner writing to `out`.
    pub fn new(out: String) -> (r: Self)
        ensures
            r.out == out,
    {
        Cleaner { out }
    }

    /// Emit one piece: nothing for a generated block, the source text
    /// otherwise.
    pub fn process_piece(&mut self, doc: &str, n: usize, piece: &MdPiece)
        requires
            n == doc@.len(),
            parser::piece_wf(*piece, n as int),
        ensures
            final(self).out@ == old(self).out@ + clean_piece_text(doc@, *piece),
    {
        match piece {
            MdPiece::FencedBlock(_) => {
                proof {
                    assert(self.out@ =~= self.out@ + Seq::<char>::empty());
                }
            },
            MdPiece::Action(sp, _) => {
                self.out.append(doc.substring_char(sp.start, sp.end));
            },
            MdPiece::RawLine(sp) => {
                self.out.append(doc.substring_char(sp.start, sp.end));
            },
        }
    }

    /// Clean a whole document into the output buffer.  A parse error
    /// aborts before any output.
    pub fn process(&mut self, input: &str) -> (r: Result<(), parser::ParseError>)
        ensures
            match spec_clean(input@) {
                Ok(t) => r is Ok && final(self).out@ == old(self).out@ + t,
                Err(e) => r == Err::<(), parser::ParseError>(e) && final(self).out == old(
                    self,
                ).out,
            },
    {
        let n = input.unicode_len();
        match parser::tokenize(input) {
            Err(e) => Err(e),
            Ok(pieces) => {
                proof {
                    parser::lemma_tokenize_wf(input@, 0);
                }
                let ghost ps = pieces@;
                let mut i: usize = 0;
                while i < pieces.len()
                    invariant
                        n == input@.len(),
                        i <= ps.len(),
                        ps == pieces@,
                        parser::spec_tokenize(input@, 0) == Ok::<Seq<MdPiece>,
                        parser::ParseError>(ps),
                        forall|j: int| 0 <= j < ps.len() ==> parser::piece_wf(
                            #[trigger] ps[j],
                            n as int,
                        ),
                        old(self).out@ + clean_emit(input@, ps, 0) == self.out@ + clean_emit(
                            input@,
                            ps,
                            i as int,
                        ),
                    decreases ps.len() - i,
                {
                    let ghost before = self.out@;
                    self.process_piece(input, n, &pieces[i]);
                    proof {
                        assert((before + clean_piece_text(input@, ps[i as int])) + clean_emit(
                            input@,
                            ps,
                            i + 1,
                        ) =~= before + (clean_piece_text(input@, ps[i as int]) + clean_emit(
                            input@,
                            ps,
                            i + 1,
                        )));
                    }
                    i += 1;
                }
                proof {
                    assert(self.out@ + clean_emit(input@, ps, ps.len() as int) =~= self.out@);
                }
                Ok(())
            },
        }
    }
}

} // verus!
