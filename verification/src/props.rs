//! Document-level laws of the library.
use vstd::prelude::*;

use crate::{clean_emit, clean_piece_text, MdPiece};
use crate::parser::{
    spec_tokenize, spec_markdown_piece, lemma_markdown_piece_wf, lemma_tokenize_wf, mk_span,
};

verus! {

/// The source texts of a piece sequence, concatenated in order.
pub open spec fn concat_sources(s: Seq<char>, ps: Seq<MdPiece>) -> Seq<char>
    decreases ps.len(),
{
    if ps.len() == 0 {
        Seq::empty()
    } else {
        ps[0].source().text(s) + concat_sources(s, ps.drop_first())
    }
}

/// Coverage, generalized over the starting position: the pieces of a
/// successful parse reproduce the parsed text exactly.
pub proof fn lemma_cover_from(s: Seq<char>, pos: int)
    requires
        0 <= pos <= s.len(),
        s.len() <= usize::MAX,
    ensures
        match spec_tokenize(s, pos) {
            Ok(ps) => concat_sources(s, ps) == s.subrange(pos, s.len() as int),
            Err(e) => true,
        },
    decreases s.len() - pos,
{
    if pos < 0 || pos >= s.len() {
        assert(s.subrange(pos, s.len() as int) =~= Seq::<char>::empty());
    } else {
        lemma_markdown_piece_wf(s, pos);
        match spec_markdown_piece(s, pos) {
            Err(e) => {},
            Ok(None) => {},
            Ok(Some((p, end))) => {
                if pos < end <= s.len() {
                    lemma_cover_from(s, end);
                    match spec_tokenize(s, end) {
                        Err(e) => {},
                        Ok(rest) => {
                            let ps = seq![p] + rest;
                            assert(ps.drop_first() =~= rest);
                            assert(p.source().text(s) =~= s.subrange(pos, end));
                            assert(s.subrange(pos, end) + s.subrange(end, s.len() as int)
                                =~= s.subrange(pos, s.len() as int));
                        },
                    }
                }
            },
        }
    }
}

/// Coverage: concatenating the source text of every piece of a
/// successful parse reconstructs the input exactly — no characters
/// are dropped or invented by the tokenizer, so what the engine emits
/// differs from the input only by the generated blocks it discards
/// and the blocks it appends.
pub proof fn lemma_coverage(s: Seq<char>)
    requires
        s.len() <= usize::MAX,
        spec_tokenize(s, 0) is Ok,
    ensures
        concat_sources(s, spec_tokenize(s, 0)->Ok_0) == s,
{
    lemma_cover_from(s, 0);
    assert(s.subrange(0, s.len() as int) =~= s);
}

/// The cleaned emission is exactly the non-generated part of the
/// coverage: every piece contributes its source text, except that a
/// generated block contributes nothing.
pub proof fn lemma_clean_keeps_everything_else(s: Seq<char>, ps: Seq<MdPiece>)
    ensures
        forall|j: int| 0 <= j < ps.len() && !(ps[j] is FencedBlock) ==> clean_piece_text(
            s,
            #[trigger] ps[j],
        ) == ps[j].source().text(s),
        forall|j: int| 0 <= j < ps.len() && ps[j] is FencedBlock ==> clean_piece_text(
            s,
            #[trigger] ps[j],
        ) == Seq::<char>::empty(),
{
}

} // verus!

verus! {

use crate::parser::{
    lit_at, spec_sentinel_scan, spec_sentinel_close, spec_sentinel_block, skip_spaces,
};
use crate::{begin_marker, end_marker, Span};

/// An interior free of sentinel markers scans straight to its end
/// marker.
pub proof fn lemma_sentinel_scan_clean(s: Seq<char>, pos: int, endpos: int)
    requires
        0 <= pos <= endpos,
        endpos + 17 <= s.len(),
        forall|p: int| pos <= p < endpos ==> !lit_at(s, p, begin_marker()) && !lit_at(
            s,
            p,
            #[trigger] end_marker(),
        ),
        lit_at(s, endpos, end_marker()),
    ensures
        spec_sentinel_scan(s, pos, 0) == spec_sentinel_close(s, endpos + 17),
    decreases endpos - pos,
{
    assert(!lit_at(s, endpos, begin_marker())) by {
        assert(s[endpos + 5] == end_marker()[5]);
    }
    if pos == endpos {
    } else {
        assert(!lit_at(s, pos, begin_marker()) && !lit_at(s, pos, end_marker()));
        lemma_sentinel_scan_clean(s, pos + 1, endpos);
    }
}

/// The sentinel pair invariant behind idempotent re-processing: a
/// block whose begin marker stands alone on its line and whose
/// interior holds no further marker is recognized as exactly one
/// generated block ending right after its end marker's line — which
/// both modes then discard, so re-running the triggering annotation
/// with the same acquired data reproduces it byte for byte.  `pos` is
/// the position of the begin marker, `endpos` that of the end marker.
pub proof fn lemma_rendered_block_reparses(s: Seq<char>, pos: int, endpos: int)
    requires
        s.len() <= usize::MAX,
        0 <= pos,
        lit_at(s, pos, begin_marker()),
        pos + 19 < s.len(),
        s[pos + 19] == '\n',
        pos + 20 <= endpos,
        lit_at(s, endpos, end_marker()),
        endpos + 17 < s.len(),
        s[endpos + 17] == '\n',
        forall|p: int| pos + 20 <= p < endpos ==> !lit_at(s, p, begin_marker()) && !lit_at(
            s,
            p,
            #[trigger] end_marker(),
        ),
    ensures
        spec_sentinel_block(s, pos) == Ok::<Option<int>, crate::parser::ParseError>(
            Some(endpos + 18),
        ),
        spec_markdown_piece(s, pos) == Ok::<Option<(crate::MdPiece, int)>,
        crate::parser::ParseError>(
            Some(
                (
                    crate::MdPiece::FencedBlock(
                        Span { start: pos as usize, end: (endpos + 18) as usize },
                    ),
                    endpos + 18,
                ),
            ),
        ),
        clean_piece_text(
            s,
            crate::MdPiece::FencedBlock(Span { start: pos as usize, end: (endpos + 18) as usize }),
        ) == Seq::<char>::empty(),
{
    lemma_sentinel_scan_clean(s, pos + 20, endpos);
    assert(skip_spaces(s, endpos + 17) == endpos + 17);
    assert(spec_sentinel_close(s, endpos + 17) == Ok::<int, crate::parser::ParseError>(
        endpos + 18,
    ));
}

/// The same invariant for the block as the engine writes it: the
/// blank line before the begin marker belongs to the generated block,
/// so the piece begins at the blank line and cleaning removes the
/// block together with it.  `pos` is the position of that blank line.
pub proof fn lemma_rendered_block_with_blank_reparses(s: Seq<char>, pos: int, endpos: int)
    requires
        s.len() <= usize::MAX,
        0 <= pos < s.len(),
        s[pos] == '\n',
        lit_at(s, pos + 1, begin_marker()),
        pos + 20 < s.len(),
        s[pos + 20] == '\n',
        pos + 21 <= endpos,
        lit_at(s, endpos, end_marker()),
        endpos + 17 < s.len(),
        s[endpos + 17] == '\n',
        forall|p: int| pos + 21 <= p < endpos ==> !lit_at(s, p, begin_marker()) && !lit_at(
            s,
            p,
            #[trigger] end_marker(),
        ),
    ensures
        spec_markdown_piece(s, pos) == Ok::<Option<(crate::MdPiece, int)>,
        crate::parser::ParseError>(
            Some(
                (
                    crate::MdPiece::FencedBlock(
                        Span { start: pos as usize, end: (endpos + 18) as usize },
                    ),
                    endpos + 18,
                ),
            ),
        ),
        clean_piece_text(
            s,
            crate::MdPiece::FencedBlock(Span { start: pos as usize, end: (endpos + 18) as usize }),
        ) == Seq::<char>::empty(),
{
    lemma_sentinel_scan_clean(s, pos + 21, endpos);
    assert(skip_spaces(s, endpos + 17) == endpos + 17);
    assert(spec_sentinel_close(s, endpos + 17) == Ok::<int, crate::parser::ParseError>(
        endpos + 18,
    ));
}

/// Cleaning a document that holds no generated blocks is the
/// identity: with nothing to discard, coverage makes the emission the
/// input itself.
pub proof fn lemma_clean_emit_covers(s: Seq<char>, ps: Seq<MdPiece>, i: int)
    requires
        0 <= i <= ps.len(),
        forall|j: int| i <= j < ps.len() ==> !((#[trigger] ps[j]) is FencedBlock),
    ensures
        clean_emit(s, ps, i) == concat_sources(s, ps.subrange(i, ps.len() as int)),
    decreases ps.len() - i,
{
    if i >= ps.len() {
        assert(ps.subrange(i, ps.len() as int) =~= Seq::<MdPiece>::empty());
    } else {
        lemma_clean_emit_covers(s, ps, i + 1);
        assert(ps.subrange(i, ps.len() as int).drop_first() =~= ps.subrange(
            i + 1,
            ps.len() as int,
        ));
        assert(ps.subrange(i, ps.len() as int)[0] == ps[i]);
    }
}

/// Clean is the identity on fresh documents: if a document parses and
/// holds no generated block, cleaning changes nothing.
pub proof fn lemma_clean_fresh_identity(s: Seq<char>)
    requires
        s.len() <= usize::MAX,
        spec_tokenize(s, 0) is Ok,
        forall|j: int|
            0 <= j < spec_tokenize(s, 0)->Ok_0.len() ==> !((
            #[trigger] spec_tokenize(s, 0)->Ok_0[j]) is FencedBlock),
    ensures
        crate::spec_clean(s) == Ok::<Seq<char>, crate::parser::ParseError>(s),
{
    let ps = spec_tokenize(s, 0)->Ok_0;
    lemma_clean_emit_covers(s, ps, 0);
    assert(ps.subrange(0, ps.len() as int) =~= ps);
    lemma_coverage(s);
}

} // verus!

verus! {

use crate::executor::{drive, DriveRes, concat_texts};

/// Driving pieces that are all raw lines emits exactly their sources.
pub proof fn lemma_drive_raw(
    s: Seq<char>,
    ps: Seq<MdPiece>,
    i: int,
    out: Seq<char>,
    vars: Seq<(Seq<char>, Seq<char>)>,
    host: Seq<(Seq<char>, Seq<char>)>,
)
    requires
        0 <= i <= ps.len(),
        forall|j: int| i <= j < ps.len() ==> (#[trigger] ps[j]) is RawLine,
    ensures
        drive(s, ps, i, out, vars, host) == DriveRes::Done(
            out + concat_sources(s, ps.subrange(i, ps.len() as int)),
            vars,
        ),
    decreases ps.len() - i,
{
    if i >= ps.len() {
        assert(ps.subrange(i, ps.len() as int) =~= Seq::<MdPiece>::empty());
        assert(out + concat_sources(s, ps.subrange(i, ps.len() as int)) =~= out);
    } else {
        let sp = ps[i]->RawLine_0;
        lemma_drive_raw(s, ps, i + 1, out + sp.text(s), vars, host);
        assert(ps.subrange(i, ps.len() as int).drop_first() =~= ps.subrange(
            i + 1,
            ps.len() as int,
        ));
        assert(ps.subrange(i, ps.len() as int)[0] == ps[i]);
        assert((out + sp.text(s)) + concat_sources(s, ps.subrange(i + 1, ps.len() as int)) =~= out
            + concat_sources(s, ps.subrange(i, ps.len() as int)));
    }
}

/// A fully successful no-op run leaves the input unchanged: a
/// document that parses into raw lines alone — no annotations, no
/// generated blocks — is emitted byte for byte, whatever the variable
/// environment holds.
pub proof fn lemma_process_noop(
    s: Seq<char>,
    vars: Seq<(Seq<char>, Seq<char>)>,
    host: Seq<(Seq<char>, Seq<char>)>,
)
    requires
        s.len() <= usize::MAX,
        spec_tokenize(s, 0) is Ok,
        forall|j: int|
            0 <= j < spec_tokenize(s, 0)->Ok_0.len() ==> (#[trigger] spec_tokenize(
                s,
                0,
            )->Ok_0[j]) is RawLine,
    ensures
        drive(s, spec_tokenize(s, 0)->Ok_0, 0, Seq::empty(), vars, host) == DriveRes::Done(
            s,
            vars,
        ),
{
    let ps = spec_tokenize(s, 0)->Ok_0;
    lemma_drive_raw(s, ps, 0, Seq::empty(), vars, host);
    lemma_coverage(s);
    assert(ps.subrange(0, ps.len() as int) =~= ps);
    assert(Seq::<char>::empty() + concat_sources(s, ps) =~= concat_sources(s, ps));
}

} // verus!
