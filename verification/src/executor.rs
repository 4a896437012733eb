//! The execution engine: drives the tokenizer, dispatches each piece
//! through data acquisition and output materialization, and owns the
//! run-scoped variable environment.
use vstd::prelude::*;

use crate::Span;

verus! {

/// How to get data: command output, file contents, or raw text.
#[derive(Clone, Copy, Debug, PartialEq, Eq, Structural)]
pub enum InType {
    /// `$ cmd` executes `cmd`, piping the data block (if any) to its input;
    /// `$` alone executes the data block itself.  Standard output is the
    /// result.
    Execute,
    /// `< fname` reads a file; `<` alone reads the list of files named by
    /// the data block and concatenates them.
    Read,
    /// The data line and/or data block themselves are the result.
    RawData,
}

/// What to do with the data.
#[derive(Clone, Copy, Debug, PartialEq, Eq, Structural)]
pub enum OutType {
    /// `>` wraps the result in the sentinel pair as inline markdown.
    Markdown,
    /// `!` parses the result as environment variable assignments.
    Environment,
    /// `> lang` wraps the result in a fenced code block tagged `lang`,
    /// itself inside the sentinel pair.  The span selects the language tag.
    CodeBlock(Span),
}

/// The decoded command of one annotation: an input and an output selector.
#[derive(Clone, Copy, Debug, PartialEq, Eq, Structural)]
pub struct Command {
    pub in_type: InType,
    pub out_type: OutType,
}

/// The decoded shape of one annotation: the command, an optional inline
/// data line, and an optional multi-line data block.
#[derive(Clone, Copy, Debug, PartialEq, Eq, Structural)]
pub struct Action {
    pub command: Command,
    pub data_line: Option<Span>,
    pub data: Option<Span>,
}

} // verus!

use crate::parser::{
    ParseError, ParseErrorKind, spec_env_line, env_var_line, spec_tokenize, tokenize, find_char,
    find_char_x, lemma_find_char, piece_wf, action_wf, lemma_tokenize_wf,
};
use crate::{begin_marker, end_marker, begin_marker_str, end_marker_str, MdPiece};

verus! {

// ---------------------------------------------------------------------
// The variable environment
// ---------------------------------------------------------------------

/// The text of a sequence of key/value pairs.
pub open spec fn pairs_view(v: Seq<(String, String)>) -> Seq<(Seq<char>, Seq<char>)> {
    v.map_values(|p: (String, String)| (p.0@, p.1@))
}

/// The text of a sequence of strings.
pub open spec fn strings_view(v: Seq<String>) -> Seq<Seq<char>> {
    v.map_values(|x: String| x@)
}

/// First value bound to `k` in `ps`, scanning from the front.
pub open spec fn lookup_pairs(ps: Seq<(Seq<char>, Seq<char>)>, k: Seq<char>) -> Option<Seq<char>>
    decreases ps.len(),
{
    if ps.len() == 0 {
        None
    } else if ps[0].0 == k {
        Some(ps[0].1)
    } else {
        lookup_pairs(ps.drop_first(), k)
    }
}

/// Look `k` up in the run variables first, then in the host
/// environment snapshot.
pub open spec fn merged_lookup(
    vars: Seq<(Seq<char>, Seq<char>)>,
    host: Seq<(Seq<char>, Seq<char>)>,
    k: Seq<char>,
) -> Option<Seq<char>> {
    match lookup_pairs(vars, k) {
        Some(v) => Some(v),
        None => lookup_pairs(host, k),
    }
}

/// The two environments as one mapping: run variables shadow the host.
pub open spec fn merged_map(
    vars: Seq<(Seq<char>, Seq<char>)>,
    host: Seq<(Seq<char>, Seq<char>)>,
) -> Map<Seq<char>, Seq<char>> {
    Map::new(
        |k: Seq<char>| merged_lookup(vars, host, k) is Some,
        |k: Seq<char>| merged_lookup(vars, host, k).unwrap(),
    )
}

/// First index of `k` among the keys of `ps`, scanning from `i`.
pub open spec fn find_key(ps: Seq<(Seq<char>, Seq<char>)>, i: int, k: Seq<char>) -> Option<int>
    decreases ps.len() - i,
{
    if i < 0 || i >= ps.len() {
        None
    } else if ps[i].0 == k {
        Some(i)
    } else {
        find_key(ps, i + 1, k)
    }
}

/// Bind `k` to `v`: overwrite the first binding of `k`, or append a new
/// one; insertion order is kept.
pub open spec fn upsert(
    ps: Seq<(Seq<char>, Seq<char>)>,
    k: Seq<char>,
    v: Seq<char>,
) -> Seq<(Seq<char>, Seq<char>)> {
    match find_key(ps, 0, k) {
        Some(i) => ps.update(i, (k, v)),
        None => ps.push((k, v)),
    }
}

/// What a shell expansion returns: a pure function of the input text
/// and the lookup mapping alone.  `None` stands for a failed expansion.
pub uninterp spec fn expand_of(s: Seq<char>, env: Map<Seq<char>, Seq<char>>) -> Option<Seq<char>>;

/// Executable lookup matching `merged_lookup`.
pub fn lookup_var(
    vars: &Vec<(String, String)>,
    host: &Vec<(String, String)>,
    name: &str,
) -> (r: Option<String>)
    ensures
        match r {
            Some(v) => merged_lookup(pairs_view(vars@), pairs_view(host@), name@) == Some(v@),
            None => merged_lookup(pairs_view(vars@), pairs_view(host@), name@) is None,
        },
{
    match lookup_in(vars, name) {
        Some(v) => Some(v),
        None => lookup_in(host, name),
    }
}

/// Executable lookup matching `lookup_pairs`.
fn lookup_in(ps: &Vec<(String, String)>, name: &str) -> (r: Option<String>)
    ensures
        match r {
            Some(v) => lookup_pairs(pairs_view(ps@), name@) == Some(v@),
            None => lookup_pairs(pairs_view(ps@), name@) is None,
        },
{
    let key = String::from_str(name);
    let mut i: usize = 0;
    proof {
        assert(pairs_view(ps@).subrange(0, ps@.len() as int) =~= pairs_view(ps@));
    }
    while i < ps.len()
        invariant
            i <= ps.len(),
            key@ == name@,
            lookup_pairs(pairs_view(ps@), name@) == lookup_pairs(
                pairs_view(ps@).subrange(i as int, ps@.len() as int),
                name@,
            ),
        decreases ps.len() - i,
    {
        proof {
            assert(pairs_view(ps@).subrange(i as int, ps@.len() as int).drop_first()
                =~= pairs_view(ps@).subrange(i + 1, ps@.len() as int));
            assert(pairs_view(ps@)[i as int] == (ps@[i as int].0@, ps@[i as int].1@));
        }
        if ps[i].0 == key {
            return Some(ps[i].1.clone());
        }
        i += 1;
    }
    None
}

/// Relies on shellexpand::env_with_context: every `$VAR` and `${VAR}`
/// reference in `v` is resolved through the given lookup alone, so the
/// result is a function of the text and the mapping; a reference whose
/// lookup fails makes the whole expansion fail, and the error names the
/// variable.  A string without `$` is returned unchanged.
#[verifier::external_body]
fn shell_expand(v: &str, vars: &Vec<(String, String)>, host: &Vec<(String, String)>) -> (r: Result<
    String,
    String,
>)
    ensures
        match r {
            Ok(out) => expand_of(v@, merged_map(pairs_view(vars@), pairs_view(host@))) == Some(
                out@,
            ) && (!v@.contains('$') ==> out@ == v@),
            Err(_) => expand_of(v@, merged_map(pairs_view(vars@), pairs_view(host@))) is None
                && v@.contains('$'),
        },
{
    let ctx = |name: &str| -> Result<Option<String>, ()> {
        match lookup_var(vars, host, name) {
            Some(val) => Ok(Some(val)),
            None => Err(()),
        }
    };
    match shellexpand::env_with_context(v, ctx) {
        Ok(out) => Ok(out.into_owned()),
        Err(e) => Err(e.var_name),
    }
}

// ---------------------------------------------------------------------
// Applying an environment block
// ---------------------------------------------------------------------

/// Why applying an environment block failed.
#[derive(Clone, Copy, Debug, PartialEq, Eq, Structural)]
pub enum EnvFailure {
    /// A line did not match the environment grammar.
    Line(ParseError),
    /// A variable reference did not resolve.
    Unresolved,
}

/// Apply a whole environment block to the variable environment: each
/// assignment's value is shell-expanded against the variables seen so
/// far (backed by the host snapshot) and bound, last write winning.
pub open spec fn env_fold(
    s: Seq<char>,
    pos: int,
    vars: Seq<(Seq<char>, Seq<char>)>,
    host: Seq<(Seq<char>, Seq<char>)>,
) -> Result<Seq<(Seq<char>, Seq<char>)>, EnvFailure>
    decreases s.len() - pos,
{
    if pos < 0 || pos >= s.len() {
        Ok(vars)
    } else {
        match spec_env_line(s, pos) {
            Err(e) => Err(EnvFailure::Line(e)),
            Ok((kv, next)) => if !(pos < next <= s.len()) {
                Err(
                    EnvFailure::Line(
                        ParseError { pos: pos as usize, kind: ParseErrorKind::MalformedEnvLine },
                    ),
                )
            } else {
                match kv {
                    None => env_fold(s, next, vars, host),
                    Some((ksp, vsp)) => match expand_of(vsp.text(s), merged_map(vars, host)) {
                        None => Err(EnvFailure::Unresolved),
                        Some(val) => env_fold(s, next, upsert(vars, ksp.text(s), val), host),
                    },
                }
            },
        }
    }
}

} // verus!

verus! {

// ---------------------------------------------------------------------
// Output materialization
// ---------------------------------------------------------------------

/// A newline.
pub open spec fn nl_seq() -> Seq<char> {
    seq!['\n']
}

/// A three-backtick fence.
pub open spec fn fence3() -> Seq<char> {
    seq!['`', '`', '`']
}

/// A newline, as text.
pub fn nl_str() -> (r: &'static str)
    ensures
        r@ == nl_seq(),
{
    proof {
        reveal_strlit("\n");
        assert("\n"@ =~= nl_seq());
    }
    "\n"
}

/// A three-backtick fence, as text.
pub fn fence3_str() -> (r: &'static str)
    ensures
        r@ == fence3(),
{
    proof {
        reveal_strlit("```");
        assert("```"@ =~= fence3());
    }
    "```"
}

/// An acquired stream wrapped in the sentinel pair, preceded by a
/// blank line.
pub open spec fn render_markdown(data: Seq<char>) -> Seq<char> {
    nl_seq() + begin_marker() + nl_seq() + data + end_marker() + nl_seq()
}

/// An acquired stream wrapped in a fenced code block tagged `lang`,
/// itself inside the sentinel pair.
pub open spec fn render_code_block(lang: Seq<char>, data: Seq<char>) -> Seq<char> {
    nl_seq() + begin_marker() + nl_seq() + fence3() + lang + nl_seq() + data + fence3() + nl_seq()
        + end_marker() + nl_seq()
}

/// Append a sentinel-wrapped block holding `data` to `out`.
pub fn produce_fenced_block(out: &mut String, data: &str)
    ensures
        final(out)@ == old(out)@ + render_markdown(data@),
{
    out.append(nl_str());
    out.append(begin_marker_str());
    out.append(nl_str());
    out.append(data);
    out.append(end_marker_str());
    out.append(nl_str());
    proof {
        assert(out@ =~= old(out)@ + render_markdown(data@));
    }
}

/// Append a sentinel-wrapped fenced code block tagged `lang` holding
/// `data` to `out`.
pub fn produce_code_block(out: &mut String, lang: &str, data: &str)
    ensures
        final(out)@ == old(out)@ + render_code_block(lang@, data@),
{
    out.append(nl_str());
    out.append(begin_marker_str());
    out.append(nl_str());
    out.append(fence3_str());
    out.append(lang);
    out.append(nl_str());
    out.append(data);
    out.append(fence3_str());
    out.append(nl_str());
    out.append(end_marker_str());
    out.append(nl_str());
    proof {
        assert(out@ =~= old(out)@ + render_code_block(lang@, data@));
    }
}

// ---------------------------------------------------------------------
// Data acquisition
// ---------------------------------------------------------------------

/// The literal text of a raw data action: the data line, the data
/// block, or the line (newline-terminated) followed by the block.
pub open spec fn raw_data_text(s: Seq<char>, a: Action) -> Seq<char> {
    match (a.data_line, a.data) {
        (Some(dl), None) => dl.text(s) + nl_seq(),
        (Some(dl), Some(d)) => dl.text(s) + nl_seq() + d.text(s),
        (None, Some(d)) => d.text(s),
        (None, None) => Seq::empty(),
    }
}

/// The text of one span, copied out of the document.
pub fn span_str(doc: &str, n: usize, sp: Span) -> (r: String)
    requires
        n == doc@.len(),
        sp.start <= sp.end <= n,
    ensures
        r@ == sp.text(doc@),
{
    String::from_str(doc.substring_char(sp.start, sp.end))
}

/// Build the literal text of a raw data action.
pub fn build_raw_data(doc: &str, n: usize, a: &Action) -> (r: String)
    requires
        n == doc@.len(),
        action_wf(*a, n as int),
    ensures
        r@ == raw_data_text(doc@, *a),
{
    let mut out = String::new();
    match (a.data_line, a.data) {
        (Some(dl), None) => {
            out.append(doc.substring_char(dl.start, dl.end));
            out.append(nl_str());
        },
        (Some(dl), Some(d)) => {
            out.append(doc.substring_char(dl.start, dl.end));
            out.append(nl_str());
            out.append(doc.substring_char(d.start, d.end));
        },
        (None, Some(d)) => {
            out.append(doc.substring_char(d.start, d.end));
        },
        (None, None) => {},
    }
    proof {
        assert(out@ =~= raw_data_text(doc@, *a));
    }
    out
}

/// A line split of a data block: each line of the block names one
/// file.  A trailing carriage return is stripped from each line, and a
/// final newline ends the last line rather than opening an empty one.
pub open spec fn strip_cr(l: Seq<char>) -> Seq<char> {
    if l.len() > 0 && l[l.len() - 1] == '\r' {
        l.drop_last()
    } else {
        l
    }
}

/// The lines of `s` from `pos` on.
pub open spec fn split_lines_from(s: Seq<char>, pos: int) -> Seq<Seq<char>>
    decreases s.len() - pos,
{
    if pos < 0 || pos >= s.len() {
        Seq::empty()
    } else {
        match find_char(s, pos, '\n') {
            None => seq![strip_cr(s.subrange(pos, s.len() as int))],
            Some(m) => if pos <= m < s.len() {
                seq![strip_cr(s.subrange(pos, m))] + split_lines_from(s, m + 1)
            } else {
                seq![strip_cr(s.subrange(pos, s.len() as int))]
            },
        }
    }
}

/// Split a block into its lines.
pub fn split_lines(s: &str, n: usize) -> (r: Vec<String>)
    requires
        n == s@.len(),
    ensures
        strings_view(r@) == split_lines_from(s@, 0),
{
    let mut acc: Vec<String> = Vec::new();
    let mut pos: usize = 0;
    loop
        invariant
            n == s@.len(),
            pos <= n,
            split_lines_from(s@, 0) == strings_view(acc@) + split_lines_from(s@, pos as int),
        decreases n - pos,
    {
        if pos >= n {
            proof {
                assert(strings_view(acc@) + split_lines_from(s@, pos as int) =~= strings_view(
                    acc@,
                ));
            }
            return acc;
        }
        match find_char_x(s, n, pos, '\n') {
            Some(m) => {
                proof {
                    lemma_find_char(s@, pos as int, '\n');
                }
                let line_end = if m > pos && s.get_char(m - 1) == '\r' {
                    m - 1
                } else {
                    m
                };
                let ghost before = acc@;
                acc.push(String::from_str(s.substring_char(pos, line_end)));
                proof {
                    assert(s@.subrange(pos as int, m as int).len() == m - pos);
                    if m > pos && s@[m - 1] == '\r' {
                        assert(strip_cr(s@.subrange(pos as int, m as int)) =~= s@.subrange(
                            pos as int,
                            line_end as int,
                        ));
                    } else {
                        assert(strip_cr(s@.subrange(pos as int, m as int)) =~= s@.subrange(
                            pos as int,
                            line_end as int,
                        ));
                    }
                    assert(strings_view(acc@) =~= strings_view(before) + seq![
                        s@.subrange(pos as int, line_end as int),
                    ]);
                    assert((strings_view(before) + seq![
                        strip_cr(s@.subrange(pos as int, m as int)),
                    ]) + split_lines_from(s@, m + 1) =~= strings_view(before) + (seq![
                        strip_cr(s@.subrange(pos as int, m as int)),
                    ] + split_lines_from(s@, m + 1)));
                }
                pos = m + 1;
            },
            None => {
                let line_end = if n > pos && s.get_char(n - 1) == '\r' {
                    n - 1
                } else {
                    n
                };
                let ghost before = acc@;
                acc.push(String::from_str(s.substring_char(pos, line_end)));
                proof {
                    assert(strip_cr(s@.subrange(pos as int, n as int)) =~= s@.subrange(
                        pos as int,
                        line_end as int,
                    ));
                    assert(strings_view(acc@) =~= strings_view(before) + seq![
                        s@.subrange(pos as int, line_end as int),
                    ]);
                    assert((strings_view(before) + seq![
                        strip_cr(s@.subrange(pos as int, n as int)),
                    ]) + split_lines_from(s@, n as int) =~= strings_view(before) + seq![
                        strip_cr(s@.subrange(pos as int, n as int)),
                    ]);
                }
                pos = n;
            },
        }
    }
}

/// The file paths a read action names: the data line, then each line
/// of the data block.
pub open spec fn read_paths(s: Seq<char>, a: Action) -> Seq<Seq<char>> {
    (match a.data_line {
        Some(dl) => seq![dl.text(s)],
        None => Seq::empty(),
    }) + (match a.data {
        Some(d) => split_lines_from(d.text(s), 0),
        None => Seq::empty(),
    })
}

/// Build the file paths of a read action.
pub fn build_read_paths(doc: &str, n: usize, a: &Action) -> (r: Vec<String>)
    requires
        n == doc@.len(),
        action_wf(*a, n as int),
    ensures
        strings_view(r@) == read_paths(doc@, *a),
{
    let mut paths: Vec<String> = Vec::new();
    match a.data_line {
        Some(dl) => {
            paths.push(span_str(doc, n, dl));
        },
        None => {},
    }
    let ghost first = strings_view(paths@);
    match a.data {
        Some(d) => {
            let block = span_str(doc, n, d);
            let bn = block.as_str().unicode_len();
            let mut lines = split_lines(block.as_str(), bn);
            let ghost lv = strings_view(lines@);
            let mut i: usize = 0;
            while i < lines.len()
                invariant
                    strings_view(paths@) =~= first + lv.subrange(0, i as int),
                    i <= lines@.len(),
                    lv == strings_view(lines@),
                decreases lines@.len() - i,
            {
                let ghost before = strings_view(paths@);
                paths.push(lines[i].clone());
                proof {
                    assert(strings_view(paths@) =~= before + seq![lines@[i as int]@]);
                    assert(lv.subrange(0, i + 1) =~= lv.subrange(0, i as int) + seq![
                        lv[i as int],
                    ]);
                    assert(lv[i as int] == lines@[i as int]@);
                    assert(strings_view(paths@) =~= first + lv.subrange(0, i + 1));
                }
                i += 1;
            }
            proof {
                assert(lv.subrange(0, lv.len() as int) =~= lv);
                assert(strings_view(paths@) =~= read_paths(doc@, *a));
            }
        },
        None => {
            proof {
                assert(strings_view(paths@) =~= read_paths(doc@, *a));
            }
        },
    }
    paths
}

/// Concatenation of acquired streams, in order.
pub open spec fn concat_texts(v: Seq<Seq<char>>) -> Seq<char>
    decreases v.len(),
{
    if v.len() == 0 {
        Seq::empty()
    } else {
        v[0] + concat_texts(v.drop_first())
    }
}

/// Concatenate acquired streams in order.
pub fn concat_all(v: &Vec<String>) -> (r: String)
    ensures
        r@ == concat_texts(strings_view(v@)),
{
    let mut out = String::new();
    let mut i: usize = 0;
    proof {
        assert(strings_view(v@).subrange(0, v@.len() as int) =~= strings_view(v@));
    }
    while i < v.len()
        invariant
            i <= v@.len(),
            concat_texts(strings_view(v@)) =~= out@ + concat_texts(
                strings_view(v@).subrange(i as int, v@.len() as int),
            ),
        decreases v@.len() - i,
    {
        let ghost sv = strings_view(v@);
        proof {
            assert(sv.subrange(i as int, sv.len() as int).drop_first() =~= sv.subrange(
                i + 1,
                sv.len() as int,
            ));
            assert(sv.subrange(i as int, sv.len() as int)[0] == v@[i as int]@);
        }
        out.append(v[i].as_str());
        proof {
            assert(out@ + concat_texts(sv.subrange(i + 1, sv.len() as int)) =~= concat_texts(sv));
        }
        i += 1;
    }
    proof {
        assert(strings_view(v@).subrange(v@.len() as int, v@.len() as int) =~= Seq::<
            Seq<char>,
        >::empty());
    }
    out
}

} // verus!

verus! {

// ---------------------------------------------------------------------
// Engine errors
// ---------------------------------------------------------------------

/// A fatal failure of a run.
#[derive(Debug)]
pub enum EngineError {
    /// The document did not parse.
    Parse(ParseError),
    /// A line of an environment block did not parse.
    EnvLine(ParseError),
    /// A variable reference in an environment value did not resolve.
    Unresolved { var: String },
    /// A file named by a read action does not exist.
    MissingFile { path: String },
    /// A request was supplied or asked for out of turn.
    OutOfTurn,
}

/// Executable mirror of `upsert`: bind `k` to `v`, overwriting the
/// first binding of `k` or appending a new one.
pub fn upsert_var(vars: &mut Vec<(String, String)>, k: String, v: String)
    ensures
        pairs_view(final(vars)@) == upsert(pairs_view(old(vars)@), k@, v@),
{
    let ghost pv = pairs_view(vars@);
    let mut i: usize = 0;
    while i < vars.len()
        invariant
            vars@ == old(vars)@,
            pv == pairs_view(vars@),
            i <= vars@.len(),
            find_key(pv, 0, k@) == find_key(pv, i as int, k@),
        decreases vars@.len() - i,
    {
        proof {
            assert(pv[i as int] == (vars@[i as int].0@, vars@[i as int].1@));
        }
        if vars[i].0 == k {
            let _ = vars.remove(i);
            vars.insert(i, (k, v));
            proof {
                assert(pairs_view(vars@) =~= pv.update(i as int, (pv[i as int].0, v@)));
                assert(pv.update(i as int, (pv[i as int].0, v@)) =~= upsert(pv, pv[i as int].0, v@));
            }
            return ;
        }
        i += 1;
    }
    vars.push((k, v));
    proof {
        assert(pairs_view(vars@) =~= pv.push((k@, v@)));
    }
}

/// Parse an environment block and apply each assignment to the
/// variable environment, expanding values against the variables seen
/// so far, backed by the host snapshot.  Matches `env_fold`.
pub fn apply_env(
    vars: &mut Vec<(String, String)>,
    host: &Vec<(String, String)>,
    data: &str,
) -> (r: Result<(), EngineError>)
    ensures
        match env_fold(data@, 0, pairs_view(old(vars)@), pairs_view(host@)) {
            Ok(ps) => r is Ok && pairs_view(final(vars)@) == ps,
            Err(EnvFailure::Line(e)) => r matches Err(EngineError::EnvLine(e2)) && e2 == e,
            Err(EnvFailure::Unresolved) => r matches Err(EngineError::Unresolved { .. }),
        },
{
    let n = data.unicode_len();
    let mut pos: usize = 0;
    loop
        invariant
            n == data@.len(),
            env_fold(data@, 0, pairs_view(old(vars)@), pairs_view(host@)) == env_fold(
                data@,
                pos as int,
                pairs_view(vars@),
                pairs_view(host@),
            ),
        decreases n + 1 - pos,
    {
        if pos >= n {
            return Ok(());
        }
        match env_var_line(data, n, pos) {
            Err(e) => {
                return Err(EngineError::EnvLine(e));
            },
            Ok((kv, next)) => {
                if !(pos < next && next <= n) {
                    return Err(
                        EngineError::EnvLine(
                            ParseError { pos, kind: ParseErrorKind::MalformedEnvLine },
                        ),
                    );
                }
                match kv {
                    None => {
                        pos = next;
                    },
                    Some((ksp, vsp)) => {
                        proof {
                            crate::parser::lemma_env_line_wf(data@, pos as int);
                        }
                        let k_str = span_str(data, n, ksp);
                        let v_str = span_str(data, n, vsp);
                        match shell_expand(v_str.as_str(), vars, host) {
                            Err(name) => {
                                return Err(EngineError::Unresolved { var: name });
                            },
                            Ok(val) => {
                                upsert_var(vars, k_str, val);
                                pos = next;
                            },
                        }
                    },
                }
            },
        }
    }
}

} // verus!

verus! {

// ---------------------------------------------------------------------
// The outside work of a run: requests and replies
// ---------------------------------------------------------------------

/// Outside work the engine needs done for one action.  The caller
/// performs it and answers with a `DataReply`.
#[derive(Debug)]
pub enum DataRequest {
    /// Run `bash` in `workdir` with the run variables exported on top
    /// of the caller's environment: with `["-c", script]` when a
    /// script is given, and with `stdin` written to its standard input
    /// when given (closed straight away otherwise).  Standard error
    /// passes through; standard output, fully drained, is the result.
    RunCommand { script: Option<String>, stdin: Option<String>, env: Vec<(String, String)>, workdir: String },
    /// Read each named file.
    ReadFiles { paths: Vec<String> },
}

/// The caller's answer to a `DataRequest`.
#[derive(Debug)]
pub enum DataReply {
    /// The command ran, was drained, and exited zero: its standard
    /// output.
    CommandDone { stdout: String },
    /// The command could not be run, could not be drained, or exited
    /// non-zero: a description carrying its status.
    CommandFailed { status: String },
    /// Every file was read, contents in request order.
    FilesRead { contents: Vec<String> },
    /// A file could not be read.
    FileMissing { path: String },
}

/// The one-liner prefix an executed data line runs under.
pub open spec fn script_prefix() -> Seq<char> {
    "set -euo pipefail && "@
}

/// The text of a request.
pub enum ReqSpec {
    Run {
        script: Option<Seq<char>>,
        stdin: Option<Seq<char>>,
        env: Seq<(Seq<char>, Seq<char>)>,
        workdir: Seq<char>,
    },
    Read { paths: Seq<Seq<char>> },
}

/// The text of a `DataRequest`.
pub open spec fn req_view(r: DataRequest) -> ReqSpec {
    match r {
        DataRequest::RunCommand { script, stdin, env, workdir } => ReqSpec::Run {
            script: match script {
                Some(x) => Some(x@),
                None => None,
            },
            stdin: match stdin {
                Some(x) => Some(x@),
                None => None,
            },
            env: pairs_view(env@),
            workdir: workdir@,
        },
        DataRequest::ReadFiles { paths } => ReqSpec::Read { paths: strings_view(paths@) },
    }
}

/// The request an execute or read action gives rise to.
pub open spec fn action_request(
    s: Seq<char>,
    a: Action,
    env: Seq<(Seq<char>, Seq<char>)>,
    workdir: Seq<char>,
) -> ReqSpec {
    if a.command.in_type is Read {
        ReqSpec::Read { paths: read_paths(s, a) }
    } else {
        ReqSpec::Run {
            script: match a.data_line {
                Some(dl) => Some(script_prefix() + dl.text(s)),
                None => None,
            },
            stdin: match a.data {
                Some(d) => Some(d.text(s)),
                None => None,
            },
            env,
            workdir,
        }
    }
}

/// Copy a pair list.
fn clone_pairs(v: &Vec<(String, String)>) -> (r: Vec<(String, String)>)
    ensures
        r@ =~= v@,
{
    let mut r: Vec<(String, String)> = Vec::new();
    let mut i: usize = 0;
    while i < v.len()
        invariant
            i <= v@.len(),
            r@ =~= v@.subrange(0, i as int),
        decreases v@.len() - i,
    {
        r.push((v[i].0.clone(), v[i].1.clone()));
        proof {
            assert(r@ =~= v@.subrange(0, i + 1));
        }
        i += 1;
    }
    r
}

/// Build the request of an execute or read action.
fn build_request(
    doc: &str,
    n: usize,
    a: &Action,
    env: &Vec<(String, String)>,
    workdir: &String,
) -> (r: DataRequest)
    requires
        n == doc@.len(),
        action_wf(*a, n as int),
    ensures
        req_view(r) == action_request(doc@, *a, pairs_view(env@), workdir@),
{
    if let InType::Read = a.command.in_type {
        DataRequest::ReadFiles { paths: build_read_paths(doc, n, a) }
    } else {
        let script = match a.data_line {
            Some(dl) => {
                let mut sc = String::from_str("set -euo pipefail && ");
                sc.append(doc.substring_char(dl.start, dl.end));
                Some(sc)
            },
            None => None,
        };
        let stdin = match a.data {
            Some(d) => Some(span_str(doc, n, d)),
            None => None,
        };
        DataRequest::RunCommand {
            script,
            stdin,
            env: clone_pairs(env),
            workdir: workdir.clone(),
        }
    }
}

// ---------------------------------------------------------------------
// The engine itself
// ---------------------------------------------------------------------

/// Materialize one acquired stream: wrap it into the output, or apply
/// it to the variable environment.
pub open spec fn materialize_spec(
    s: Seq<char>,
    ot: OutType,
    data: Seq<char>,
    out: Seq<char>,
    vars: Seq<(Seq<char>, Seq<char>)>,
    host: Seq<(Seq<char>, Seq<char>)>,
) -> Result<(Seq<char>, Seq<(Seq<char>, Seq<char>)>), EnvFailure> {
    match ot {
        OutType::Markdown => Ok((out + render_markdown(data), vars)),
        OutType::CodeBlock(l) => Ok((out + render_code_block(l.text(s), data), vars)),
        OutType::Environment => match env_fold(data, 0, vars, host) {
            Ok(vs) => Ok((out, vs)),
            Err(f) => Err(f),
        },
    }
}

/// Executable mirror of `materialize_spec`.
fn materialize(
    doc: &str,
    n: usize,
    ot: OutType,
    data: &str,
    out: &mut String,
    vars: &mut Vec<(String, String)>,
    host: &Vec<(String, String)>,
) -> (r: Result<(), EngineError>)
    requires
        n == doc@.len(),
        match ot {
            OutType::CodeBlock(l) => l.start <= l.end <= n,
            _ => true,
        },
    ensures
        match materialize_spec(
            doc@,
            ot,
            data@,
            old(out)@,
            pairs_view(old(vars)@),
            pairs_view(host@),
        ) {
            Ok((o, vs)) => r is Ok && final(out)@ == o && pairs_view(final(vars)@) == vs,
            Err(EnvFailure::Line(e)) => r matches Err(EngineError::EnvLine(e2)) && e2 == e,
            Err(EnvFailure::Unresolved) => r matches Err(EngineError::Unresolved { .. }),
        },
{
    match ot {
        OutType::Markdown => {
            produce_fenced_block(out, data);
            Ok(())
        },
        OutType::CodeBlock(l) => {
            let lang = span_str(doc, n, l);
            produce_code_block(out, lang.as_str(), data);
            Ok(())
        },
        OutType::Environment => apply_env(vars, host, data),
    }
}

/// The state a run can be in after driving as far as possible without
/// outside work.
pub enum DriveRes {
    /// A fatal environment failure.
    Failed(EnvFailure),
    /// Output and variables so far; the action at the given piece
    /// index awaits its acquired data.
    Wait(Seq<char>, Seq<(Seq<char>, Seq<char>)>, int),
    /// Output and variables of the finished run.
    Done(Seq<char>, Seq<(Seq<char>, Seq<char>)>),
}

/// Drive the piece sequence from `i`: emit raw lines and action
/// sources, discard generated blocks, materialize raw data actions,
/// and stop at the first action that needs outside data.
pub open spec fn drive(
    s: Seq<char>,
    ps: Seq<MdPiece>,
    i: int,
    out: Seq<char>,
    vars: Seq<(Seq<char>, Seq<char>)>,
    host: Seq<(Seq<char>, Seq<char>)>,
) -> DriveRes
    decreases ps.len() - i,
{
    if i < 0 || i >= ps.len() {
        DriveRes::Done(out, vars)
    } else {
        match ps[i] {
            MdPiece::FencedBlock(_) => drive(s, ps, i + 1, out, vars, host),
            MdPiece::RawLine(sp) => drive(s, ps, i + 1, out + sp.text(s), vars, host),
            MdPiece::Action(sp, a) => {
                let out2 = out + sp.text(s);
                if a.command.in_type is RawData {
                    match materialize_spec(s, a.command.out_type, raw_data_text(s, a), out2, vars, host) {
                        Ok((o, vs)) => drive(s, ps, i + 1, o, vs, host),
                        Err(f) => DriveRes::Failed(f),
                    }
                } else {
                    DriveRes::Wait(out2, vars, i)
                }
            },
        }
    }
}

/// The execution engine of one document run: it owns the variable
/// environment and the output buffer, and hands every piece of
/// outside work to its caller as a `DataRequest`.
#[derive(Debug)]
pub struct TheProcessor {
    /// The run-scoped variable environment, insertion ordered.
    pub variables: Vec<(String, String)>,
    /// Snapshot of the host environment, for expansion fallback.
    pub host_env: Vec<(String, String)>,
    /// The directory commands run under.
    pub workdir: String,
    /// The output buffer.
    pub out: String,
    /// The document of the current run.
    pub doc: String,
    /// Its pieces.
    pub pieces: Vec<MdPiece>,
    /// The next piece to process.
    pub next_piece: usize,
    /// The action whose acquired data the engine is waiting for.
    pub pending: Option<Action>,
    /// Descriptions of the commands that failed, in document order.
    pub failures: Vec<String>,
}

impl TheProcessor {
    /// Pieces and pending action fit the document.
    pub open spec fn inv(&self) -> bool {
        &&& self.next_piece <= self.pieces@.len()
        &&& forall|j: int|
            0 <= j < self.pieces@.len() ==> piece_wf(
                #[trigger] self.pieces@[j],
                self.doc@.len() as int,
            )
        &&& match self.pending {
            Some(a) => action_wf(a, self.doc@.len() as int),
            None => true,
        }
    }

    /// A fresh engine: empty variable environment, empty output.
    pub fn new(workdir: String, host_env: Vec<(String, String)>) -> (r: Self)
        ensures
            r.inv(),
            r.variables@.len() == 0,
            r.host_env == host_env,
            r.workdir == workdir,
            r.out@.len() == 0,
            r.pieces@.len() == 0,
            r.next_piece == 0,
            r.pending is None,
            r.failures@.len() == 0,
    {
        TheProcessor {
            variables: Vec::new(),
            host_env,
            workdir,
            out: String::new(),
            doc: String::new(),
            pieces: Vec::new(),
            next_piece: 0,
            pending: None,
            failures: Vec::new(),
        }
    }

    /// Begin a run: tokenize the document.  A parse error aborts
    /// before any output; otherwise the engine is ready to be driven.
    pub fn start(&mut self, input: String) -> (r: Result<(), ParseError>)
        ensures
            final(self).inv(),
            final(self).host_env == old(self).host_env,
            final(self).workdir == old(self).workdir,
            final(self).failures@.len() == 0,
            final(self).variables@.len() == 0,
            final(self).out@.len() == 0,
            final(self).next_piece == 0,
            final(self).pending is None,
            match spec_tokenize(input@, 0) {
                Ok(ps) => r is Ok && final(self).doc@ == input@ && final(self).pieces@ == ps,
                Err(e) => r == Err::<(), ParseError>(e) && final(self).pieces@.len() == 0,
            },
    {
        self.variables = Vec::new();
        self.out = String::new();
        self.failures = Vec::new();
        self.next_piece = 0;
        self.pending = None;
        self.pieces = Vec::new();
        let n = input.as_str().unicode_len();
        match tokenize(input.as_str()) {
            Err(e) => {
                self.doc = String::new();
                Err(e)
            },
            Ok(ps) => {
                proof {
                    lemma_tokenize_wf(input@, 0);
                }
                self.doc = input;
                self.pieces = ps;
                Ok(())
            },
        }
    }

    /// Drive the run as far as it goes without outside work: the next
    /// request to perform, or `None` when the run is complete.
    pub fn next_request(&mut self) -> (r: Result<Option<DataRequest>, EngineError>)
        requires
            old(self).inv(),
        ensures
            final(self).inv(),
            final(self).doc == old(self).doc,
            final(self).pieces == old(self).pieces,
            final(self).workdir == old(self).workdir,
            final(self).host_env == old(self).host_env,
            final(self).failures == old(self).failures,
            match old(self).pending {
                Some(_) => r matches Err(EngineError::OutOfTurn) && *final(self) == *old(self),
                None => match drive(
                    old(self).doc@,
                    old(self).pieces@,
                    old(self).next_piece as int,
                    old(self).out@,
                    pairs_view(old(self).variables@),
                    pairs_view(old(self).host_env@),
                ) {
                    DriveRes::Done(o, vs) => r matches Ok(req) && req is None && final(self).out@ == o
                        && pairs_view(final(self).variables@) == vs && final(self).pending is None
                        && final(self).next_piece == final(self).pieces@.len(),
                    DriveRes::Wait(o, vs, i) => r matches Ok(req) && req matches Some(q)
                        && req_view(q) == action_request(
                        final(self).doc@,
                        final(self).pieces@[i]->Action_1,
                        vs,
                        final(self).workdir@,
                    ) && final(self).out@ == o && pairs_view(final(self).variables@) == vs && final(self).pending
                        == Some(final(self).pieces@[i]->Action_1) && final(self).next_piece == i + 1,
                    DriveRes::Failed(EnvFailure::Line(e)) => r matches Err(
                        EngineError::EnvLine(e2),
                    ) && e2 == e,
                    DriveRes::Failed(EnvFailure::Unresolved) => r matches Err(
                        EngineError::Unresolved { .. },
                    ),
                },
            },
    {
        if self.pending.is_some() {
            return Err(EngineError::OutOfTurn);
        }
        loop
            invariant
                self.inv(),
                old(self).pending is None,
                self.pending is None,
                self.doc == old(self).doc,
                self.pieces == old(self).pieces,
                self.workdir == old(self).workdir,
                self.host_env == old(self).host_env,
                self.failures == old(self).failures,
                drive(
                    old(self).doc@,
                    old(self).pieces@,
                    old(self).next_piece as int,
                    old(self).out@,
                    pairs_view(old(self).variables@),
                    pairs_view(old(self).host_env@),
                ) == drive(
                    self.doc@,
                    self.pieces@,
                    self.next_piece as int,
                    self.out@,
                    pairs_view(self.variables@),
                    pairs_view(self.host_env@),
                ),
            decreases self.pieces@.len() - self.next_piece,
        {
            if self.next_piece >= self.pieces.len() {
                proof {
                    assert(drive(
                        self.doc@,
                        self.pieces@,
                        self.next_piece as int,
                        self.out@,
                        pairs_view(self.variables@),
                        pairs_view(self.host_env@),
                    ) == DriveRes::Done(self.out@, pairs_view(self.variables@)));
                }
                return Ok(None);
            }
            let n = self.doc.as_str().unicode_len();
            let p = self.pieces[self.next_piece];
            match p {
                MdPiece::FencedBlock(_) => {
                    self.next_piece += 1;
                },
                MdPiece::RawLine(sp) => {
                    self.out.append(self.doc.as_str().substring_char(sp.start, sp.end));
                    self.next_piece += 1;
                },
                MdPiece::Action(sp, a) => {
                    self.out.append(self.doc.as_str().substring_char(sp.start, sp.end));
                    if let InType::RawData = a.command.in_type {
                        let data = build_raw_data(self.doc.as_str(), n, &a);
                        match materialize(
                            self.doc.as_str(),
                            n,
                            a.command.out_type,
                            data.as_str(),
                            &mut self.out,
                            &mut self.variables,
                            &self.host_env,
                        ) {
                            Err(e) => {
                                return Err(e);
                            },
                            Ok(()) => {
                                self.next_piece += 1;
                            },
                        }
                    } else {
                        let req = build_request(
                            self.doc.as_str(),
                            n,
                            &a,
                            &self.variables,
                            &self.workdir,
                        );
                        self.pending = Some(a);
                        self.next_piece += 1;
                        return Ok(Some(req));
                    }
                },
            }
        }
    }

    /// Parse an acquired stream as environment variable assignments
    /// and apply them to the run's variable environment: no visible
    /// output, only the side effect on the variables.
    pub fn env_var_list(&mut self, data: &str) -> (r: Result<(), EngineError>)
        ensures
            final(self).doc == old(self).doc,
            final(self).pieces == old(self).pieces,
            final(self).out == old(self).out,
            final(self).host_env == old(self).host_env,
            match env_fold(
                data@,
                0,
                pairs_view(old(self).variables@),
                pairs_view(old(self).host_env@),
            ) {
                Ok(ps) => r is Ok && pairs_view(final(self).variables@) == ps,
                Err(EnvFailure::Line(e)) => r matches Err(EngineError::EnvLine(e2)) && e2 == e,
                Err(EnvFailure::Unresolved) => r matches Err(EngineError::Unresolved { .. }),
            },
    {
        apply_env(&mut self.variables, &self.host_env, data)
    }

    /// Answer the pending request: materialize the acquired data, or
    /// record the command failure and move on.
    pub fn supply(&mut self, reply: DataReply) -> (r: Result<(), EngineError>)
        requires
            old(self).inv(),
        ensures
            final(self).inv(),
            final(self).doc == old(self).doc,
            final(self).pieces == old(self).pieces,
            final(self).workdir == old(self).workdir,
            final(self).host_env == old(self).host_env,
            final(self).next_piece == old(self).next_piece,
            match old(self).pending {
                None => r matches Err(EngineError::OutOfTurn) && *final(self) == *old(self),
                Some(a) => match reply {
                    DataReply::CommandDone { stdout } => if a.command.in_type is Execute {
                        final(self).pending is None && final(self).failures == old(self).failures && match
                            materialize_spec(
                            final(self).doc@,
                            a.command.out_type,
                            stdout@,
                            old(self).out@,
                            pairs_view(old(self).variables@),
                            pairs_view(final(self).host_env@),
                        ) {
                            Ok((o, vs)) => r is Ok && final(self).out@ == o && pairs_view(
                                final(self).variables@,
                            ) == vs,
                            Err(EnvFailure::Line(e)) => r matches Err(EngineError::EnvLine(e2))
                                && e2 == e,
                            Err(EnvFailure::Unresolved) => r matches Err(
                                EngineError::Unresolved { .. },
                            ),
                        }
                    } else {
                        r matches Err(EngineError::OutOfTurn) && *final(self) == *old(self)
                    },
                    DataReply::CommandFailed { status } => if a.command.in_type is Execute {
                        r is Ok && final(self).pending is None && final(self).out == old(self).out
                            && final(self).variables == old(self).variables && final(self).failures@ == old(
                            self,
                        ).failures@.push(status)
                    } else {
                        r matches Err(EngineError::OutOfTurn) && *final(self) == *old(self)
                    },
                    DataReply::FilesRead { contents } => if a.command.in_type is Read {
                        final(self).pending is None && final(self).failures == old(self).failures && match
                            materialize_spec(
                            final(self).doc@,
                            a.command.out_type,
                            concat_texts(strings_view(contents@)),
                            old(self).out@,
                            pairs_view(old(self).variables@),
                            pairs_view(final(self).host_env@),
                        ) {
                            Ok((o, vs)) => r is Ok && final(self).out@ == o && pairs_view(
                                final(self).variables@,
                            ) == vs,
                            Err(EnvFailure::Line(e)) => r matches Err(EngineError::EnvLine(e2))
                                && e2 == e,
                            Err(EnvFailure::Unresolved) => r matches Err(
                                EngineError::Unresolved { .. },
                            ),
                        }
                    } else {
                        r matches Err(EngineError::OutOfTurn) && *final(self) == *old(self)
                    },
                    DataReply::FileMissing { path } => if a.command.in_type is Read {
                        r matches Err(EngineError::MissingFile { path: p2 }) && p2 == path
                            && final(self).pending is None && final(self).out == old(self).out && final(self).variables
                            == old(self).variables && final(self).failures == old(self).failures
                    } else {
                        r matches Err(EngineError::OutOfTurn) && *final(self) == *old(self)
                    },
                },
            },
    {
        let a = match &self.pending {
            None => {
                return Err(EngineError::OutOfTurn);
            },
            Some(a) => *a,
        };
        let n = self.doc.as_str().unicode_len();
        match reply {
            DataReply::CommandDone { stdout } => {
                if let InType::Execute = a.command.in_type {
                    self.pending = None;
                    materialize(
                        self.doc.as_str(),
                        n,
                        a.command.out_type,
                        stdout.as_str(),
                        &mut self.out,
                        &mut self.variables,
                        &self.host_env,
                    )
                } else {
                    Err(EngineError::OutOfTurn)
                }
            },
            DataReply::CommandFailed { status } => {
                if let InType::Execute = a.command.in_type {
                    self.pending = None;
                    self.failures.push(status);
                    Ok(())
                } else {
                    Err(EngineError::OutOfTurn)
                }
            },
            DataReply::FilesRead { contents } => {
                if let InType::Read = a.command.in_type {
                    self.pending = None;
                    let data = concat_all(&contents);
                    materialize(
                        self.doc.as_str(),
                        n,
                        a.command.out_type,
                        data.as_str(),
                        &mut self.out,
                        &mut self.variables,
                        &self.host_env,
                    )
                } else {
                    Err(EngineError::OutOfTurn)
                }
            },
            DataReply::FileMissing { path } => {
                if let InType::Read = a.command.in_type {
                    self.pending = None;
                    Err(EngineError::MissingFile { path })
                } else {
                    Err(EngineError::OutOfTurn)
                }
            },
        }
    }
}

} // verus!
