//! Grammar / tokenizer: converts raw document text into an ordered
//! sequence of typed pieces, consuming every character of the input.
//!
//! Each grammar rule exists twice: as a total specification function over
//! `Seq<char>`, and as an executable function proved to return exactly
//! what the specification says.
use vstd::prelude::*;

use crate::{begin_marker, end_marker, begin_marker_str, end_marker_str, Span, MdPiece};
use crate::executor::{Action, Command, InType, OutType};

verus! {

/// Why a parse failed.
#[derive(Clone, Copy, Debug, PartialEq, Eq, Structural)]
pub enum ParseErrorKind {
    /// A begin sentinel with no matching end sentinel.
    UnterminatedSentinelBlock,
    /// Text other than whitespace after an end sentinel on its line.
    BadSentinelClose,
    /// A begin sentinel where no generated block can start.
    MisplacedSentinel,
    /// `<!--` with no closing `-->` anywhere after it.
    UnterminatedComment,
    /// A fenced code block with no closing fence line.
    UnterminatedCodeBlock,
    /// Text other than a newline directly after a closing fence.
    BadCodeBlockClose,
    /// A link annotation whose tail is not `](path)` ending the line.
    MalformedLink,
    /// Text at the end of the document not terminated by a newline.
    ResidualText,
    /// A line of an environment block that is not a `KEY=VALUE`
    /// assignment, a `#` comment, or blank.
    MalformedEnvLine,
}

/// A positioned parse failure: the grammar rule that failed and the
/// character position where it did.
#[derive(Clone, Copy, Debug, PartialEq, Eq, Structural)]
pub struct ParseError {
    pub pos: usize,
    pub kind: ParseErrorKind,
}

impl ParseError {
    /// A short description of the failed grammar rule.
    pub fn message(&self) -> &'static str {
        match self.kind {
            ParseErrorKind::UnterminatedSentinelBlock => "generated block is missing its end marker",
            ParseErrorKind::BadSentinelClose => "unexpected text after an end marker",
            ParseErrorKind::MisplacedSentinel => "unexpected begin marker",
            ParseErrorKind::UnterminatedComment => "comment is missing its closing delimiter",
            ParseErrorKind::UnterminatedCodeBlock => "code block is missing its closing fence",
            ParseErrorKind::BadCodeBlockClose => "unexpected text after a closing fence",
            ParseErrorKind::MalformedLink => "malformed link annotation",
            ParseErrorKind::ResidualText => "text at end of input is not terminated by a newline",
            ParseErrorKind::MalformedEnvLine => "malformed environment variable line",
        }
    }
}

// ---------------------------------------------------------------------
// Character classes
// ---------------------------------------------------------------------

/// Blank characters inside a line.
pub open spec fn is_space(c: char) -> bool {
    c == ' ' || c == '\t'
}

/// Whitespace, newlines included.
pub open spec fn is_multispace(c: char) -> bool {
    c == ' ' || c == '\t' || c == '\r' || c == '\n'
}

/// Characters a file path or fence language tag may consist of.
pub open spec fn is_filepath_char(c: char) -> bool {
    ('a' <= c && c <= 'z') || ('A' <= c && c <= 'Z') || ('0' <= c && c <= '9') || c == '/'
        || c == '.' || c == '_' || c == '-'
}

/// Characters a variable name may consist of.
pub open spec fn is_name_char(c: char) -> bool {
    ('a' <= c && c <= 'z') || ('A' <= c && c <= 'Z') || ('0' <= c && c <= '9') || c == '_'
}

/// Executable mirror of `is_space`.
pub fn is_space_x(c: char) -> (b: bool)
    ensures
        b == is_space(c),
{
    c == ' ' || c == '\t'
}

/// Executable mirror of `is_multispace`.
pub fn is_multispace_x(c: char) -> (b: bool)
    ensures
        b == is_multispace(c),
{
    c == ' ' || c == '\t' || c == '\r' || c == '\n'
}

/// Executable mirror of `is_filepath_char`.
pub fn is_filepath_char_x(c: char) -> (b: bool)
    ensures
        b == is_filepath_char(c),
{
    ('a' <= c && c <= 'z') || ('A' <= c && c <= 'Z') || ('0' <= c && c <= '9') || c == '/'
        || c == '.' || c == '_' || c == '-'
}

/// Executable mirror of `is_name_char`.
pub fn is_name_char_x(c: char) -> (b: bool)
    ensures
        b == is_name_char(c),
{
    ('a' <= c && c <= 'z') || ('A' <= c && c <= 'Z') || ('0' <= c && c <= '9') || c == '_'
}

// ---------------------------------------------------------------------
// Scanning primitives
// ---------------------------------------------------------------------

/// The literal `lit` occurs in `s` at position `pos`.
pub open spec fn lit_at(s: Seq<char>, pos: int, lit: Seq<char>) -> bool {
    &&& 0 <= pos
    &&& pos + lit.len() <= s.len()
    &&& forall|k: int| 0 <= k < lit.len() ==> s[pos + k] == lit[k]
}

/// First position `i >= pos` where `lit` occurs in `s`.
pub open spec fn find_lit(s: Seq<char>, pos: int, lit: Seq<char>) -> Option<int>
    decreases s.len() - pos,
{
    if pos < 0 || pos + lit.len() > s.len() {
        None
    } else if lit_at(s, pos, lit) {
        Some(pos)
    } else {
        find_lit(s, pos + 1, lit)
    }
}

/// First position `i >= pos` holding the character `c`.
pub open spec fn find_char(s: Seq<char>, pos: int, c: char) -> Option<int>
    decreases s.len() - pos,
{
    if pos < 0 || pos >= s.len() {
        None
    } else if s[pos] == c {
        Some(pos)
    } else {
        find_char(s, pos + 1, c)
    }
}

/// First position `i >= pos` whose character is not a blank.
pub open spec fn skip_spaces(s: Seq<char>, pos: int) -> int
    decreases s.len() - pos,
{
    if pos < 0 || pos >= s.len() || !is_space(s[pos]) {
        pos
    } else {
        skip_spaces(s, pos + 1)
    }
}

/// First position `i >= pos` whose character is not whitespace.
pub open spec fn skip_multispace(s: Seq<char>, pos: int) -> int
    decreases s.len() - pos,
{
    if pos < 0 || pos >= s.len() || !is_multispace(s[pos]) {
        pos
    } else {
        skip_multispace(s, pos + 1)
    }
}

/// First position `i >= pos` whose character is not `c`.
pub open spec fn skip_run(s: Seq<char>, pos: int, c: char) -> int
    decreases s.len() - pos,
{
    if pos < 0 || pos >= s.len() || s[pos] != c {
        pos
    } else {
        skip_run(s, pos + 1, c)
    }
}

/// First position `i >= pos`, bounded by `end`, whose character is not a
/// file path character.
pub open spec fn skip_filepath_chars(s: Seq<char>, pos: int, end: int) -> int
    decreases s.len() - pos,
{
    if pos < 0 || pos >= s.len() || pos >= end || !is_filepath_char(s[pos]) {
        pos
    } else {
        skip_filepath_chars(s, pos + 1, end)
    }
}

/// Results of `find_lit` lie between `pos` and the end of `s`, and mark a
/// real occurrence.
pub proof fn lemma_find_lit(s: Seq<char>, pos: int, lit: Seq<char>)
    ensures
        match find_lit(s, pos, lit) {
            Some(i) => pos <= i && 0 <= i && i + lit.len() <= s.len() && lit_at(s, i, lit),
            None => true,
        },
    decreases s.len() - pos,
{
    if pos < 0 || pos + lit.len() > s.len() {
    } else if lit_at(s, pos, lit) {
    } else {
        lemma_find_lit(s, pos + 1, lit);
    }
}

/// Results of `find_char` lie between `pos` and the end of `s`, and mark
/// an occurrence of `c`.
pub proof fn lemma_find_char(s: Seq<char>, pos: int, c: char)
    ensures
        match find_char(s, pos, c) {
            Some(i) => pos <= i < s.len() && s[i] == c,
            None => true,
        },
    decreases s.len() - pos,
{
    if pos < 0 || pos >= s.len() {
    } else if s[pos] == c {
    } else {
        lemma_find_char(s, pos + 1, c);
    }
}

/// `skip_spaces` stays between `pos` and the end of `s`.
pub proof fn lemma_skip_spaces(s: Seq<char>, pos: int)
    requires
        0 <= pos <= s.len(),
    ensures
        pos <= skip_spaces(s, pos) <= s.len(),
    decreases s.len() - pos,
{
    if pos < 0 || pos >= s.len() || !is_space(s[pos]) {
    } else {
        lemma_skip_spaces(s, pos + 1);
    }
}

/// `skip_multispace` stays between `pos` and the end of `s`.
pub proof fn lemma_skip_multispace(s: Seq<char>, pos: int)
    requires
        0 <= pos <= s.len(),
    ensures
        pos <= skip_multispace(s, pos) <= s.len(),
    decreases s.len() - pos,
{
    if pos < 0 || pos >= s.len() || !is_multispace(s[pos]) {
    } else {
        lemma_skip_multispace(s, pos + 1);
    }
}

/// `skip_run` stays between `pos` and the end of `s`.
pub proof fn lemma_skip_run(s: Seq<char>, pos: int, c: char)
    requires
        0 <= pos <= s.len(),
    ensures
        pos <= skip_run(s, pos, c) <= s.len(),
    decreases s.len() - pos,
{
    if pos < 0 || pos >= s.len() || s[pos] != c {
    } else {
        lemma_skip_run(s, pos + 1, c);
    }
}

/// `skip_filepath_chars` stays between `pos` and `end`.
pub proof fn lemma_skip_filepath_chars(s: Seq<char>, pos: int, end: int)
    requires
        0 <= pos <= s.len(),
        pos <= end,
    ensures
        pos <= skip_filepath_chars(s, pos, end) <= s.len(),
        skip_filepath_chars(s, pos, end) <= end || pos >= end,
    decreases s.len() - pos,
{
    if pos < 0 || pos >= s.len() || pos >= end || !is_filepath_char(s[pos]) {
    } else {
        lemma_skip_filepath_chars(s, pos + 1, end);
    }
}

/// Executable mirror of `lit_at`.
pub fn lit_at_x(s: &str, n: usize, pos: usize, lit: &str, m: usize) -> (b: bool)
    requires
        n == s@.len(),
        m == lit@.len(),
    ensures
        b == lit_at(s@, pos as int, lit@),
{
    if pos > n || m > n - pos {
        return false;
    }
    let mut k: usize = 0;
    while k < m
        invariant
            n == s@.len(),
            m == lit@.len(),
            pos + m <= n,
            0 <= k <= m,
            forall|j: int| 0 <= j < k ==> s@[pos + j] == lit@[j],
        decreases m - k,
    {
        if s.get_char(pos + k) != lit.get_char(k) {
            assert(s@[pos + k] != lit@[k as int]);
            return false;
        }
        k += 1;
    }
    true
}

/// Executable mirror of `find_lit`.
pub fn find_lit_x(s: &str, n: usize, pos: usize, lit: &str, m: usize) -> (r: Option<usize>)
    requires
        n == s@.len(),
        m == lit@.len(),
    ensures
        match r {
            Some(i) => find_lit(s@, pos as int, lit@) == Some(i as int),
            None => find_lit(s@, pos as int, lit@) is None,
        },
{
    let mut i: usize = pos;
    loop
        invariant
            n == s@.len(),
            m == lit@.len(),
            pos <= i,
            find_lit(s@, pos as int, lit@) == find_lit(s@, i as int, lit@),
        decreases n + 1 - i,
    {
        if i > n || m > n - i {
            return None;
        }
        if lit_at_x(s, n, i, lit, m) {
            return Some(i);
        }
        i += 1;
    }
}

/// Executable mirror of `find_char`.
pub fn find_char_x(s: &str, n: usize, pos: usize, c: char) -> (r: Option<usize>)
    requires
        n == s@.len(),
    ensures
        match r {
            Some(i) => find_char(s@, pos as int, c) == Some(i as int),
            None => find_char(s@, pos as int, c) is None,
        },
{
    let mut i: usize = pos;
    loop
        invariant
            n == s@.len(),
            pos <= i,
            find_char(s@, pos as int, c) == find_char(s@, i as int, c),
        decreases n + 1 - i,
    {
        if i >= n {
            return None;
        }
        if s.get_char(i) == c {
            return Some(i);
        }
        i += 1;
    }
}

/// Executable mirror of `skip_spaces`.
pub fn skip_spaces_x(s: &str, n: usize, pos: usize) -> (r: usize)
    requires
        n == s@.len(),
    ensures
        r as int == skip_spaces(s@, pos as int),
{
    let mut i: usize = pos;
    loop
        invariant
            n == s@.len(),
            pos <= i,
            skip_spaces(s@, pos as int) == skip_spaces(s@, i as int),
        decreases n + 1 - i,
    {
        if i >= n {
            return i;
        }
        if !is_space_x(s.get_char(i)) {
            return i;
        }
        i += 1;
    }
}

/// Executable mirror of `skip_multispace`.
pub fn skip_multispace_x(s: &str, n: usize, pos: usize) -> (r: usize)
    requires
        n == s@.len(),
    ensures
        r as int == skip_multispace(s@, pos as int),
{
    let mut i: usize = pos;
    loop
        invariant
            n == s@.len(),
            pos <= i,
            skip_multispace(s@, pos as int) == skip_multispace(s@, i as int),
        decreases n + 1 - i,
    {
        if i >= n {
            return i;
        }
        if !is_multispace_x(s.get_char(i)) {
            return i;
        }
        i += 1;
    }
}

/// Executable mirror of `skip_run`.
pub fn skip_run_x(s: &str, n: usize, pos: usize, c: char) -> (r: usize)
    requires
        n == s@.len(),
    ensures
        r as int == skip_run(s@, pos as int, c),
{
    let mut i: usize = pos;
    loop
        invariant
            n == s@.len(),
            pos <= i,
            skip_run(s@, pos as int, c) == skip_run(s@, i as int, c),
        decreases n + 1 - i,
    {
        if i >= n {
            return i;
        }
        if s.get_char(i) != c {
            return i;
        }
        i += 1;
    }
}

/// Executable mirror of `skip_filepath_chars`.
pub fn skip_filepath_chars_x(s: &str, n: usize, pos: usize, end: usize) -> (r: usize)
    requires
        n == s@.len(),
    ensures
        r as int == skip_filepath_chars(s@, pos as int, end as int),
{
    let mut i: usize = pos;
    loop
        invariant
            n == s@.len(),
            pos <= i,
            skip_filepath_chars(s@, pos as int, end as int) == skip_filepath_chars(
                s@,
                i as int,
                end as int,
            ),
        decreases n + 1 - i,
    {
        if i >= n || i >= end {
            return i;
        }
        if !is_filepath_char_x(s.get_char(i)) {
            return i;
        }
        i += 1;
    }
}

} // verus!

verus! {

// ---------------------------------------------------------------------
// More scanning primitives
// ---------------------------------------------------------------------

/// The characters `s[a..b]` also occur at position `pos` of `s`.
pub open spec fn span_at(s: Seq<char>, pos: int, a: int, b: int) -> bool {
    &&& 0 <= pos
    &&& 0 <= a <= b <= s.len()
    &&& pos + (b - a) <= s.len()
    &&& forall|k: int| 0 <= k < b - a ==> #[trigger] s[pos + k] == s[a + k]
}

/// First position `m >= pos` where a newline is directly followed by the
/// fence string `s[a..b]`.
pub open spec fn find_closer(s: Seq<char>, pos: int, a: int, b: int) -> Option<int>
    decreases s.len() - pos,
{
    if pos < 0 || pos >= s.len() {
        None
    } else if s[pos] == '\n' && span_at(s, pos + 1, a, b) {
        Some(pos)
    } else {
        find_closer(s, pos + 1, a, b)
    }
}

/// Results of `find_closer` lie between `pos` and the end of `s`.
pub proof fn lemma_find_closer(s: Seq<char>, pos: int, a: int, b: int)
    ensures
        match find_closer(s, pos, a, b) {
            Some(m) => pos <= m < s.len() && s[m] == '\n' && span_at(s, m + 1, a, b),
            None => true,
        },
    decreases s.len() - pos,
{
    if pos < 0 || pos >= s.len() {
    } else if s[pos] == '\n' && span_at(s, pos + 1, a, b) {
    } else {
        lemma_find_closer(s, pos + 1, a, b);
    }
}

/// Largest `t` with `start <= t <= end` such that `s[t-1]` is not
/// whitespace (or `t == start`).
pub open spec fn trim_ws_end(s: Seq<char>, start: int, end: int) -> int
    decreases end,
{
    if end <= start || end <= 0 || end > s.len() || !is_multispace(s[end - 1]) {
        end
    } else {
        trim_ws_end(s, start, end - 1)
    }
}

/// `trim_ws_end` stays between `start` and `end`.
pub proof fn lemma_trim_ws_end(s: Seq<char>, start: int, end: int)
    requires
        0 <= start <= end,
    ensures
        start <= trim_ws_end(s, start, end) <= end,
    decreases end,
{
    if end <= start || end <= 0 || end > s.len() || !is_multispace(s[end - 1]) {
    } else {
        lemma_trim_ws_end(s, start, end - 1);
    }
}

/// First position `i >= pos` whose character is not a variable name
/// character.
pub open spec fn skip_name_chars(s: Seq<char>, pos: int) -> int
    decreases s.len() - pos,
{
    if pos < 0 || pos >= s.len() || !is_name_char(s[pos]) {
        pos
    } else {
        skip_name_chars(s, pos + 1)
    }
}

/// `skip_name_chars` stays between `pos` and the end of `s`.
pub proof fn lemma_skip_name_chars(s: Seq<char>, pos: int)
    requires
        0 <= pos <= s.len(),
    ensures
        pos <= skip_name_chars(s, pos) <= s.len(),
    decreases s.len() - pos,
{
    if pos < 0 || pos >= s.len() || !is_name_char(s[pos]) {
    } else {
        lemma_skip_name_chars(s, pos + 1);
    }
}

/// First position `i >= pos` holding whitespace.
pub open spec fn skip_to_ws(s: Seq<char>, pos: int) -> int
    decreases s.len() - pos,
{
    if pos < 0 || pos >= s.len() || is_multispace(s[pos]) {
        pos
    } else {
        skip_to_ws(s, pos + 1)
    }
}

/// `skip_to_ws` stays between `pos` and the end of `s`.
pub proof fn lemma_skip_to_ws(s: Seq<char>, pos: int)
    requires
        0 <= pos <= s.len(),
    ensures
        pos <= skip_to_ws(s, pos) <= s.len(),
    decreases s.len() - pos,
{
    if pos < 0 || pos >= s.len() || is_multispace(s[pos]) {
    } else {
        lemma_skip_to_ws(s, pos + 1);
    }
}

/// Executable mirror of `span_at`.
pub fn span_at_x(s: &str, n: usize, pos: usize, a: usize, b: usize) -> (r: bool)
    requires
        n == s@.len(),
    ensures
        r == span_at(s@, pos as int, a as int, b as int),
{
    if !(a <= b && b <= n) {
        return false;
    }
    let m: usize = b - a;
    if pos > n || m > n - pos {
        return false;
    }
    let mut k: usize = 0;
    while k < m
        invariant
            n == s@.len(),
            a + m == b,
            b <= n,
            pos + m <= n,
            0 <= k <= m,
            forall|j: int| 0 <= j < k ==> #[trigger] s@[pos + j] == s@[a + j],
        decreases m - k,
    {
        if s.get_char(pos + k) != s.get_char(a + k) {
            assert(s@[pos + k] != s@[a + k]);
            return false;
        }
        k += 1;
    }
    true
}

/// Executable mirror of `find_closer`.
pub fn find_closer_x(s: &str, n: usize, pos: usize, a: usize, b: usize) -> (r: Option<usize>)
    requires
        n == s@.len(),
    ensures
        match r {
            Some(m) => find_closer(s@, pos as int, a as int, b as int) == Some(m as int),
            None => find_closer(s@, pos as int, a as int, b as int) is None,
        },
{
    let mut i: usize = pos;
    loop
        invariant
            n == s@.len(),
            pos <= i,
            find_closer(s@, pos as int, a as int, b as int) == find_closer(
                s@,
                i as int,
                a as int,
                b as int,
            ),
        decreases n + 1 - i,
    {
        if i >= n {
            return None;
        }
        if s.get_char(i) == '\n' && span_at_x(s, n, i + 1, a, b) {
            return Some(i);
        }
        i += 1;
    }
}

/// Executable mirror of `trim_ws_end`.
pub fn trim_ws_end_x(s: &str, n: usize, start: usize, end: usize) -> (r: usize)
    requires
        n == s@.len(),
    ensures
        r as int == trim_ws_end(s@, start as int, end as int),
{
    let mut e: usize = end;
    loop
        invariant
            n == s@.len(),
            e <= end,
            trim_ws_end(s@, start as int, end as int) == trim_ws_end(s@, start as int, e as int),
        decreases e,
    {
        if e <= start || e > n {
            return e;
        }
        if !is_multispace_x(s.get_char(e - 1)) {
            return e;
        }
        e -= 1;
    }
}

/// Executable mirror of `skip_name_chars`.
pub fn skip_name_chars_x(s: &str, n: usize, pos: usize) -> (r: usize)
    requires
        n == s@.len(),
    ensures
        r as int == skip_name_chars(s@, pos as int),
{
    let mut i: usize = pos;
    loop
        invariant
            n == s@.len(),
            pos <= i,
            skip_name_chars(s@, pos as int) == skip_name_chars(s@, i as int),
        decreases n + 1 - i,
    {
        if i >= n {
            return i;
        }
        if !is_name_char_x(s.get_char(i)) {
            return i;
        }
        i += 1;
    }
}

/// Executable mirror of `skip_to_ws`.
pub fn skip_to_ws_x(s: &str, n: usize, pos: usize) -> (r: usize)
    requires
        n == s@.len(),
    ensures
        r as int == skip_to_ws(s@, pos as int),
{
    let mut i: usize = pos;
    loop
        invariant
            n == s@.len(),
            pos <= i,
            skip_to_ws(s@, pos as int) == skip_to_ws(s@, i as int),
        decreases n + 1 - i,
    {
        if i >= n {
            return i;
        }
        if is_multispace_x(s.get_char(i)) {
            return i;
        }
        i += 1;
    }
}

} // verus!

verus! {

// ---------------------------------------------------------------------
// Small literals of the grammar
// ---------------------------------------------------------------------

/// `<!--`, the comment opener.
pub open spec fn comment_open() -> Seq<char> {
    seq!['<', '!', '-', '-']
}

/// `-->`, the comment closer.
pub open spec fn comment_close() -> Seq<char> {
    seq!['-', '-', '>']
}

/// A single backtick.
pub open spec fn tick1() -> Seq<char> {
    seq!['`']
}

/// A double backtick.
pub open spec fn tick2() -> Seq<char> {
    seq!['`', '`']
}

/// The comment opener, as text.
pub fn comment_open_str() -> (r: &'static str)
    ensures
        r@ == comment_open(),
        r@.len() == 4,
{
    proof {
        reveal_strlit("<!--");
        assert("<!--"@ =~= comment_open());
    }
    "<!--"
}

/// The comment closer, as text.
pub fn comment_close_str() -> (r: &'static str)
    ensures
        r@ == comment_close(),
        r@.len() == 3,
{
    proof {
        reveal_strlit("-->");
        assert("-->"@ =~= comment_close());
    }
    "-->"
}

/// A single backtick, as text.
pub fn tick1_str() -> (r: &'static str)
    ensures
        r@ == tick1(),
        r@.len() == 1,
{
    proof {
        reveal_strlit("`");
        assert("`"@ =~= tick1());
    }
    "`"
}

/// A double backtick, as text.
pub fn tick2_str() -> (r: &'static str)
    ensures
        r@ == tick2(),
        r@.len() == 2,
{
    proof {
        reveal_strlit("``");
        assert("``"@ =~= tick2());
    }
    "``"
}

/// A span from two positions.
pub open spec fn mk_span(a: int, b: int) -> Span {
    Span { start: a as usize, end: b as usize }
}

// ---------------------------------------------------------------------
// The command grammar
// ---------------------------------------------------------------------

/// Parse the in-selector (`$`, `<`, or absent) at `pos`, bounded by
/// `end`, completing a command whose out-selector is `out`.
pub open spec fn spec_in_type(s: Seq<char>, pos: int, end: int, out: OutType) -> (Command, int) {
    let q = skip_spaces(s, pos);
    if q < end && q < s.len() && s[q] == '$' {
        (Command { in_type: InType::Execute, out_type: out }, q + 1)
    } else if q < end && q < s.len() && s[q] == '<' {
        (Command { in_type: InType::Read, out_type: out }, q + 1)
    } else {
        (Command { in_type: InType::RawData, out_type: out }, if q > end { end } else { q })
    }
}

/// Parse a command in `s[pos..end]`: an out-selector (`>`, `> lang`, `!`,
/// or absent, which defaults to markdown output) followed by an
/// in-selector (`$`, `<`, or absent).  With no explicit out-selector an
/// explicit in-selector is required, directly at `pos`.
///
/// A token after `>` is taken as a fence language only when what follows
/// it is an in-selector or the end of the meta line; otherwise it is the
/// start of the data line.
pub open spec fn spec_command(s: Seq<char>, pos: int, end: int) -> Option<(Command, int)> {
    if pos < 0 || pos >= end || end > s.len() {
        None
    } else if s[pos] == '!' {
        Some(spec_in_type(s, pos + 1, end, OutType::Environment))
    } else if s[pos] == '>' {
        let p1 = skip_spaces(s, pos + 1);
        let fp_end = skip_filepath_chars(s, p1, end);
        if p1 < end && fp_end > p1 {
            let p3 = skip_spaces(s, fp_end);
            if p3 >= end || s[p3] == '\n' || s[p3] == '$' || s[p3] == '<' {
                Some(spec_in_type(s, fp_end, end, OutType::CodeBlock(mk_span(p1, fp_end))))
            } else {
                Some(spec_in_type(s, pos + 1, end, OutType::Markdown))
            }
        } else {
            Some(spec_in_type(s, pos + 1, end, OutType::Markdown))
        }
    } else if s[pos] == '$' {
        Some((Command { in_type: InType::Execute, out_type: OutType::Markdown }, pos + 1))
    } else if s[pos] == '<' {
        Some((Command { in_type: InType::Read, out_type: OutType::Markdown }, pos + 1))
    } else {
        None
    }
}

// ---------------------------------------------------------------------
// The piece grammar
// ---------------------------------------------------------------------

/// An inline code span of one or two backticks whose content is a
/// command: the rest of the content is the data line.  The span must
/// close on the line it opens and end that line.
pub open spec fn spec_inline_code(s: Seq<char>, pos: int) -> Option<(Action, int)> {
    if pos < 0 || pos >= s.len() || s[pos] != '`' {
        None
    } else {
        let two = pos + 1 < s.len() && s[pos + 1] == '`';
        let q: int = if two {
            2
        } else {
            1
        };
        if pos + q < s.len() && s[pos + q] == '`' {
            None
        } else {
            let cstart = pos + q;
            let closer = if two {
                find_lit(s, cstart, tick2())
            } else {
                find_lit(s, cstart, tick1())
            };
            match closer {
                None => None,
                Some(e) => {
                    if e == cstart {
                        None
                    } else if find_char(s, cstart, '\n') != Some(e + q) {
                        None
                    } else {
                        match spec_command(s, cstart, e) {
                            None => None,
                            Some((cmd, cp)) => {
                                let k = skip_spaces(s, cp);
                                let k2 = if k > e {
                                    e
                                } else {
                                    k
                                };
                                Some(
                                    (
                                        Action {
                                            command: cmd,
                                            data_line: Some(mk_span(k2, e)),
                                            data: None,
                                        },
                                        e + q + 1,
                                    ),
                                )
                            },
                        }
                    }
                },
            }
        }
    }
}

/// A markdown link whose description starts with a command:
/// `[<command> description](<path>)` ending its line; the path is the
/// data line.  Once the command is recognized, a malformed tail is a
/// hard parse error.
pub open spec fn spec_link(s: Seq<char>, pos: int) -> Result<Option<(Action, int)>, ParseError> {
    if pos < 0 || pos >= s.len() || s[pos] != '[' {
        Ok(None)
    } else {
        match spec_command(s, pos + 1, s.len() as int) {
            None => Ok(None),
            Some((cmd, cp)) => {
                if cp < s.len() && s[cp] == '[' {
                    Ok(None)
                } else {
                    match find_char(s, cp, ']') {
                        None => Err(
                            ParseError { pos: cp as usize, kind: ParseErrorKind::MalformedLink },
                        ),
                        Some(j) => {
                            if j + 2 > s.len() || s[j + 1] != '(' {
                                Err(
                                    ParseError {
                                        pos: j as usize,
                                        kind: ParseErrorKind::MalformedLink,
                                    },
                                )
                            } else {
                                let fs = j + 2;
                                let fe = skip_filepath_chars(s, fs, s.len() as int);
                                if fe == fs {
                                    Err(
                                        ParseError {
                                            pos: fs as usize,
                                            kind: ParseErrorKind::MalformedLink,
                                        },
                                    )
                                } else if fe >= s.len() || s[fe] != ')' {
                                    Err(
                                        ParseError {
                                            pos: fe as usize,
                                            kind: ParseErrorKind::MalformedLink,
                                        },
                                    )
                                } else if fe + 1 >= s.len() || s[fe + 1] != '\n' {
                                    Err(
                                        ParseError {
                                            pos: fe as usize,
                                            kind: ParseErrorKind::MalformedLink,
                                        },
                                    )
                                } else {
                                    Ok(
                                        Some(
                                            (
                                                Action {
                                                    command: cmd,
                                                    data_line: Some(mk_span(fs, fe)),
                                                    data: None,
                                                },
                                                fe + 2,
                                            ),
                                        ),
                                    )
                                }
                            }
                        },
                    }
                }
            },
        }
    }
}

/// An HTML comment whose body is a command.  The comment must end its
/// line; the first body line is the meta line (command plus optional
/// data line), the rest up to the closer is the data block.
pub open spec fn spec_actionable_comment(s: Seq<char>, pos: int) -> Option<(Action, int)> {
    if !lit_at(s, pos, comment_open()) {
        None
    } else {
        match find_lit(s, pos + 4, comment_close()) {
            None => None,
            Some(i) => {
                if i == pos + 4 {
                    None
                } else {
                    let tail = skip_spaces(s, i + 3);
                    if !(tail < s.len() && s[tail] == '\n') {
                        None
                    } else {
                        let k = skip_spaces(s, pos + 4);
                        match spec_command(s, k, i) {
                            None => None,
                            Some((cmd, cp)) => {
                                let k2a = skip_spaces(s, cp);
                                let k2 = if k2a > i {
                                    i
                                } else {
                                    k2a
                                };
                                let dl_end: int = match find_char(s, k2, '\n') {
                                    Some(m) => if m < i {
                                        m
                                    } else {
                                        i
                                    },
                                    None => i,
                                };
                                let dtrim = trim_ws_end(s, k2, dl_end);
                                Some(
                                    (
                                        Action {
                                            command: cmd,
                                            data_line: if k2 < dl_end {
                                                Some(mk_span(k2, dtrim))
                                            } else {
                                                None
                                            },
                                            data: if dl_end < i {
                                                Some(mk_span(dl_end + 1, i))
                                            } else {
                                                None
                                            },
                                        },
                                        tail + 1,
                                    ),
                                )
                            },
                        }
                    }
                }
            },
        }
    }
}

/// A plain HTML comment, passed through: everything from `<!--` to the
/// first `-->`.  A comment that never closes is a hard parse error.
pub open spec fn spec_comment(s: Seq<char>, pos: int) -> Result<Option<int>, ParseError> {
    if !lit_at(s, pos, comment_open()) {
        Ok(None)
    } else {
        match find_lit(s, pos + 4, comment_close()) {
            None => Err(ParseError { pos: pos as usize, kind: ParseErrorKind::UnterminatedComment }),
            Some(i) => Ok(Some(i + 3)),
        }
    }
}

// ---------------------------------------------------------------------
// Fenced code blocks
// ---------------------------------------------------------------------

/// A fence opener at `pos`: optional blanks, then a run of at least
/// three backticks or tildes.  Returns the position after the run.
pub open spec fn spec_fence_open(s: Seq<char>, pos: int) -> Option<int> {
    if pos < 0 || pos > s.len() {
        None
    } else {
        let i0 = skip_spaces(s, pos);
        if i0 < s.len() && (s[i0] == '`' || s[i0] == '~') {
            let r = skip_run(s, i0, s[i0]);
            if r - i0 >= 3 {
                Some(r)
            } else {
                None
            }
        } else {
            None
        }
    }
}

/// After a closing fence `s[qa..qb]` ending at `cpos`, a newline must
/// follow directly; anything else is a hard parse error.
pub open spec fn spec_fence_close(s: Seq<char>, cpos: int, data: Span) -> Result<
    (Span, int),
    ParseError,
> {
    if 0 <= cpos < s.len() && s[cpos] == '\n' {
        Ok((data, cpos + 1))
    } else {
        Err(ParseError { pos: cpos as usize, kind: ParseErrorKind::BadCodeBlockClose })
    }
}

/// The body of a fenced block whose meta line ends at `meta_nl` and
/// whose fence string is `s[qa..qb]` (indentation included): everything
/// up to a line that starts with the same fence string.  A block that
/// never closes is a hard parse error.
pub open spec fn spec_code_block_tail(s: Seq<char>, meta_nl: int, qa: int, qb: int) -> Result<
    (Span, int),
    ParseError,
> {
    let bstart = meta_nl + 1;
    if span_at(s, bstart, qa, qb) {
        spec_fence_close(s, bstart + (qb - qa), mk_span(bstart, bstart))
    } else {
        match find_closer(s, bstart, qa, qb) {
            None => Err(
                ParseError { pos: qa as usize, kind: ParseErrorKind::UnterminatedCodeBlock },
            ),
            Some(m) => spec_fence_close(s, m + 1 + (qb - qa), mk_span(bstart, m + 1)),
        }
    }
}

/// A fenced code block whose meta line is a command, with an optional
/// leading source language tag and an optional data line; the block
/// body is the data block.
pub open spec fn spec_actionable_code_block(s: Seq<char>, pos: int) -> Result<
    Option<(Action, int)>,
    ParseError,
> {
    match spec_fence_open(s, pos) {
        None => Ok(None),
        Some(fe) => match find_char(s, fe, '\n') {
            None => Ok(None),
            Some(nl) => {
                let sl_end = skip_filepath_chars(s, fe, nl);
                let k = skip_spaces(s, sl_end);
                match spec_command(s, k, nl) {
                    None => Ok(None),
                    Some((cmd, cp)) => {
                        let k2a = skip_spaces(s, cp);
                        let k2 = if k2a > nl {
                            nl
                        } else {
                            k2a
                        };
                        match spec_code_block_tail(s, nl, pos, fe) {
                            Err(e) => Err(e),
                            Ok((data, end)) => Ok(
                                Some(
                                    (
                                        Action {
                                            command: cmd,
                                            data_line: if k2 < nl {
                                                Some(mk_span(k2, nl))
                                            } else {
                                                None
                                            },
                                            data: Some(data),
                                        },
                                        end,
                                    ),
                                ),
                            ),
                        }
                    },
                }
            },
        },
    }
}

/// A fenced code block whose meta line is not a command: passed through,
/// opaque to the grammar.
pub open spec fn spec_plain_code_block(s: Seq<char>, pos: int) -> Result<Option<int>, ParseError> {
    match spec_fence_open(s, pos) {
        None => Ok(None),
        Some(fe) => match find_char(s, fe, '\n') {
            None => Ok(None),
            Some(nl) => match spec_code_block_tail(s, nl, pos, fe) {
                Err(e) => Err(e),
                Ok(r) => Ok(Some(r.1)),
            },
        },
    }
}

// ---------------------------------------------------------------------
// Sentinel-delimited generated blocks
// ---------------------------------------------------------------------

/// After an end marker: blanks, then a newline or the end of input,
/// close the block.
pub open spec fn spec_sentinel_close(s: Seq<char>, pos: int) -> Result<int, ParseError> {
    let p1 = skip_spaces(s, pos);
    if p1 >= s.len() {
        Ok(p1)
    } else if s[p1] == '\n' {
        Ok(p1 + 1)
    } else {
        Err(ParseError { pos: p1 as usize, kind: ParseErrorKind::BadSentinelClose })
    }
}

/// Scan the interior of a generated block, tracking the nesting depth
/// of begin/end marker pairs, until the end marker that closes the
/// block at depth zero.
pub open spec fn spec_sentinel_scan(s: Seq<char>, pos: int, depth: int) -> Result<int, ParseError>
    decreases s.len() - pos,
{
    if pos < 0 || pos >= s.len() {
        Err(ParseError { pos: pos as usize, kind: ParseErrorKind::UnterminatedSentinelBlock })
    } else if lit_at(s, pos, begin_marker()) {
        spec_sentinel_scan(s, pos + 19, depth + 1)
    } else if lit_at(s, pos, end_marker()) {
        if depth == 0 {
            spec_sentinel_close(s, pos + 17)
        } else {
            spec_sentinel_scan(s, pos + 17, depth - 1)
        }
    } else {
        spec_sentinel_scan(s, pos + 1, depth)
    }
}

/// A generated block: the blank line the engine writes before it (if
/// present), a begin marker alone on its line, an interior that may
/// nest further generated blocks, and the matching end marker.  The
/// preceding blank line belongs to the block, so re-deriving the block
/// from its annotation reproduces the document byte for byte.
pub open spec fn spec_sentinel_block(s: Seq<char>, pos: int) -> Result<Option<int>, ParseError> {
    let b = if 0 <= pos < s.len() && s[pos] == '\n' && lit_at(s, pos + 1, begin_marker()) {
        pos + 1
    } else {
        pos
    };
    if !lit_at(s, b, begin_marker()) {
        Ok(None)
    } else if b + 19 >= s.len() || s[b + 19] != '\n' {
        Ok(None)
    } else {
        match spec_sentinel_scan(s, b + 20, 0) {
            Ok(end) => Ok(Some(end)),
            Err(e) => Err(e),
        }
    }
}

// ---------------------------------------------------------------------
// One piece, and the whole document
// ---------------------------------------------------------------------

/// One piece of the document at `pos`: the grammar rules are tried in
/// order, and the first hard parse error aborts.
pub open spec fn spec_markdown_piece(s: Seq<char>, pos: int) -> Result<
    Option<(MdPiece, int)>,
    ParseError,
> {
    match spec_sentinel_block(s, pos) {
        Err(e) => Err(e),
        Ok(Some(end)) => Ok(Some((MdPiece::FencedBlock(mk_span(pos, end)), end))),
        Ok(None) => match spec_actionable_code_block(s, pos) {
            Err(e) => Err(e),
            Ok(Some((a, end))) => Ok(Some((MdPiece::Action(mk_span(pos, end), a), end))),
            Ok(None) => match spec_inline_code(s, pos) {
                Some((a, end)) => Ok(Some((MdPiece::Action(mk_span(pos, end), a), end))),
                None => match spec_link(s, pos) {
                    Err(e) => Err(e),
                    Ok(Some((a, end))) => Ok(Some((MdPiece::Action(mk_span(pos, end), a), end))),
                    Ok(None) => match spec_actionable_comment(s, pos) {
                        Some((a, end)) => Ok(Some((MdPiece::Action(mk_span(pos, end), a), end))),
                        None => if lit_at(s, pos, begin_marker()) {
                            Err(
                                ParseError {
                                    pos: pos as usize,
                                    kind: ParseErrorKind::MisplacedSentinel,
                                },
                            )
                        } else {
                            match spec_comment(s, pos) {
                                Err(e) => Err(e),
                                Ok(Some(end)) => Ok(
                                    Some((MdPiece::RawLine(mk_span(pos, end)), end)),
                                ),
                                Ok(None) => match spec_plain_code_block(s, pos) {
                                    Err(e) => Err(e),
                                    Ok(Some(end)) => Ok(
                                        Some((MdPiece::RawLine(mk_span(pos, end)), end)),
                                    ),
                                    Ok(None) => match find_char(s, pos, '\n') {
                                        Some(m) => Ok(
                                            Some((MdPiece::RawLine(mk_span(pos, m + 1)), m + 1)),
                                        ),
                                        None => Err(
                                            ParseError {
                                                pos: pos as usize,
                                                kind: ParseErrorKind::ResidualText,
                                            },
                                        ),
                                    },
                                },
                            }
                        },
                    },
                },
            },
        },
    }
}

/// The whole document from `pos` on, as a sequence of pieces.  The run
/// succeeds only when the grammar consumes every character.
pub open spec fn spec_tokenize(s: Seq<char>, pos: int) -> Result<Seq<MdPiece>, ParseError>
    decreases s.len() - pos,
{
    if pos < 0 || pos >= s.len() {
        Ok(Seq::empty())
    } else {
        match spec_markdown_piece(s, pos) {
            Err(e) => Err(e),
            Ok(None) => Err(ParseError { pos: pos as usize, kind: ParseErrorKind::ResidualText }),
            Ok(Some((p, end))) => if pos < end <= s.len() {
                match spec_tokenize(s, end) {
                    Err(e) => Err(e),
                    Ok(rest) => Ok(seq![p] + rest),
                }
            } else {
                Err(ParseError { pos: pos as usize, kind: ParseErrorKind::ResidualText })
            },
        }
    }
}

} // verus!

verus! {

// ---------------------------------------------------------------------
// Executable grammar
// ---------------------------------------------------------------------

/// Executable mirror of `spec_in_type`.
pub fn in_type(s: &str, n: usize, pos: usize, end: usize, out: OutType) -> (r: (Command, usize))
    requires
        n == s@.len(),
        end <= n,
    ensures
        (r.0, r.1 as int) == spec_in_type(s@, pos as int, end as int, out),
{
    let q = skip_spaces_x(s, n, pos);
    proof {
        if pos <= n {
            lemma_skip_spaces(s@, pos as int);
        }
    }
    if q < end && s.get_char(q) == '$' {
        (Command { in_type: InType::Execute, out_type: out }, q + 1)
    } else if q < end && s.get_char(q) == '<' {
        (Command { in_type: InType::Read, out_type: out }, q + 1)
    } else {
        (
            Command { in_type: InType::RawData, out_type: out },
            if q > end {
                end
            } else {
                q
            },
        )
    }
}

/// Executable mirror of `spec_command`.
pub fn command(s: &str, n: usize, pos: usize, end: usize) -> (r: Option<(Command, usize)>)
    requires
        n == s@.len(),
        end <= n,
    ensures
        match r {
            Some((c, p)) => spec_command(s@, pos as int, end as int) == Some((c, p as int)),
            None => spec_command(s@, pos as int, end as int) is None,
        },
{
    if pos >= end {
        return None;
    }
    let c = s.get_char(pos);
    if c == '!' {
        Some(in_type(s, n, pos + 1, end, OutType::Environment))
    } else if c == '>' {
        let p1 = skip_spaces_x(s, n, pos + 1);
        proof {
            lemma_skip_spaces(s@, pos + 1 as int);
        }
        let fp_end = skip_filepath_chars_x(s, n, p1, end);
        proof {
            if p1 <= n && p1 <= end {
                lemma_skip_filepath_chars(s@, p1 as int, end as int);
            }
        }
        if p1 < end && fp_end > p1 {
            let p3 = skip_spaces_x(s, n, fp_end);
            proof {
                if fp_end <= n {
                    lemma_skip_spaces(s@, fp_end as int);
                }
            }
            if p3 >= end || s.get_char(p3) == '\n' || s.get_char(p3) == '$' || s.get_char(p3)
                == '<' {
                Some(
                    in_type(
                        s,
                        n,
                        fp_end,
                        end,
                        OutType::CodeBlock(Span { start: p1, end: fp_end }),
                    ),
                )
            } else {
                Some(in_type(s, n, pos + 1, end, OutType::Markdown))
            }
        } else {
            Some(in_type(s, n, pos + 1, end, OutType::Markdown))
        }
    } else if c == '$' {
        Some((Command { in_type: InType::Execute, out_type: OutType::Markdown }, pos + 1))
    } else if c == '<' {
        Some((Command { in_type: InType::Read, out_type: OutType::Markdown }, pos + 1))
    } else {
        None
    }
}

/// Executable mirror of `spec_inline_code`.
pub fn inline_code(s: &str, n: usize, pos: usize) -> (r: Option<(Action, usize)>)
    requires
        n == s@.len(),
    ensures
        match r {
            Some((a, end)) => spec_inline_code(s@, pos as int) == Some((a, end as int)),
            None => spec_inline_code(s@, pos as int) is None,
        },
{
    if pos >= n || s.get_char(pos) != '`' {
        return None;
    }
    let two = pos + 1 < n && s.get_char(pos + 1) == '`';
    let q: usize = if two {
        2
    } else {
        1
    };
    if pos + q < n && s.get_char(pos + q) == '`' {
        return None;
    }
    let cstart = pos + q;
    let closer = if two {
        find_lit_x(s, n, cstart, tick2_str(), 2)
    } else {
        find_lit_x(s, n, cstart, tick1_str(), 1)
    };
    proof {
        if two {
            lemma_find_lit(s@, cstart as int, tick2());
        } else {
            lemma_find_lit(s@, cstart as int, tick1());
        }
    }
    match closer {
        None => None,
        Some(e) => {
            if e == cstart {
                return None;
            }
            let nl = find_char_x(s, n, cstart, '\n');
            proof {
                lemma_find_char(s@, cstart as int, '\n');
            }
            let same_line = match nl {
                Some(m) => m == e + q,
                None => false,
            };
            if !same_line {
                return None;
            }
            match command(s, n, cstart, e) {
                None => None,
                Some((cmd, cp)) => {
                    let k = skip_spaces_x(s, n, cp);
                    let k2 = if k > e {
                        e
                    } else {
                        k
                    };
                    Some(
                        (
                            Action {
                                command: cmd,
                                data_line: Some(Span { start: k2, end: e }),
                                data: None,
                            },
                            e + q + 1,
                        ),
                    )
                },
            }
        },
    }
}

/// Executable mirror of `spec_link`.
pub fn link(s: &str, n: usize, pos: usize) -> (r: Result<Option<(Action, usize)>, ParseError>)
    requires
        n == s@.len(),
    ensures
        match r {
            Ok(Some((a, end))) => spec_link(s@, pos as int) == Ok::<Option<(Action, int)>,
                ParseError,
            >(Some((a, end as int))),
            Ok(None) => spec_link(s@, pos as int) == Ok::<Option<(Action, int)>, ParseError>(None),
            Err(e) => spec_link(s@, pos as int) == Err::<Option<(Action, int)>, ParseError>(e),
        },
{
    if pos >= n || s.get_char(pos) != '[' {
        return Ok(None);
    }
    match command(s, n, pos + 1, n) {
        None => Ok(None),
        Some((cmd, cp)) => {
            if cp < n && s.get_char(cp) == '[' {
                return Ok(None);
            }
            match find_char_x(s, n, cp, ']') {
                None => Err(ParseError { pos: cp, kind: ParseErrorKind::MalformedLink }),
                Some(j) => {
                    proof {
                        lemma_find_char(s@, cp as int, ']');
                    }
                    if n - j < 2 || s.get_char(j + 1) != '(' {
                        return Err(ParseError { pos: j, kind: ParseErrorKind::MalformedLink });
                    }
                    let fs = j + 2;
                    let fe = skip_filepath_chars_x(s, n, fs, n);
                    proof {
                        lemma_skip_filepath_chars(s@, fs as int, n as int);
                    }
                    if fe == fs {
                        Err(ParseError { pos: fs, kind: ParseErrorKind::MalformedLink })
                    } else if fe >= n || s.get_char(fe) != ')' {
                        Err(ParseError { pos: fe, kind: ParseErrorKind::MalformedLink })
                    } else if fe + 1 >= n || s.get_char(fe + 1) != '\n' {
                        Err(ParseError { pos: fe, kind: ParseErrorKind::MalformedLink })
                    } else {
                        Ok(
                            Some(
                                (
                                    Action {
                                        command: cmd,
                                        data_line: Some(Span { start: fs, end: fe }),
                                        data: None,
                                    },
                                    fe + 2,
                                ),
                            ),
                        )
                    }
                },
            }
        },
    }
}

/// Executable mirror of `spec_actionable_comment`.
pub fn actionable_comment(s: &str, n: usize, pos: usize) -> (r: Option<(Action, usize)>)
    requires
        n == s@.len(),
    ensures
        match r {
            Some((a, end)) => spec_actionable_comment(s@, pos as int) == Some((a, end as int)),
            None => spec_actionable_comment(s@, pos as int) is None,
        },
{
    if !lit_at_x(s, n, pos, comment_open_str(), 4) {
        return None;
    }
    match find_lit_x(s, n, pos + 4, comment_close_str(), 3) {
        None => None,
        Some(i) => {
            proof {
                lemma_find_lit(s@, pos + 4 as int, comment_close());
            }
            if i == pos + 4 {
                return None;
            }
            let tail = skip_spaces_x(s, n, i + 3);
            proof {
                lemma_skip_spaces(s@, i + 3 as int);
            }
            if !(tail < n && s.get_char(tail) == '\n') {
                return None;
            }
            let k = skip_spaces_x(s, n, pos + 4);
            proof {
                lemma_skip_spaces(s@, pos + 4 as int);
            }
            match command(s, n, k, i) {
                None => None,
                Some((cmd, cp)) => {
                    let k2a = skip_spaces_x(s, n, cp);
                    let k2 = if k2a > i {
                        i
                    } else {
                        k2a
                    };
                    let dl_end = match find_char_x(s, n, k2, '\n') {
                        Some(m) => if m < i {
                            m
                        } else {
                            i
                        },
                        None => i,
                    };
                    proof {
                        lemma_find_char(s@, k2 as int, '\n');
                    }
                    let dtrim = trim_ws_end_x(s, n, k2, dl_end);
                    Some(
                        (
                            Action {
                                command: cmd,
                                data_line: if k2 < dl_end {
                                    Some(Span { start: k2, end: dtrim })
                                } else {
                                    None
                                },
                                data: if dl_end < i {
                                    Some(Span { start: dl_end + 1, end: i })
                                } else {
                                    None
                                },
                            },
                            tail + 1,
                        ),
                    )
                },
            }
        },
    }
}

/// Executable mirror of `spec_comment`.
pub fn comment(s: &str, n: usize, pos: usize) -> (r: Result<Option<usize>, ParseError>)
    requires
        n == s@.len(),
    ensures
        match r {
            Ok(Some(end)) => spec_comment(s@, pos as int) == Ok::<Option<int>, ParseError>(
                Some(end as int),
            ),
            Ok(None) => spec_comment(s@, pos as int) == Ok::<Option<int>, ParseError>(None),
            Err(e) => spec_comment(s@, pos as int) == Err::<Option<int>, ParseError>(e),
        },
{
    if !lit_at_x(s, n, pos, comment_open_str(), 4) {
        return Ok(None);
    }
    match find_lit_x(s, n, pos + 4, comment_close_str(), 3) {
        None => Err(ParseError { pos, kind: ParseErrorKind::UnterminatedComment }),
        Some(i) => {
            proof {
                lemma_find_lit(s@, pos + 4 as int, comment_close());
            }
            Ok(Some(i + 3))
        },
    }
}

/// Executable mirror of `spec_fence_open`.
pub fn fence_open(s: &str, n: usize, pos: usize) -> (r: Option<usize>)
    requires
        n == s@.len(),
    ensures
        match r {
            Some(fe) => spec_fence_open(s@, pos as int) == Some(fe as int),
            None => spec_fence_open(s@, pos as int) is None,
        },
{
    if pos > n {
        return None;
    }
    let i0 = skip_spaces_x(s, n, pos);
    proof {
        lemma_skip_spaces(s@, pos as int);
    }
    if i0 < n {
        let f = s.get_char(i0);
        if f == '`' || f == '~' {
            let r = skip_run_x(s, n, i0, f);
            proof {
                lemma_skip_run(s@, i0 as int, f);
            }
            if r - i0 >= 3 {
                return Some(r);
            }
        }
    }
    None
}

/// Executable mirror of `spec_fence_close`.
pub fn fence_close(s: &str, n: usize, cpos: usize, data: Span) -> (r: Result<
    (Span, usize),
    ParseError,
>)
    requires
        n == s@.len(),
    ensures
        match r {
            Ok((d, end)) => spec_fence_close(s@, cpos as int, data) == Ok::<(Span, int), ParseError>(
                (d, end as int),
            ),
            Err(e) => spec_fence_close(s@, cpos as int, data) == Err::<(Span, int), ParseError>(e),
        },
{
    if cpos < n && s.get_char(cpos) == '\n' {
        Ok((data, cpos + 1))
    } else {
        Err(ParseError { pos: cpos, kind: ParseErrorKind::BadCodeBlockClose })
    }
}

/// Executable mirror of `spec_code_block_tail`.
pub fn code_block_tail(s: &str, n: usize, meta_nl: usize, qa: usize, qb: usize) -> (r: Result<
    (Span, usize),
    ParseError,
>)
    requires
        n == s@.len(),
        meta_nl < n,
        qa <= qb <= n,
    ensures
        match r {
            Ok((d, end)) => spec_code_block_tail(s@, meta_nl as int, qa as int, qb as int)
                == Ok::<(Span, int), ParseError>((d, end as int)),
            Err(e) => spec_code_block_tail(s@, meta_nl as int, qa as int, qb as int) == Err::<
                (Span, int),
                ParseError,
            >(e),
        },
{
    let bstart = meta_nl + 1;
    if span_at_x(s, n, bstart, qa, qb) {
        fence_close(s, n, bstart + (qb - qa), Span { start: bstart, end: bstart })
    } else {
        match find_closer_x(s, n, bstart, qa, qb) {
            None => Err(ParseError { pos: qa, kind: ParseErrorKind::UnterminatedCodeBlock }),
            Some(m) => {
                proof {
                    lemma_find_closer(s@, bstart as int, qa as int, qb as int);
                }
                fence_close(s, n, m + 1 + (qb - qa), Span { start: bstart, end: m + 1 })
            },
        }
    }
}

/// Executable mirror of `spec_actionable_code_block`.
pub fn actionable_code_block(s: &str, n: usize, pos: usize) -> (r: Result<
    Option<(Action, usize)>,
    ParseError,
>)
    requires
        n == s@.len(),
    ensures
        match r {
            Ok(Some((a, end))) => spec_actionable_code_block(s@, pos as int) == Ok::<
                Option<(Action, int)>,
                ParseError,
            >(Some((a, end as int))),
            Ok(None) => spec_actionable_code_block(s@, pos as int) == Ok::<
                Option<(Action, int)>,
                ParseError,
            >(None),
            Err(e) => spec_actionable_code_block(s@, pos as int) == Err::<
                Option<(Action, int)>,
                ParseError,
            >(e),
        },
{
    match fence_open(s, n, pos) {
        None => Ok(None),
        Some(fe) => {
            proof {
                if pos <= n {
                    lemma_skip_spaces(s@, pos as int);
                    lemma_skip_run(
                        s@,
                        skip_spaces(s@, pos as int),
                        s@[skip_spaces(s@, pos as int)],
                    );
                }
            }
            match find_char_x(s, n, fe, '\n') {
                None => Ok(None),
                Some(nl) => {
                    proof {
                        lemma_find_char(s@, fe as int, '\n');
                    }
                    let sl_end = skip_filepath_chars_x(s, n, fe, nl);
                    proof {
                        lemma_skip_filepath_chars(s@, fe as int, nl as int);
                    }
                    let k = skip_spaces_x(s, n, sl_end);
                    match command(s, n, k, nl) {
                        None => Ok(None),
                        Some((cmd, cp)) => {
                            let k2a = skip_spaces_x(s, n, cp);
                            let k2 = if k2a > nl {
                                nl
                            } else {
                                k2a
                            };
                            match code_block_tail(s, n, nl, pos, fe) {
                                Err(e) => Err(e),
                                Ok((data, end)) => Ok(
                                    Some(
                                        (
                                            Action {
                                                command: cmd,
                                                data_line: if k2 < nl {
                                                    Some(Span { start: k2, end: nl })
                                                } else {
                                                    None
                                                },
                                                data: Some(data),
                                            },
                                            end,
                                        ),
                                    ),
                                ),
                            }
                        },
                    }
                },
            }
        },
    }
}

/// Executable mirror of `spec_plain_code_block`.
pub fn non_actionable_code_block(s: &str, n: usize, pos: usize) -> (r: Result<
    Option<usize>,
    ParseError,
>)
    requires
        n == s@.len(),
    ensures
        match r {
            Ok(Some(end)) => spec_plain_code_block(s@, pos as int) == Ok::<Option<int>, ParseError>(
                Some(end as int),
            ),
            Ok(None) => spec_plain_code_block(s@, pos as int) == Ok::<Option<int>, ParseError>(
                None,
            ),
            Err(e) => spec_plain_code_block(s@, pos as int) == Err::<Option<int>, ParseError>(e),
        },
{
    match fence_open(s, n, pos) {
        None => Ok(None),
        Some(fe) => {
            proof {
                if pos <= n {
                    lemma_skip_spaces(s@, pos as int);
                    lemma_skip_run(
                        s@,
                        skip_spaces(s@, pos as int),
                        s@[skip_spaces(s@, pos as int)],
                    );
                }
            }
            match find_char_x(s, n, fe, '\n') {
                None => Ok(None),
                Some(nl) => {
                    proof {
                        lemma_find_char(s@, fe as int, '\n');
                    }
                    match code_block_tail(s, n, nl, pos, fe) {
                        Err(e) => Err(e),
                        Ok((_, end)) => Ok(Some(end)),
                    }
                },
            }
        },
    }
}

/// Executable mirror of `spec_sentinel_close`.
pub fn sentinel_close(s: &str, n: usize, pos: usize) -> (r: Result<usize, ParseError>)
    requires
        n == s@.len(),
    ensures
        match r {
            Ok(end) => spec_sentinel_close(s@, pos as int) == Ok::<int, ParseError>(end as int),
            Err(e) => spec_sentinel_close(s@, pos as int) == Err::<int, ParseError>(e),
        },
{
    let p1 = skip_spaces_x(s, n, pos);
    if p1 >= n {
        Ok(p1)
    } else if s.get_char(p1) == '\n' {
        Ok(p1 + 1)
    } else {
        Err(ParseError { pos: p1, kind: ParseErrorKind::BadSentinelClose })
    }
}

/// Executable mirror of `spec_sentinel_scan`.
pub fn sentinel_scan(s: &str, n: usize, pos: usize, depth: usize) -> (r: Result<usize, ParseError>)
    requires
        n == s@.len(),
        19 * depth <= pos,
    ensures
        match r {
            Ok(end) => spec_sentinel_scan(s@, pos as int, depth as int) == Ok::<int, ParseError>(
                end as int,
            ),
            Err(e) => spec_sentinel_scan(s@, pos as int, depth as int) == Err::<int, ParseError>(e),
        },
{
    let mut i: usize = pos;
    let mut d: usize = depth;
    loop
        invariant
            n == s@.len(),
            19 * d <= i,
            spec_sentinel_scan(s@, pos as int, depth as int) == spec_sentinel_scan(
                s@,
                i as int,
                d as int,
            ),
        decreases n + 1 - i,
    {
        if i >= n {
            return Err(ParseError { pos: i, kind: ParseErrorKind::UnterminatedSentinelBlock });
        }
        if lit_at_x(s, n, i, begin_marker_str(), 19) {
            i = i + 19;
            d = d + 1;
        } else if lit_at_x(s, n, i, end_marker_str(), 17) {
            if d == 0 {
                return sentinel_close(s, n, i + 17);
            }
            i = i + 17;
            d = d - 1;
        } else {
            i = i + 1;
        }
    }
}

/// Executable mirror of `spec_sentinel_block`.
pub fn sentinel_block(s: &str, n: usize, pos: usize) -> (r: Result<Option<usize>, ParseError>)
    requires
        n == s@.len(),
    ensures
        match r {
            Ok(Some(end)) => spec_sentinel_block(s@, pos as int) == Ok::<Option<int>, ParseError>(
                Some(end as int),
            ),
            Ok(None) => spec_sentinel_block(s@, pos as int) == Ok::<Option<int>, ParseError>(None),
            Err(e) => spec_sentinel_block(s@, pos as int) == Err::<Option<int>, ParseError>(e),
        },
{
    let b = if pos < n && s.get_char(pos) == '\n' && lit_at_x(s, n, pos + 1, begin_marker_str(), 19) {
        pos + 1
    } else {
        pos
    };
    if !lit_at_x(s, n, b, begin_marker_str(), 19) {
        return Ok(None);
    }
    if b + 19 >= n || s.get_char(b + 19) != '\n' {
        return Ok(None);
    }
    match sentinel_scan(s, n, b + 20, 0) {
        Ok(end) => Ok(Some(end)),
        Err(e) => Err(e),
    }
}

/// Executable mirror of `spec_markdown_piece`: one piece at `pos`.
pub fn markdown_piece(s: &str, n: usize, pos: usize) -> (r: Result<
    Option<(MdPiece, usize)>,
    ParseError,
>)
    requires
        n == s@.len(),
    ensures
        match r {
            Ok(Some((p, end))) => spec_markdown_piece(s@, pos as int) == Ok::<
                Option<(MdPiece, int)>,
                ParseError,
            >(Some((p, end as int))),
            Ok(None) => spec_markdown_piece(s@, pos as int) == Ok::<
                Option<(MdPiece, int)>,
                ParseError,
            >(None),
            Err(e) => spec_markdown_piece(s@, pos as int) == Err::<
                Option<(MdPiece, int)>,
                ParseError,
            >(e),
        },
{
    match sentinel_block(s, n, pos) {
        Err(e) => {
            return Err(e);
        },
        Ok(Some(end)) => {
            return Ok(Some((MdPiece::FencedBlock(Span { start: pos, end }), end)));
        },
        Ok(None) => {},
    }
    match actionable_code_block(s, n, pos) {
        Err(e) => {
            return Err(e);
        },
        Ok(Some((a, end))) => {
            return Ok(Some((MdPiece::Action(Span { start: pos, end }, a), end)));
        },
        Ok(None) => {},
    }
    match inline_code(s, n, pos) {
        Some((a, end)) => {
            return Ok(Some((MdPiece::Action(Span { start: pos, end }, a), end)));
        },
        None => {},
    }
    match link(s, n, pos) {
        Err(e) => {
            return Err(e);
        },
        Ok(Some((a, end))) => {
            return Ok(Some((MdPiece::Action(Span { start: pos, end }, a), end)));
        },
        Ok(None) => {},
    }
    match actionable_comment(s, n, pos) {
        Some((a, end)) => {
            return Ok(Some((MdPiece::Action(Span { start: pos, end }, a), end)));
        },
        None => {},
    }
    if lit_at_x(s, n, pos, begin_marker_str(), 19) {
        return Err(ParseError { pos, kind: ParseErrorKind::MisplacedSentinel });
    }
    match comment(s, n, pos) {
        Err(e) => {
            return Err(e);
        },
        Ok(Some(end)) => {
            return Ok(Some((MdPiece::RawLine(Span { start: pos, end }), end)));
        },
        Ok(None) => {},
    }
    match non_actionable_code_block(s, n, pos) {
        Err(e) => {
            return Err(e);
        },
        Ok(Some(end)) => {
            return Ok(Some((MdPiece::RawLine(Span { start: pos, end }), end)));
        },
        Ok(None) => {},
    }
    match find_char_x(s, n, pos, '\n') {
        Some(m) => {
            proof {
                lemma_find_char(s@, pos as int, '\n');
            }
            Ok(Some((MdPiece::RawLine(Span { start: pos, end: m + 1 }), m + 1)))
        },
        None => Err(ParseError { pos, kind: ParseErrorKind::ResidualText }),
    }
}

/// Tokenize the whole document: the executable mirror of
/// `spec_tokenize`, covering every character or failing with a
/// positioned parse error.
#[verifier::rlimit(60)]
pub fn tokenize(s: &str) -> (r: Result<Vec<MdPiece>, ParseError>)
    ensures
        match r {
            Ok(v) => spec_tokenize(s@, 0) == Ok::<Seq<MdPiece>, ParseError>(v@),
            Err(e) => spec_tokenize(s@, 0) == Err::<Seq<MdPiece>, ParseError>(e),
        },
{
    let n = s.unicode_len();
    let mut pieces: Vec<MdPiece> = Vec::new();
    let mut i: usize = 0;
    loop
        invariant
            n == s@.len(),
            i <= n,
            match spec_tokenize(s@, i as int) {
                Ok(rest) => spec_tokenize(s@, 0) == Ok::<Seq<MdPiece>, ParseError>(pieces@ + rest),
                Err(e) => spec_tokenize(s@, 0) == Err::<Seq<MdPiece>, ParseError>(e),
            },
        decreases n - i,
    {
        if i >= n {
            proof {
                assert(spec_tokenize(s@, i as int) == Ok::<Seq<MdPiece>, ParseError>(
                    Seq::<MdPiece>::empty(),
                ));
                assert(pieces@ + Seq::<MdPiece>::empty() =~= pieces@);
            }
            return Ok(pieces);
        }
        match markdown_piece(s, n, i) {
            Err(e) => {
                return Err(e);
            },
            Ok(None) => {
                return Err(ParseError { pos: i, kind: ParseErrorKind::ResidualText });
            },
            Ok(Some((p, end))) => {
                if !(i < end && end <= n) {
                    return Err(ParseError { pos: i, kind: ParseErrorKind::ResidualText });
                }
                let ghost old_pieces = pieces@;
                pieces.push(p);
                proof {
                    assert(pieces@ =~= old_pieces + seq![p]);
                    if spec_tokenize(s@, end as int) is Ok {
                        let rest = spec_tokenize(s@, end as int)->Ok_0;
                        assert(old_pieces + (seq![p] + rest) =~= (old_pieces + seq![p]) + rest);
                    }
                }
                i = end;
            },
        }
    }
}

} // verus!

verus! {

// ---------------------------------------------------------------------
// Environment line grammar
// ---------------------------------------------------------------------

/// Scan a double-quoted value from `i` (just after the opening quote) to
/// the closing quote.  Backslash may escape a quote, a backslash or a
/// newline; a raw newline or the end of input is an error.
pub open spec fn scan_dq(s: Seq<char>, i: int) -> Result<int, ParseError>
    decreases s.len() - i,
{
    if i < 0 || i >= s.len() {
        Err(ParseError { pos: i as usize, kind: ParseErrorKind::MalformedEnvLine })
    } else if s[i] == '"' {
        Ok(i)
    } else if s[i] == '\\' {
        if i + 1 < s.len() && (s[i + 1] == '\n' || s[i + 1] == '"' || s[i + 1] == '\\') {
            scan_dq(s, i + 2)
        } else {
            Err(ParseError { pos: i as usize, kind: ParseErrorKind::MalformedEnvLine })
        }
    } else if s[i] == '\n' {
        Err(ParseError { pos: i as usize, kind: ParseErrorKind::MalformedEnvLine })
    } else {
        scan_dq(s, i + 1)
    }
}

/// Scan a single-quoted value from `i` to the closing quote.  Backslash
/// may escape a quote or a backslash; raw newlines are allowed.
pub open spec fn scan_sq(s: Seq<char>, i: int) -> Result<int, ParseError>
    decreases s.len() - i,
{
    if i < 0 || i >= s.len() {
        Err(ParseError { pos: i as usize, kind: ParseErrorKind::MalformedEnvLine })
    } else if s[i] == '\'' {
        Ok(i)
    } else if s[i] == '\\' {
        if i + 1 < s.len() && (s[i + 1] == '\'' || s[i + 1] == '\\') {
            scan_sq(s, i + 2)
        } else {
            Err(ParseError { pos: i as usize, kind: ParseErrorKind::MalformedEnvLine })
        }
    } else {
        scan_sq(s, i + 1)
    }
}

/// One step of the environment block grammar at `pos`: a `#` comment
/// line or whitespace is skipped; otherwise the step must be a
/// `KEY=VALUE` assignment, whose key and value spans are returned with
/// the position where scanning continues.
pub open spec fn spec_env_line(s: Seq<char>, pos: int) -> Result<
    (Option<(Span, Span)>, int),
    ParseError,
> {
    if pos < 0 || pos >= s.len() {
        Ok((None, s.len() as int))
    } else if s[pos] == '#' {
        match find_char(s, pos, '\n') {
            Some(m) => Ok((None, m + 1)),
            None => Ok((None, s.len() as int)),
        }
    } else if is_multispace(s[pos]) {
        Ok((None, skip_multispace(s, pos)))
    } else if is_name_char(s[pos]) {
        let kend = skip_name_chars(s, pos);
        if kend >= s.len() || s[kend] != '=' {
            Err(ParseError { pos: kend as usize, kind: ParseErrorKind::MalformedEnvLine })
        } else {
            let vstart = kend + 1;
            if vstart < s.len() && s[vstart] == '"' {
                match scan_dq(s, vstart + 1) {
                    Err(e) => Err(e),
                    Ok(m) => if m + 1 < s.len() && !is_multispace(s[m + 1]) {
                        Err(
                            ParseError {
                                pos: (m + 1) as usize,
                                kind: ParseErrorKind::MalformedEnvLine,
                            },
                        )
                    } else {
                        Ok((Some((mk_span(pos, kend), mk_span(vstart + 1, m))), m + 1))
                    },
                }
            } else if vstart < s.len() && s[vstart] == '\'' {
                match scan_sq(s, vstart + 1) {
                    Err(e) => Err(e),
                    Ok(m) => if m + 1 < s.len() && !is_multispace(s[m + 1]) {
                        Err(
                            ParseError {
                                pos: (m + 1) as usize,
                                kind: ParseErrorKind::MalformedEnvLine,
                            },
                        )
                    } else {
                        Ok((Some((mk_span(pos, kend), mk_span(vstart + 1, m))), m + 1))
                    },
                }
            } else {
                let vend = skip_to_ws(s, vstart);
                Ok((Some((mk_span(pos, kend), mk_span(vstart, vend))), vend))
            }
        }
    } else {
        Err(ParseError { pos: pos as usize, kind: ParseErrorKind::MalformedEnvLine })
    }
}

/// Executable mirror of `scan_dq`.
pub fn scan_dq_x(s: &str, n: usize, pos: usize) -> (r: Result<usize, ParseError>)
    requires
        n == s@.len(),
    ensures
        match r {
            Ok(m) => scan_dq(s@, pos as int) == Ok::<int, ParseError>(m as int),
            Err(e) => scan_dq(s@, pos as int) == Err::<int, ParseError>(e),
        },
{
    let mut i: usize = pos;
    loop
        invariant
            n == s@.len(),
            pos <= i,
            scan_dq(s@, pos as int) == scan_dq(s@, i as int),
        decreases n + 1 - i,
    {
        if i >= n {
            return Err(ParseError { pos: i, kind: ParseErrorKind::MalformedEnvLine });
        }
        let c = s.get_char(i);
        if c == '"' {
            return Ok(i);
        }
        if c == '\\' {
            if i + 1 < n {
                let d = s.get_char(i + 1);
                if d == '\n' || d == '"' || d == '\\' {
                    i = i + 2;
                    continue;
                }
            }
            return Err(ParseError { pos: i, kind: ParseErrorKind::MalformedEnvLine });
        }
        if c == '\n' {
            return Err(ParseError { pos: i, kind: ParseErrorKind::MalformedEnvLine });
        }
        i = i + 1;
    }
}

/// Executable mirror of `scan_sq`.
pub fn scan_sq_x(s: &str, n: usize, pos: usize) -> (r: Result<usize, ParseError>)
    requires
        n == s@.len(),
    ensures
        match r {
            Ok(m) => scan_sq(s@, pos as int) == Ok::<int, ParseError>(m as int),
            Err(e) => scan_sq(s@, pos as int) == Err::<int, ParseError>(e),
        },
{
    let mut i: usize = pos;
    loop
        invariant
            n == s@.len(),
            pos <= i,
            scan_sq(s@, pos as int) == scan_sq(s@, i as int),
        decreases n + 1 - i,
    {
        if i >= n {
            return Err(ParseError { pos: i, kind: ParseErrorKind::MalformedEnvLine });
        }
        let c = s.get_char(i);
        if c == '\'' {
            return Ok(i);
        }
        if c == '\\' {
            if i + 1 < n {
                let d = s.get_char(i + 1);
                if d == '\'' || d == '\\' {
                    i = i + 2;
                    continue;
                }
            }
            return Err(ParseError { pos: i, kind: ParseErrorKind::MalformedEnvLine });
        }
        i = i + 1;
    }
}

/// `scan_dq` stays between `i` and the end of `s`.
pub proof fn lemma_scan_dq(s: Seq<char>, i: int)
    ensures
        match scan_dq(s, i) {
            Ok(m) => i <= m < s.len(),
            Err(e) => true,
        },
    decreases s.len() - i,
{
    if i < 0 || i >= s.len() {
    } else if s[i] == '"' {
    } else if s[i] == '\\' {
        if i + 1 < s.len() && (s[i + 1] == '\n' || s[i + 1] == '"' || s[i + 1] == '\\') {
            lemma_scan_dq(s, i + 2);
        }
    } else if s[i] == '\n' {
    } else {
        lemma_scan_dq(s, i + 1);
    }
}

/// `scan_sq` stays between `i` and the end of `s`.
pub proof fn lemma_scan_sq(s: Seq<char>, i: int)
    ensures
        match scan_sq(s, i) {
            Ok(m) => i <= m < s.len(),
            Err(e) => true,
        },
    decreases s.len() - i,
{
    if i < 0 || i >= s.len() {
    } else if s[i] == '\'' {
    } else if s[i] == '\\' {
        if i + 1 < s.len() && (s[i + 1] == '\'' || s[i + 1] == '\\') {
            lemma_scan_sq(s, i + 2);
        }
    } else {
        lemma_scan_sq(s, i + 1);
    }
}

/// Executable mirror of `spec_env_line`: one step of the environment
/// block grammar.
pub fn env_var_line(s: &str, n: usize, pos: usize) -> (r: Result<
    (Option<(Span, Span)>, usize),
    ParseError,
>)
    requires
        n == s@.len(),
    ensures
        match r {
            Ok((kv, next)) => spec_env_line(s@, pos as int) == Ok::<
                (Option<(Span, Span)>, int),
                ParseError,
            >((kv, next as int)),
            Err(e) => spec_env_line(s@, pos as int) == Err::<
                (Option<(Span, Span)>, int),
                ParseError,
            >(e),
        },
{
    if pos >= n {
        return Ok((None, n));
    }
    let c = s.get_char(pos);
    if c == '#' {
        match find_char_x(s, n, pos, '\n') {
            Some(m) => {
                proof {
                    lemma_find_char(s@, pos as int, '\n');
                }
                Ok((None, m + 1))
            },
            None => Ok((None, n)),
        }
    } else if is_multispace_x(c) {
        Ok((None, skip_multispace_x(s, n, pos)))
    } else if is_name_char_x(c) {
        let kend = skip_name_chars_x(s, n, pos);
        proof {
            lemma_skip_name_chars(s@, pos as int);
        }
        if kend >= n || s.get_char(kend) != '=' {
            return Err(ParseError { pos: kend, kind: ParseErrorKind::MalformedEnvLine });
        }
        let vstart = kend + 1;
        if vstart < n && s.get_char(vstart) == '"' {
            match scan_dq_x(s, n, vstart + 1) {
                Err(e) => Err(e),
                Ok(m) => {
                    proof {
                        lemma_scan_dq(s@, vstart + 1 as int);
                    }
                    if m + 1 < n && !is_multispace_x(s.get_char(m + 1)) {
                        Err(ParseError { pos: m + 1, kind: ParseErrorKind::MalformedEnvLine })
                    } else {
                        Ok(
                            (
                                Some(
                                    (
                                        Span { start: pos, end: kend },
                                        Span { start: vstart + 1, end: m },
                                    ),
                                ),
                                m + 1,
                            ),
                        )
                    }
                },
            }
        } else if vstart < n && s.get_char(vstart) == '\'' {
            match scan_sq_x(s, n, vstart + 1) {
                Err(e) => Err(e),
                Ok(m) => {
                    proof {
                        lemma_scan_sq(s@, vstart + 1 as int);
                    }
                    if m + 1 < n && !is_multispace_x(s.get_char(m + 1)) {
                        Err(ParseError { pos: m + 1, kind: ParseErrorKind::MalformedEnvLine })
                    } else {
                        Ok(
                            (
                                Some(
                                    (
                                        Span { start: pos, end: kend },
                                        Span { start: vstart + 1, end: m },
                                    ),
                                ),
                                m + 1,
                            ),
                        )
                    }
                },
            }
        } else {
            let vend = skip_to_ws_x(s, n, vstart);
            proof {
                if vstart <= n {
                    lemma_skip_to_ws(s@, vstart as int);
                }
            }
            Ok((Some((Span { start: pos, end: kend }, Span { start: vstart, end: vend })), vend))
        }
    } else {
        Err(ParseError { pos, kind: ParseErrorKind::MalformedEnvLine })
    }
}

} // verus!

verus! {

// ---------------------------------------------------------------------
// Well-formedness of the pieces a parse produces
// ---------------------------------------------------------------------

/// A span lies inside a document of `n` characters.
pub open spec fn span_wf(sp: Span, n: int) -> bool {
    sp.start <= sp.end <= n
}

/// Every span of an action lies inside a document of `n` characters.
pub open spec fn action_wf(a: Action, n: int) -> bool {
    &&& match a.data_line {
        Some(sp) => span_wf(sp, n),
        None => true,
    }
    &&& match a.data {
        Some(sp) => span_wf(sp, n),
        None => true,
    }
    &&& match a.command.out_type {
        OutType::CodeBlock(sp) => span_wf(sp, n),
        _ => true,
    }
}

/// Every span of a piece lies inside a document of `n` characters.
pub open spec fn piece_wf(p: MdPiece, n: int) -> bool {
    &&& span_wf(p.source(), n)
    &&& match p {
        MdPiece::Action(_, a) => action_wf(a, n),
        _ => true,
    }
}

/// A command parsed inside `s[pos..end]` has a well-formed language
/// span and continues inside the region.
pub proof fn lemma_command_wf(s: Seq<char>, pos: int, end: int)
    requires
        s.len() <= usize::MAX,
        0 <= pos,
        end <= s.len(),
    ensures
        match spec_command(s, pos, end) {
            Some((c, cp)) => pos <= cp <= end && action_wf(
                Action { command: c, data_line: None, data: None },
                s.len() as int,
            ),
            None => true,
        },
{
    if pos < 0 || pos >= end || end > s.len() {
    } else {
        lemma_skip_spaces(s, pos + 1);
        if s[pos] == '>' {
            let p1 = skip_spaces(s, pos + 1);
            if p1 <= end {
                lemma_skip_filepath_chars(s, p1, end);
            }
            let fp_end = skip_filepath_chars(s, p1, end);
            if 0 <= fp_end <= s.len() {
                lemma_skip_spaces(s, fp_end);
            }
            lemma_in_type_wf(s, pos + 1, end);
            if p1 <= fp_end <= end {
                lemma_in_type_wf(s, fp_end, end);
            }
        } else {
            lemma_in_type_wf(s, pos + 1, end);
        }
    }
}

/// The in-selector continues inside the region.
pub proof fn lemma_in_type_wf(s: Seq<char>, pos: int, end: int)
    requires
        0 <= pos <= s.len(),
        pos <= end <= s.len(),
    ensures
        forall|out: OutType| pos <= (#[trigger] spec_in_type(s, pos, end, out)).1 <= end,
{
    lemma_skip_spaces(s, pos);
}

/// A recognized inline code action ends after `pos`, within the
/// document, with well-formed spans.
pub proof fn lemma_inline_code_wf(s: Seq<char>, pos: int)
    requires
        s.len() <= usize::MAX,
        0 <= pos <= s.len(),
    ensures
        match spec_inline_code(s, pos) {
            Some((a, end)) => pos < end <= s.len() && action_wf(a, s.len() as int),
            None => true,
        },
{
    if pos < 0 || pos >= s.len() || s[pos] != '`' {
    } else {
        let two = pos + 1 < s.len() && s[pos + 1] == '`';
        let q: int = if two {
            2
        } else {
            1
        };
        let cstart = pos + q;
        if two {
            lemma_find_lit(s, cstart, tick2());
        } else {
            lemma_find_lit(s, cstart, tick1());
        }
        lemma_find_char(s, cstart, '\n');
        let closer = if two {
            find_lit(s, cstart, tick2())
        } else {
            find_lit(s, cstart, tick1())
        };
        match closer {
            None => {},
            Some(e) => {
                lemma_command_wf(s, cstart, e);
                match spec_command(s, cstart, e) {
                    None => {},
                    Some((cmd, cp)) => {
                        if 0 <= cp <= s.len() {
                            lemma_skip_spaces(s, cp);
                        }
                    },
                }
            },
        }
    }
}

/// A recognized link action ends after `pos`, within the document,
/// with well-formed spans.
pub proof fn lemma_link_wf(s: Seq<char>, pos: int)
    requires
        s.len() <= usize::MAX,
        0 <= pos <= s.len(),
    ensures
        match spec_link(s, pos) {
            Ok(Some((a, end))) => pos < end <= s.len() && action_wf(a, s.len() as int),
            _ => true,
        },
{
    if pos < 0 || pos >= s.len() || s[pos] != '[' {
    } else {
        lemma_command_wf(s, pos + 1, s.len() as int);
        match spec_command(s, pos + 1, s.len() as int) {
            None => {},
            Some((cmd, cp)) => {
                lemma_find_char(s, cp, ']');
                match find_char(s, cp, ']') {
                    None => {},
                    Some(j) => {
                        if j + 2 <= s.len() {
                            lemma_skip_filepath_chars(s, j + 2, s.len() as int);
                        }
                    },
                }
            },
        }
    }
}

/// A recognized comment action ends after `pos`, within the document,
/// with well-formed spans.
pub proof fn lemma_actionable_comment_wf(s: Seq<char>, pos: int)
    requires
        s.len() <= usize::MAX,
        0 <= pos <= s.len(),
    ensures
        match spec_actionable_comment(s, pos) {
            Some((a, end)) => pos < end <= s.len() && action_wf(a, s.len() as int),
            None => true,
        },
{
    if !lit_at(s, pos, comment_open()) {
    } else {
        lemma_find_lit(s, pos + 4, comment_close());
        match find_lit(s, pos + 4, comment_close()) {
            None => {},
            Some(i) => {
                lemma_skip_spaces(s, i + 3);
                lemma_skip_spaces(s, pos + 4);
                let k = skip_spaces(s, pos + 4);
                lemma_command_wf(s, k, i);
                match spec_command(s, k, i) {
                    None => {},
                    Some((cmd, cp)) => {
                        let k2a = skip_spaces(s, cp);
                        if 0 <= cp <= s.len() {
                            lemma_skip_spaces(s, cp);
                        }
                        let k2 = if k2a > i {
                            i
                        } else {
                            k2a
                        };
                        lemma_find_char(s, k2, '\n');
                        let dl_end: int = match find_char(s, k2, '\n') {
                            Some(m) => if m < i {
                                m
                            } else {
                                i
                            },
                            None => i,
                        };
                        if 0 <= k2 <= dl_end {
                            lemma_trim_ws_end(s, k2, dl_end);
                        }
                    },
                }
            },
        }
    }
}

/// A recognized fence opener lies between `pos` and the end of the
/// document.
pub proof fn lemma_fence_open_wf(s: Seq<char>, pos: int)
    requires
        0 <= pos <= s.len(),
    ensures
        match spec_fence_open(s, pos) {
            Some(fe) => pos <= fe <= s.len(),
            None => true,
        },
{
    lemma_skip_spaces(s, pos);
    let i0 = skip_spaces(s, pos);
    if i0 < s.len() && (s[i0] == '`' || s[i0] == '~') {
        lemma_skip_run(s, i0, s[i0]);
    }
}

/// The body of a fenced block ends after the meta line, within the
/// document, with a well-formed data span.
pub proof fn lemma_code_block_tail_wf(s: Seq<char>, meta_nl: int, qa: int, qb: int)
    requires
        s.len() <= usize::MAX,
        0 <= meta_nl < s.len(),
        0 <= qa <= qb,
    ensures
        match spec_code_block_tail(s, meta_nl, qa, qb) {
            Ok((d, end)) => meta_nl < end <= s.len() && span_wf(d, s.len() as int) && d.start
                == meta_nl + 1,
            Err(e) => true,
        },
{
    let bstart = meta_nl + 1;
    if span_at(s, bstart, qa, qb) {
    } else {
        lemma_find_closer(s, bstart, qa, qb);
    }
}

/// A recognized actionable code block ends after `pos`, within the
/// document, with well-formed spans.
pub proof fn lemma_actionable_code_block_wf(s: Seq<char>, pos: int)
    requires
        s.len() <= usize::MAX,
        0 <= pos <= s.len(),
    ensures
        match spec_actionable_code_block(s, pos) {
            Ok(Some((a, end))) => pos < end <= s.len() && action_wf(a, s.len() as int),
            _ => true,
        },
{
    lemma_fence_open_wf(s, pos);
    match spec_fence_open(s, pos) {
        None => {},
        Some(fe) => {
            lemma_find_char(s, fe, '\n');
            match find_char(s, fe, '\n') {
                None => {},
                Some(nl) => {
                    lemma_skip_filepath_chars(s, fe, nl);
                    let sl_end = skip_filepath_chars(s, fe, nl);
                    lemma_skip_spaces(s, sl_end);
                    let k = skip_spaces(s, sl_end);
                    lemma_command_wf(s, k, nl);
                    match spec_command(s, k, nl) {
                        None => {},
                        Some((cmd, cp)) => {
                            if 0 <= cp <= s.len() {
                                lemma_skip_spaces(s, cp);
                            }
                            lemma_code_block_tail_wf(s, nl, pos, fe);
                        },
                    }
                },
            }
        },
    }
}

/// A recognized plain code block ends after `pos`, within the document.
pub proof fn lemma_plain_code_block_wf(s: Seq<char>, pos: int)
    requires
        s.len() <= usize::MAX,
        0 <= pos <= s.len(),
    ensures
        match spec_plain_code_block(s, pos) {
            Ok(Some(end)) => pos < end <= s.len(),
            _ => true,
        },
{
    lemma_fence_open_wf(s, pos);
    match spec_fence_open(s, pos) {
        None => {},
        Some(fe) => {
            lemma_find_char(s, fe, '\n');
            match find_char(s, fe, '\n') {
                None => {},
                Some(nl) => {
                    lemma_code_block_tail_wf(s, nl, pos, fe);
                },
            }
        },
    }
}

/// The sentinel scan ends at or after its start, within the document.
pub proof fn lemma_sentinel_scan_wf(s: Seq<char>, pos: int, depth: int)
    requires
        0 <= pos,
    ensures
        match spec_sentinel_scan(s, pos, depth) {
            Ok(end) => pos < end <= s.len(),
            Err(e) => true,
        },
    decreases s.len() - pos,
{
    if pos < 0 || pos >= s.len() {
    } else if lit_at(s, pos, begin_marker()) {
        lemma_sentinel_scan_wf(s, pos + 19, depth + 1);
    } else if lit_at(s, pos, end_marker()) {
        if depth == 0 {
            lemma_skip_spaces(s, pos + 17);
        } else {
            lemma_sentinel_scan_wf(s, pos + 17, depth - 1);
        }
    } else {
        lemma_sentinel_scan_wf(s, pos + 1, depth);
    }
}

/// A recognized generated block ends after `pos`, within the document.
pub proof fn lemma_sentinel_block_wf(s: Seq<char>, pos: int)
    requires
        0 <= pos <= s.len(),
    ensures
        match spec_sentinel_block(s, pos) {
            Ok(Some(end)) => pos < end <= s.len(),
            _ => true,
        },
{
    if 0 <= pos < s.len() && s[pos] == '\n' && lit_at(s, pos + 1, begin_marker()) {
        lemma_sentinel_scan_wf(s, pos + 21, 0);
    } else if lit_at(s, pos, begin_marker()) {
        lemma_sentinel_scan_wf(s, pos + 20, 0);
    }
}

/// A recognized piece ends after `pos`, within the document, covers
/// exactly `s[pos..end]`, and all its spans are well formed.
pub proof fn lemma_markdown_piece_wf(s: Seq<char>, pos: int)
    requires
        s.len() <= usize::MAX,
        0 <= pos <= s.len(),
    ensures
        match spec_markdown_piece(s, pos) {
            Ok(Some((p, end))) => pos < end <= s.len() && p.source() == mk_span(pos, end)
                && piece_wf(p, s.len() as int),
            _ => true,
        },
{
    lemma_sentinel_block_wf(s, pos);
    lemma_actionable_code_block_wf(s, pos);
    lemma_inline_code_wf(s, pos);
    lemma_link_wf(s, pos);
    lemma_actionable_comment_wf(s, pos);
    lemma_plain_code_block_wf(s, pos);
    lemma_find_char(s, pos, '\n');
    if lit_at(s, pos, comment_open()) {
        lemma_find_lit(s, pos + 4, comment_close());
    }
}

/// Every piece of a successful parse is well formed, and the pieces
/// tile the document from `pos` to its end without gap or overlap.
pub proof fn lemma_tokenize_wf(s: Seq<char>, pos: int)
    requires
        s.len() <= usize::MAX,
        0 <= pos <= s.len(),
    ensures
        match spec_tokenize(s, pos) {
            Ok(ps) => {
                &&& forall|j: int| 0 <= j < ps.len() ==> piece_wf(#[trigger] ps[j], s.len() as int)
                &&& (ps.len() == 0 ==> pos == s.len())
                &&& (ps.len() > 0 ==> ps[0].source().start == pos && ps[ps.len()
                    - 1].source().end == s.len())
                &&& forall|j: int|
                    0 <= j < ps.len() - 1 ==> (#[trigger] ps[j].source()).end == ps[j
                        + 1].source().start
            },
            Err(e) => true,
        },
    decreases s.len() - pos,
{
    if pos < 0 || pos >= s.len() {
    } else {
        lemma_markdown_piece_wf(s, pos);
        match spec_markdown_piece(s, pos) {
            Err(e) => {},
            Ok(None) => {},
            Ok(Some((p, end))) => {
                if pos < end <= s.len() {
                    lemma_tokenize_wf(s, end);
                }
            },
        }
    }
}

} // verus!

verus! {

/// The key and value spans of an assignment lie inside the block.
pub proof fn lemma_env_line_wf(s: Seq<char>, pos: int)
    requires
        0 <= pos <= s.len(),
        s.len() <= usize::MAX,
    ensures
        match spec_env_line(s, pos) {
            Ok((Some((k, v)), next)) => k.start <= k.end <= s.len() && v.start <= v.end <= s.len(),
            _ => true,
        },
{
    if 0 <= pos && pos < s.len() && is_name_char(s[pos]) {
        lemma_skip_name_chars(s, pos);
        let kend = skip_name_chars(s, pos);
        if kend < s.len() && s[kend] == '=' {
            let vstart = kend + 1;
            lemma_scan_dq(s, vstart + 1);
            lemma_scan_sq(s, vstart + 1);
            if vstart <= s.len() {
                lemma_skip_to_ws(s, vstart);
            }
        }
    }
}

} // verus!
