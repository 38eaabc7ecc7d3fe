//! The grammar, stated as specification functions over character sequences.
//!
//! ```text
//! graph      := ["strict"] ("graph"|"digraph") [ID] "{" stmt* "}"
//! stmt       := (edge_stmt | node_stmt) [";"]
//! edge_stmt  := ID edge_op ID attr_list
//! edge_op    := "->" (if digraph) | "--" (if graph)
//! node_stmt  := ID attr_list
//! attr_list  := ("[" (ID "=" ID [sep])* "]")*
//! sep        := "," | ";"
//! ID         := bareword | numeral | quoted
//! ```
//!
//! Each function takes the whole input and a position, and on success returns
//! the position after the recognized unit together with the recognized value.
//! The executable recognizer in `parser` is proved to return exactly what
//! these functions describe.

use vstd::prelude::*;

use crate::model::{SpecAttrs, SpecGraph, SpecStmt};

verus! {

// ---------------------------------------------------------------------------
// Character classes and keywords
// ---------------------------------------------------------------------------

/// Whitespace tolerated between tokens: space, tab, carriage return, newline.
pub open spec fn is_ws_char(c: char) -> bool {
    c == ' ' || c == '\t' || c == '\r' || c == '\n'
}

/// An ASCII decimal digit.
pub open spec fn is_digit_char(c: char) -> bool {
    0x30 <= c as int && c as int <= 0x39
}

/// A character that may open a bareword: underscore, ASCII letter, or a
/// character in the high range 0x80..=0xFF.
pub open spec fn is_name_start_char(c: char) -> bool {
    ||| c == '_'
    ||| 0x41 <= c as int && c as int <= 0x5a
    ||| 0x61 <= c as int && c as int <= 0x7a
    ||| 0x80 <= c as int && c as int <= 0xff
}

/// A character that may continue a bareword: a bareword opener or a digit.
pub open spec fn is_name_char(c: char) -> bool {
    is_name_start_char(c) || is_digit_char(c)
}

/// The code of a character with an upper-case ASCII letter folded to lower case.
pub open spec fn lower_code(c: char) -> int {
    if 0x41 <= c as int && c as int <= 0x5a {
        c as int + 0x20
    } else {
        c as int
    }
}

/// The keyword `kw` occurs at position `i` of `s`, compared ASCII
/// case-insensitively.
pub open spec fn keyword_at(s: Seq<char>, i: int, kw: Seq<char>) -> bool {
    &&& 0 <= i
    &&& i + kw.len() <= s.len()
    &&& forall|t: int| 0 <= t < kw.len() ==> lower_code(s[i + t]) == lower_code(kw[t])
}

pub open spec fn strict_kw() -> Seq<char> {
    seq!['s', 't', 'r', 'i', 'c', 't']
}

pub open spec fn graph_kw() -> Seq<char> {
    seq!['g', 'r', 'a', 'p', 'h']
}

pub open spec fn digraph_kw() -> Seq<char> {
    seq!['d', 'i', 'g', 'r', 'a', 'p', 'h']
}

// ---------------------------------------------------------------------------
// Whitespace skipping
// ---------------------------------------------------------------------------

/// The position after consuming every whitespace character from `i` on.
/// Total: on no whitespace it returns `i` itself.
pub open spec fn spec_skip_ws(s: Seq<char>, i: int) -> int
    decreases s.len() - i,
{
    if 0 <= i < s.len() && is_ws_char(s[i]) {
        spec_skip_ws(s, i + 1)
    } else {
        i
    }
}

pub proof fn lemma_skip_ws_bounds(s: Seq<char>, i: int)
    requires
        0 <= i <= s.len(),
    ensures
        i <= spec_skip_ws(s, i) <= s.len(),
    decreases s.len() - i,
{
    if i < s.len() && is_ws_char(s[i]) {
        lemma_skip_ws_bounds(s, i + 1);
    }
}

/// Skipping whitespace is idempotent: a second run from the reached position
/// consumes nothing more.
pub proof fn lemma_skip_ws_idempotent(s: Seq<char>, i: int)
    requires
        0 <= i <= s.len(),
    ensures
        spec_skip_ws(s, spec_skip_ws(s, i)) == spec_skip_ws(s, i),
    decreases s.len() - i,
{
    if i < s.len() && is_ws_char(s[i]) {
        lemma_skip_ws_idempotent(s, i + 1);
    }
}

// ---------------------------------------------------------------------------
// Identifiers
// ---------------------------------------------------------------------------


/// The end of a run of bareword characters starting at `i`.
pub open spec fn spec_scan_name(s: Seq<char>, i: int) -> int
    decreases s.len() - i,
{
    if 0 <= i < s.len() && is_name_char(s[i]) {
        spec_scan_name(s, i + 1)
    } else {
        i
    }
}

/// The end of a run of digits starting at `i`.
pub open spec fn spec_scan_digits(s: Seq<char>, i: int) -> int
    decreases s.len() - i,
{
    if 0 <= i < s.len() && is_digit_char(s[i]) {
        spec_scan_digits(s, i + 1)
    } else {
        i
    }
}

/// The end of a numeral at `i`, if one occurs there:
/// `[-]? ( "." digit+ | digit+ ( "." digit* )? )`.
pub open spec fn spec_numeral_end(s: Seq<char>, i: int) -> Option<int> {
    let k = if 0 <= i < s.len() && s[i] == '-' {
        i + 1
    } else {
        i
    };
    if k < s.len() && s[k] == '.' {
        if k + 1 < s.len() && is_digit_char(s[k + 1]) {
            Some(spec_scan_digits(s, k + 1))
        } else {
            None
        }
    } else if k < s.len() && is_digit_char(s[k]) {
        let d = spec_scan_digits(s, k);
        if d < s.len() && s[d] == '.' {
            Some(spec_scan_digits(s, d + 1))
        } else {
            Some(d)
        }
    } else {
        None
    }
}

/// The body of a quoted identifier, read from `i` (just after the opening
/// quote) to the closing quote. Every character except `"` and `\` is copied
/// literally; `\"` is unescaped to `"`; a backslash followed by anything else
/// fails, as does a missing closing quote.
pub open spec fn spec_quoted_body(s: Seq<char>, i: int) -> Option<(int, Seq<char>)>
    decreases s.len() - i,
{
    if i < 0 || i >= s.len() {
        None
    } else if s[i] == '"' {
        Some((i + 1, Seq::empty()))
    } else if s[i] == '\\' {
        if i + 1 < s.len() && s[i + 1] == '"' {
            match spec_quoted_body(s, i + 2) {
                Some((j, t)) => Some((j, seq!['"'] + t)),
                None => None,
            }
        } else {
            None
        }
    } else {
        match spec_quoted_body(s, i + 1) {
            Some((j, t)) => Some((j, seq![s[i]] + t)),
            None => None,
        }
    }
}

/// An identifier at `i`: bareword, numeral or quoted form, tried in that
/// order (the forms are disjoint on their leading character). On success the
/// result holds the position after the identifier and its trailing
/// whitespace, and the identifier's textual value.
pub open spec fn spec_parse_id(s: Seq<char>, i: int) -> Option<(int, Seq<char>)> {
    if 0 <= i < s.len() && is_name_start_char(s[i]) {
        let j = spec_scan_name(s, i + 1);
        Some((spec_skip_ws(s, j), s.subrange(i, j)))
    } else if spec_numeral_end(s, i) is Some {
        let j = spec_numeral_end(s, i)->0;
        Some((spec_skip_ws(s, j), s.subrange(i, j)))
    } else if 0 <= i < s.len() && s[i] == '"' {
        match spec_quoted_body(s, i + 1) {
            Some((j, t)) => Some((spec_skip_ws(s, j), t)),
            None => None,
        }
    } else {
        None
    }
}

// ---------------------------------------------------------------------------
// Attribute lists
// ---------------------------------------------------------------------------

/// One `key = value` pair with its optional single separator (`,` or `;`)
/// and the separator's trailing whitespace.
pub open spec fn spec_parse_pair(s: Seq<char>, i: int) -> Option<(int, (Seq<char>, Seq<char>))> {
    match spec_parse_id(s, i) {
        Some((j, key)) => if j < s.len() && s[j] == '=' {
            match spec_parse_id(s, j + 1) {
                Some((m, value)) => if m < s.len() && (s[m] == ',' || s[m] == ';') {
                    Some((spec_skip_ws(s, m + 1), (key, value)))
                } else {
                    Some((m, (key, value)))
                },
                None => None,
            }
        } else {
            None
        },
        None => None,
    }
}

/// Zero or more pairs inside one bracket group. Total: stops at the first
/// position where no pair occurs.
pub open spec fn spec_parse_pairs(s: Seq<char>, i: int) -> (int, SpecAttrs)
    decreases s.len() - i,
{
    match spec_parse_pair(s, i) {
        Some((j, p)) => if i < j <= s.len() {
            let (k, rest) = spec_parse_pairs(s, j);
            (k, seq![p] + rest)
        } else {
            (i, Seq::empty())
        },
        None => (i, Seq::empty()),
    }
}

/// Zero or more bracket groups, their pairs concatenated in source order.
/// A malformed group (no closing `]`) is not consumed at all. Total.
pub open spec fn spec_parse_groups(s: Seq<char>, i: int) -> (int, SpecAttrs)
    decreases s.len() - i,
{
    if 0 <= i < s.len() && s[i] == '[' {
        let (j, pairs) = spec_parse_pairs(s, i + 1);
        if j < s.len() && s[j] == ']' {
            if i < j + 1 <= s.len() {
                let (k, rest) = spec_parse_groups(s, j + 1);
                (k, pairs + rest)
            } else {
                (i, Seq::empty())
            }
        } else {
            (i, Seq::empty())
        }
    } else {
        (i, Seq::empty())
    }
}

/// An attribute list: leading whitespace, then zero or more bracket groups.
/// Always succeeds; an absent list yields the empty sequence.
pub open spec fn spec_parse_attrs(s: Seq<char>, i: int) -> (int, SpecAttrs) {
    spec_parse_groups(s, spec_skip_ws(s, i))
}

// ---------------------------------------------------------------------------
// Statements
// ---------------------------------------------------------------------------

/// The trailing part of every statement: whitespace, then one optional `;`.
pub open spec fn spec_stmt_end(s: Seq<char>, i: int) -> int {
    let j = spec_skip_ws(s, i);
    if j < s.len() && s[j] == ';' {
        j + 1
    } else {
        j
    }
}

/// A single statement: an edge statement when the direction-specific
/// operator (`->` if directed, `--` if undirected) follows the first
/// identifier, otherwise a node statement.
pub open spec fn spec_parse_statement(s: Seq<char>, i: int, directed: bool) -> Option<
    (int, SpecStmt),
> {
    let i1 = spec_skip_ws(s, i);
    match spec_parse_id(s, i1) {
        None => None,
        Some((j, id1)) => {
            let j1 = spec_skip_ws(s, j);
            let op2 = if directed {
                '>'
            } else {
                '-'
            };
            if j1 + 1 < s.len() && s[j1] == '-' && s[j1 + 1] == op2 {
                let j2 = spec_skip_ws(s, j1 + 2);
                match spec_parse_id(s, j2) {
                    None => None,
                    Some((m, id2)) => {
                        let (a_end, attrs) = spec_parse_attrs(s, m);
                        Some(
                            (
                                spec_stmt_end(s, a_end),
                                SpecStmt::Edge { from: id1, to: id2, attrs },
                            ),
                        )
                    },
                }
            } else {
                let (a_end, attrs) = spec_parse_attrs(s, j);
                Some((spec_stmt_end(s, a_end), SpecStmt::Node { id: id1, attrs }))
            }
        },
    }
}

/// Zero or more statements. Total: stops at the first position where no
/// statement is recognized, consuming nothing of the failed attempt.
pub open spec fn spec_parse_stmts(s: Seq<char>, i: int, directed: bool) -> (int, Seq<SpecStmt>)
    decreases s.len() - i,
{
    match spec_parse_statement(s, i, directed) {
        Some((j, st)) => if i < j <= s.len() {
            let (k, rest) = spec_parse_stmts(s, j, directed);
            (k, seq![st] + rest)
        } else {
            (i, Seq::empty())
        },
        None => (i, Seq::empty()),
    }
}

// ---------------------------------------------------------------------------
// The top-level document
// ---------------------------------------------------------------------------

/// The whole document: optional `strict`, mandatory direction keyword,
/// optional identifier, braced statement list, and nothing but whitespace to
/// the end of the input. `None` on any failure.
pub open spec fn spec_parse_graph(s: Seq<char>) -> Option<SpecGraph> {
    let i1 = spec_skip_ws(s, 0);
    let strict = keyword_at(s, i1, strict_kw());
    let i2 = if strict {
        spec_skip_ws(s, i1 + strict_kw().len())
    } else {
        spec_skip_ws(s, i1)
    };
    let dir = if keyword_at(s, i2, digraph_kw()) {
        Some((true, spec_skip_ws(s, i2 + digraph_kw().len())))
    } else if keyword_at(s, i2, graph_kw()) {
        Some((false, spec_skip_ws(s, i2 + graph_kw().len())))
    } else {
        None
    };
    match dir {
        None => None,
        Some((directed, i3)) => {
            let (i4, id) = match spec_parse_id(s, i3) {
                Some((j, name)) => (j, Some(name)),
                None => (i3, None),
            };
            if i4 < s.len() && s[i4] == '{' {
                let (i5, stmts) = spec_parse_stmts(s, i4 + 1, directed);
                let i6 = spec_skip_ws(s, i5);
                if i6 < s.len() && s[i6] == '}' {
                    let i7 = spec_skip_ws(s, i6 + 1);
                    if i7 == s.len() {
                        Some(SpecGraph { is_strict: strict, is_directed: directed, id, stmts })
                    } else {
                        None
                    }
                } else {
                    None
                }
            } else {
                None
            }
        },
    }
}

// ---------------------------------------------------------------------------
// Bounds and progress of the recognizers
// ---------------------------------------------------------------------------

pub proof fn lemma_scan_name_bounds(s: Seq<char>, i: int)
    requires
        0 <= i <= s.len(),
    ensures
        i <= spec_scan_name(s, i) <= s.len(),
    decreases s.len() - i,
{
    if i < s.len() && is_name_char(s[i]) {
        lemma_scan_name_bounds(s, i + 1);
    }
}

pub proof fn lemma_scan_digits_bounds(s: Seq<char>, i: int)
    requires
        0 <= i <= s.len(),
    ensures
        i <= spec_scan_digits(s, i) <= s.len(),
    decreases s.len() - i,
{
    if i < s.len() && is_digit_char(s[i]) {
        lemma_scan_digits_bounds(s, i + 1);
    }
}

pub proof fn lemma_numeral_bounds(s: Seq<char>, i: int)
    requires
        0 <= i <= s.len(),
    ensures
        spec_numeral_end(s, i) is Some ==> i < spec_numeral_end(s, i)->0 <= s.len(),
{
    let k = if i < s.len() && s[i] == '-' {
        i + 1
    } else {
        i
    };
    if k < s.len() && s[k] == '.' {
        if k + 1 < s.len() && is_digit_char(s[k + 1]) {
            lemma_scan_digits_bounds(s, k + 1);
        }
    } else if k < s.len() && is_digit_char(s[k]) {
        lemma_scan_digits_bounds(s, k + 1);
        let d = spec_scan_digits(s, k);
        if d < s.len() && s[d] == '.' {
            lemma_scan_digits_bounds(s, d + 1);
        }
    }
}

pub proof fn lemma_quoted_body_bounds(s: Seq<char>, i: int)
    requires
        0 <= i,
    ensures
        match spec_quoted_body(s, i) {
            Some((j, _t)) => i + 1 <= j <= s.len(),
            None => true,
        },
    decreases s.len() - i,
{
    if i < s.len() {
        if s[i] == '"' {
        } else if s[i] == '\\' {
            if i + 1 < s.len() && s[i + 1] == '"' {
                lemma_quoted_body_bounds(s, i + 2);
            }
        } else {
            lemma_quoted_body_bounds(s, i + 1);
        }
    }
}

pub proof fn lemma_parse_id_bounds(s: Seq<char>, i: int)
    requires
        0 <= i <= s.len(),
    ensures
        match spec_parse_id(s, i) {
            Some((j, _t)) => i < j <= s.len(),
            None => true,
        },
{
    if i < s.len() && is_name_start_char(s[i]) {
        lemma_scan_name_bounds(s, i + 1);
        lemma_skip_ws_bounds(s, spec_scan_name(s, i + 1));
    } else if spec_numeral_end(s, i) is Some {
        lemma_numeral_bounds(s, i);
        lemma_skip_ws_bounds(s, spec_numeral_end(s, i)->0);
    } else if i < s.len() && s[i] == '"' {
        lemma_quoted_body_bounds(s, i + 1);
        if spec_quoted_body(s, i + 1) is Some {
            let (jq, _tq) = spec_quoted_body(s, i + 1)->0;
            lemma_skip_ws_bounds(s, jq);
        }
    }
}

pub proof fn lemma_pair_bounds(s: Seq<char>, i: int)
    requires
        0 <= i <= s.len(),
    ensures
        match spec_parse_pair(s, i) {
            Some((j, _p)) => i < j <= s.len(),
            None => true,
        },
{
    lemma_parse_id_bounds(s, i);
    if spec_parse_id(s, i) is Some {
        let (j, _key) = spec_parse_id(s, i)->0;
        if j < s.len() && s[j] == '=' {
            lemma_parse_id_bounds(s, j + 1);
            if spec_parse_id(s, j + 1) is Some {
                let (m, _value) = spec_parse_id(s, j + 1)->0;
                if m < s.len() && (s[m] == ',' || s[m] == ';') {
                    lemma_skip_ws_bounds(s, m + 1);
                }
            }
        }
    }
}

pub proof fn lemma_pairs_bounds(s: Seq<char>, i: int)
    requires
        0 <= i <= s.len(),
    ensures
        i <= spec_parse_pairs(s, i).0 <= s.len(),
    decreases s.len() - i,
{
    lemma_pair_bounds(s, i);
    match spec_parse_pair(s, i) {
        Some((j, _p)) => {
            if i < j <= s.len() {
                lemma_pairs_bounds(s, j);
            }
        },
        None => {},
    }
}

pub proof fn lemma_groups_bounds(s: Seq<char>, i: int)
    requires
        0 <= i <= s.len(),
    ensures
        i <= spec_parse_groups(s, i).0 <= s.len(),
    decreases s.len() - i,
{
    if i < s.len() && s[i] == '[' {
        lemma_pairs_bounds(s, i + 1);
        let j = spec_parse_pairs(s, i + 1).0;
        if j < s.len() && s[j] == ']' {
            lemma_groups_bounds(s, j + 1);
        }
    }
}

pub proof fn lemma_attrs_bounds(s: Seq<char>, i: int)
    requires
        0 <= i <= s.len(),
    ensures
        i <= spec_parse_attrs(s, i).0 <= s.len(),
{
    lemma_skip_ws_bounds(s, i);
    lemma_groups_bounds(s, spec_skip_ws(s, i));
}

pub proof fn lemma_stmt_end_bounds(s: Seq<char>, i: int)
    requires
        0 <= i <= s.len(),
    ensures
        i <= spec_stmt_end(s, i) <= s.len(),
{
    lemma_skip_ws_bounds(s, i);
}

pub proof fn lemma_statement_bounds(s: Seq<char>, i: int, directed: bool)
    requires
        0 <= i <= s.len(),
    ensures
        match spec_parse_statement(s, i, directed) {
            Some((j, _st)) => i < j <= s.len(),
            None => true,
        },
{
    let i1 = spec_skip_ws(s, i);
    lemma_skip_ws_bounds(s, i);
    lemma_parse_id_bounds(s, i1);
    match spec_parse_id(s, i1) {
        None => {},
        Some((j, _id1)) => {
            let j1 = spec_skip_ws(s, j);
            lemma_skip_ws_bounds(s, j);
            let op2 = if directed {
                '>'
            } else {
                '-'
            };
            if j1 + 1 < s.len() && s[j1] == '-' && s[j1 + 1] == op2 {
                let j2 = spec_skip_ws(s, j1 + 2);
                lemma_skip_ws_bounds(s, j1 + 2);
                lemma_parse_id_bounds(s, j2);
                match spec_parse_id(s, j2) {
                    None => {},
                    Some((m, _id2)) => {
                        lemma_attrs_bounds(s, m);
                        lemma_stmt_end_bounds(s, spec_parse_attrs(s, m).0);
                    },
                }
            } else {
                lemma_attrs_bounds(s, j);
                lemma_stmt_end_bounds(s, spec_parse_attrs(s, j).0);
            }
        },
    }
}

// ---------------------------------------------------------------------------
// Laws of the grammar
// ---------------------------------------------------------------------------

/// `w` is the keyword `kw` written in some mix of upper and lower case.
pub open spec fn keyword_matches(w: Seq<char>, kw: Seq<char>) -> bool {
    w.len() == kw.len() && (forall|t: int|
        0 <= t < kw.len() ==> lower_code(w[t]) == lower_code(kw[t]))
}

/// A character that folds to a lower-case ASCII letter is itself a letter:
/// neither whitespace nor one of the grammar's punctuation marks.
proof fn lemma_folded_letter(c: char, k: char)
    requires
        lower_code(c) == lower_code(k),
        0x61 <= k as int <= 0x7a,
    ensures
        !is_ws_char(c),
        c != '{',
        c != '}',
        c != '"',
        c != '-',
        c != '.',
        !is_digit_char(c),
{
}

proof fn lemma_scan_name_run(s: Seq<char>, i: int, e: int)
    requires
        0 <= i <= e <= s.len(),
        forall|u: int| i <= u < e ==> is_name_char(s[u]),
        e == s.len() || !is_name_char(s[e]),
    ensures
        spec_scan_name(s, i) == e,
    decreases e - i,
{
    if i < e {
        lemma_scan_name_run(s, i + 1, e);
    }
}

/// A bareword identifier is captured verbatim: a run of bareword characters
/// opened by a bareword opener and ended by the input's end or a character
/// outside the class reads back as exactly that run of text.
pub proof fn lemma_bareword_identifier(s: Seq<char>, i: int, e: int)
    requires
        0 <= i < e <= s.len(),
        is_name_start_char(s[i]),
        forall|u: int| i < u < e ==> is_name_char(s[u]),
        e == s.len() || !is_name_char(s[e]),
    ensures
        spec_parse_id(s, i) == Some((spec_skip_ws(s, e), s.subrange(i, e))),
{
    lemma_scan_name_run(s, i + 1, e);
}

/// A quoted identifier with no escape in its body reads back exactly that
/// body: for content free of `"` and `\`, the quoted form yields the
/// content itself, internal spaces included.
pub proof fn lemma_quoted_plain_roundtrip(s: Seq<char>, i: int, t: Seq<char>)
    requires
        0 <= i,
        i + t.len() < s.len(),
        forall|u: int| 0 <= u < t.len() ==> s[i + u] == t[u],
        forall|u: int| 0 <= u < t.len() ==> t[u] != '"' && t[u] != '\\',
        s[i + t.len()] == '"',
    ensures
        spec_quoted_body(s, i) == Some((i + t.len() + 1, t)),
    decreases t.len(),
{
    if t.len() == 0 {
        assert(t =~= Seq::<char>::empty());
    } else {
        let rest = t.drop_first();
        assert(forall|u: int| 0 <= u < rest.len() ==> s[(i + 1) + u] == rest[u]);
        lemma_quoted_plain_roundtrip(s, i + 1, rest);
        assert(s[i] == t[0]);
        assert(seq![t[0]] + rest =~= t);
    }
}

/// A backslash followed by anything but a double quote is no supported
/// escape: recognition of the quoted form fails at that position.
pub proof fn lemma_escape_rejected(s: Seq<char>, i: int)
    requires
        0 <= i < s.len(),
        s[i] == '\\',
        i + 1 < s.len() ==> s[i + 1] != '"',
    ensures
        spec_quoted_body(s, i) is None,
{
}

/// For every combination of the optional `strict` modifier and the
/// mandatory direction keyword, each written in any mix of upper and lower
/// case, the otherwise-empty document built from them parses, and the
/// descriptor's flags are exactly the ones the keywords name.
/// The part every such document ends with: one space, an empty braced
/// body, and the end of the input.
proof fn lemma_empty_tail(s: Seq<char>, q: int, directed: bool)
    requires
        0 <= q,
        q + 3 == s.len(),
        s[q] == ' ',
        s[q + 1] == '{',
        s[q + 2] == '}',
    ensures
        spec_skip_ws(s, q) == q + 1,
        spec_parse_id(s, q + 1) is None,
        spec_parse_stmts(s, q + 2, directed) == (q + 2, Seq::<SpecStmt>::empty()),
        spec_skip_ws(s, q + 2) == q + 2,
        spec_skip_ws(s, q + 3) == q + 3,
{
    assert(!is_ws_char('{'));
    assert(!is_ws_char('}'));
    assert(spec_skip_ws(s, q + 1) == q + 1);
    assert(spec_skip_ws(s, q) == spec_skip_ws(s, q + 1));
    assert(spec_parse_id(s, q + 1) is None) by {
        assert(!is_name_start_char('{'));
        assert(spec_numeral_end(s, q + 1) is None);
        assert(s[q + 1] != '"');
    }
    assert(spec_skip_ws(s, q + 2) == q + 2);
    assert(spec_parse_id(s, q + 2) is None) by {
        assert(!is_name_start_char('}'));
        assert(spec_numeral_end(s, q + 2) is None);
        assert(s[q + 2] != '"');
    }
    assert(spec_parse_statement(s, q + 2, directed) is None);
    assert(spec_parse_stmts(s, q + 2, directed) == (q + 2, Seq::<SpecStmt>::empty()));
    assert(spec_skip_ws(s, q + 3) == q + 3);
}

/// For every combination of the optional `strict` modifier and the
/// mandatory direction keyword, each written in any mix of upper and lower
/// case, the otherwise-empty document built from them parses, and the
/// descriptor's flags are exactly the ones the keywords name.
#[verifier::rlimit(60)]
pub proof fn lemma_flags_follow_keywords(sw: Option<Seq<char>>, dw: Seq<char>, directed: bool)
    requires
        sw is Some ==> keyword_matches(sw->0, strict_kw()),
        directed ==> keyword_matches(dw, digraph_kw()),
        !directed ==> keyword_matches(dw, graph_kw()),
    ensures
        spec_parse_graph(
            (match sw {
                Some(w) => w + seq![' '],
                None => Seq::<char>::empty(),
            }) + dw + seq![' ', '{', '}'],
        ) == Some(
            SpecGraph {
                is_strict: sw is Some,
                is_directed: directed,
                id: None,
                stmts: Seq::<SpecStmt>::empty(),
            },
        ),
{
    let prefix = match sw {
        Some(w) => w + seq![' '],
        None => Seq::<char>::empty(),
    };
    let s = prefix + dw + seq![' ', '{', '}'];
    let plen = prefix.len() as int;
    let dlen = dw.len() as int;
    let kw = if directed {
        digraph_kw()
    } else {
        graph_kw()
    };
    assert(dlen == kw.len());
    assert(s.len() == plen + dlen + 3);
    assert forall|u: int| 0 <= u < dlen implies s[plen + u] == dw[u] by {}
    assert(s[plen + dlen] == ' ');
    assert(s[plen + dlen + 1] == '{');
    assert(s[plen + dlen + 2] == '}');

    // Leading whitespace: the first character folds to a letter.
    let k0 = if sw is Some {
        strict_kw()[0]
    } else {
        kw[0]
    };
    assert(lower_code(s[0]) == lower_code(k0));
    lemma_folded_letter(s[0], k0);
    assert(spec_skip_ws(s, 0) == 0);

    // The strict modifier is recognized exactly when it was written.
    if sw is Some {
        let w = sw->0;
        assert forall|u: int| 0 <= u < 6 implies lower_code(s[u]) == lower_code(
            strict_kw()[u],
        ) by {
            assert(s[u] == w[u]);
        }
        assert(keyword_at(s, 0, strict_kw()));
        assert(plen == 7);
        assert(s[6] == ' ');
        assert(lower_code(s[7]) == lower_code(kw[0]));
        lemma_folded_letter(s[7], kw[0]);
        assert(spec_skip_ws(s, 7) == 7);
        assert(spec_skip_ws(s, 6) == spec_skip_ws(s, 7));
    } else {
        assert(plen == 0);
        assert(!keyword_at(s, 0, strict_kw())) by {
            if keyword_at(s, 0, strict_kw()) {
                assert(lower_code(s[0]) == lower_code(strict_kw()[0]));
                lemma_folded_letter(s[0], strict_kw()[0]);
                assert(lower_code(dw[0]) == lower_code(kw[0]));
            }
        }
    }
    let i2 = if keyword_at(s, 0, strict_kw()) {
        spec_skip_ws(s, strict_kw().len() as int)
    } else {
        spec_skip_ws(s, 0)
    };
    assert(i2 == plen);

    // The direction keyword decides the direction flag.
    assert forall|u: int| 0 <= u < dlen implies lower_code(s[plen + u]) == lower_code(
        kw[u],
    ) by {
        assert(s[plen + u] == dw[u]);
    }
    if directed {
        assert(keyword_at(s, plen, digraph_kw()));
    } else {
        assert(!keyword_at(s, plen, digraph_kw())) by {
            if keyword_at(s, plen, digraph_kw()) {
                assert(lower_code(s[plen + 0]) == lower_code(digraph_kw()[0]));
                assert(lower_code(s[plen + 0]) == lower_code(graph_kw()[0]));
            }
        }
        assert(keyword_at(s, plen, graph_kw()));
    }
    lemma_empty_tail(s, plen + dlen, directed);
}

} // verus!
