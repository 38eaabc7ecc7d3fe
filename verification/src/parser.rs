//! The executable recognizer, proved against the grammar in `grammar`.
//!
//! The input is first widened to a vector of characters; every recognizer
//! below works on that vector with an explicit position, exactly as the
//! specification functions do.

use vstd::prelude::*;
use vstd::string::StrSliceExecFns;

use crate::grammar::{
    digraph_kw, graph_kw, is_digit_char, is_name_char, is_name_start_char, is_ws_char, keyword_at,
    lemma_numeral_bounds, lemma_quoted_body_bounds, lemma_statement_bounds, lower_code,
    spec_numeral_end, spec_parse_attrs, spec_parse_graph,
    spec_parse_groups, spec_parse_id, spec_parse_pair, spec_parse_pairs, spec_parse_statement,
    spec_parse_stmts, spec_quoted_body, spec_scan_digits, spec_scan_name, spec_skip_ws,
    spec_stmt_end, strict_kw,
};
use crate::types::{
    lemma_spec_stmts_of_push, spec_attrs_of, spec_stmts_of, Attributes, GraphAST, Stmt,
};

verus! {

/// A positional syntax error: recognition failed and `position` marks the
/// offset (in characters) of the input slice where it gave up.
#[derive(Debug, PartialEq, Eq)]
pub struct ParseError {
    pub position: usize,
}

// ---------------------------------------------------------------------------
// Characters
// ---------------------------------------------------------------------------

fn to_chars(s: &str) -> (v: Vec<char>)
    ensures
        v@ == s@,
{
    let n = s.unicode_len();
    let mut v: Vec<char> = Vec::new();
    let mut i: usize = 0;
    while i < n
        invariant
            i <= n,
            n == s@.len(),
            v@ =~= s@.subrange(0, i as int),
        decreases n - i,
    {
        let c = s.get_char(i);
        v.push(c);
        i = i + 1;
    }
    proof {
        assert(v@ =~= s@);
    }
    v
}

/// Relies on String's FromIterator of char: collecting copied characters
/// yields the string with exactly that character sequence.
#[verifier::external_body]
fn chars_to_string(v: &Vec<char>) -> (r: String)
    ensures
        r@ == v@,
{
    v.iter().collect()
}

/// The characters `s[a..b]`, as an owned string.
fn range_to_string(s: &Vec<char>, a: usize, b: usize) -> (r: String)
    requires
        a <= b <= s@.len(),
    ensures
        r@ == s@.subrange(a as int, b as int),
{
    let mut buf: Vec<char> = Vec::new();
    let mut i = a;
    while i < b
        invariant
            a <= i <= b <= s@.len(),
            buf@ =~= s@.subrange(a as int, i as int),
        decreases b - i,
    {
        buf.push(s[i]);
        i = i + 1;
    }
    chars_to_string(&buf)
}

fn is_ws(c: char) -> (b: bool)
    ensures
        b == is_ws_char(c),
{
    c == ' ' || c == '\t' || c == '\r' || c == '\n'
}

fn is_digit(c: char) -> (b: bool)
    ensures
        b == is_digit_char(c),
{
    let n = c as u32;
    0x30 <= n && n <= 0x39
}

fn is_name_start(c: char) -> (b: bool)
    ensures
        b == is_name_start_char(c),
{
    let n = c as u32;
    c == '_' || (0x41 <= n && n <= 0x5a) || (0x61 <= n && n <= 0x7a) || (0x80 <= n && n <= 0xff)
}

fn is_name(c: char) -> (b: bool)
    ensures
        b == is_name_char(c),
{
    is_name_start(c) || is_digit(c)
}

// ---------------------------------------------------------------------------
// Whitespace and scans
// ---------------------------------------------------------------------------

fn skip_ws(s: &Vec<char>, i: usize) -> (r: usize)
    requires
        i <= s@.len(),
    ensures
        r as int == spec_skip_ws(s@, i as int),
        i <= r <= s@.len(),
{
    let mut r = i;
    while r < s.len() && is_ws(s[r])
        invariant
            i <= r <= s@.len(),
            spec_skip_ws(s@, i as int) == spec_skip_ws(s@, r as int),
        decreases s@.len() - r,
    {
        r = r + 1;
    }
    r
}

fn scan_name(s: &Vec<char>, i: usize) -> (r: usize)
    requires
        i <= s@.len(),
    ensures
        r as int == spec_scan_name(s@, i as int),
        i <= r <= s@.len(),
{
    let mut r = i;
    while r < s.len() && is_name(s[r])
        invariant
            i <= r <= s@.len(),
            spec_scan_name(s@, i as int) == spec_scan_name(s@, r as int),
        decreases s@.len() - r,
    {
        r = r + 1;
    }
    r
}

fn scan_digits(s: &Vec<char>, i: usize) -> (r: usize)
    requires
        i <= s@.len(),
    ensures
        r as int == spec_scan_digits(s@, i as int),
        i <= r <= s@.len(),
{
    let mut r = i;
    while r < s.len() && is_digit(s[r])
        invariant
            i <= r <= s@.len(),
            spec_scan_digits(s@, i as int) == spec_scan_digits(s@, r as int),
        decreases s@.len() - r,
    {
        r = r + 1;
    }
    r
}

// ---------------------------------------------------------------------------
// Identifiers
// ---------------------------------------------------------------------------

fn numeral_end(s: &Vec<char>, i: usize) -> (r: Option<usize>)
    requires
        i <= s@.len(),
    ensures
        match r {
            Some(j) => spec_numeral_end(s@, i as int) == Some(j as int) && i < j <= s@.len(),
            None => spec_numeral_end(s@, i as int) is None,
        },
{
    proof {
        lemma_numeral_bounds(s@, i as int);
    }
    let k = if i < s.len() && s[i] == '-' {
        i + 1
    } else {
        i
    };
    if k < s.len() && s[k] == '.' {
        if k + 1 < s.len() && is_digit(s[k + 1]) {
            Some(scan_digits(s, k + 1))
        } else {
            None
        }
    } else if k < s.len() && is_digit(s[k]) {
        let d = scan_digits(s, k);
        if d < s.len() && s[d] == '.' {
            Some(scan_digits(s, d + 1))
        } else {
            Some(d)
        }
    } else {
        None
    }
}

fn quoted_body(s: &Vec<char>, i: usize) -> (r: Option<(usize, Vec<char>)>)
    requires
        i <= s@.len(),
    ensures
        match r {
            Some((j, t)) => spec_quoted_body(s@, i as int) == Some((j as int, t@)) && i < j
                <= s@.len(),
            None => spec_quoted_body(s@, i as int) is None,
        },
{
    proof {
        lemma_quoted_body_bounds(s@, i as int);
    }
    let mut cur = i;
    let mut buf: Vec<char> = Vec::new();
    loop
        invariant
            i <= cur <= s@.len(),
            match spec_quoted_body(s@, cur as int) {
                Some((j, t)) => spec_quoted_body(s@, i as int) == Some((j, buf@ + t)),
                None => spec_quoted_body(s@, i as int) is None,
            },
        decreases s@.len() - cur,
    {
        if cur == s.len() {
            return None;
        }
        let c = s[cur];
        if c == '"' {
            proof {
                assert(buf@ + Seq::<char>::empty() =~= buf@);
            }
            return Some((cur + 1, buf));
        }
        if c == '\\' {
            if cur + 1 < s.len() && s[cur + 1] == '"' {
                proof {
                    match spec_quoted_body(s@, cur + 2) {
                        Some((j, t)) => {
                            assert(buf@ + (seq!['"'] + t) =~= buf@.push('"') + t);
                        },
                        None => {},
                    }
                }
                buf.push('"');
                cur = cur + 2;
            } else {
                return None;
            }
        } else {
            proof {
                match spec_quoted_body(s@, cur + 1) {
                    Some((j, t)) => {
                        assert(buf@ + (seq![c] + t) =~= buf@.push(c) + t);
                    },
                    None => {},
                }
            }
            buf.push(c);
            cur = cur + 1;
        }
    }
}

fn parse_id(s: &Vec<char>, i: usize) -> (r: Option<(usize, String)>)
    requires
        i <= s@.len(),
    ensures
        match r {
            Some((j, text)) => spec_parse_id(s@, i as int) == Some((j as int, text@)) && i < j
                <= s@.len(),
            None => spec_parse_id(s@, i as int) is None,
        },
{
    if i < s.len() && is_name_start(s[i]) {
        let j = scan_name(s, i + 1);
        let text = range_to_string(s, i, j);
        let k = skip_ws(s, j);
        Some((k, text))
    } else {
        match numeral_end(s, i) {
            Some(j) => {
                let text = range_to_string(s, i, j);
                let k = skip_ws(s, j);
                Some((k, text))
            },
            None => {
                if i < s.len() && s[i] == '"' {
                    match quoted_body(s, i + 1) {
                        Some((j, t)) => {
                            let text = chars_to_string(&t);
                            let k = skip_ws(s, j);
                            Some((k, text))
                        },
                        None => None,
                    }
                } else {
                    None
                }
            },
        }
    }
}

// ---------------------------------------------------------------------------
// Attribute lists
// ---------------------------------------------------------------------------

fn parse_pair(s: &Vec<char>, i: usize) -> (r: Option<(usize, (String, String))>)
    requires
        i <= s@.len(),
    ensures
        match r {
            Some((j, kv)) => spec_parse_pair(s@, i as int) == Some((j as int, (kv.0@, kv.1@)))
                && i < j <= s@.len(),
            None => spec_parse_pair(s@, i as int) is None,
        },
{
    match parse_id(s, i) {
        None => None,
        Some((j, key)) => {
            if j < s.len() && s[j] == '=' {
                match parse_id(s, j + 1) {
                    None => None,
                    Some((m, value)) => {
                        if m < s.len() && (s[m] == ',' || s[m] == ';') {
                            let e = skip_ws(s, m + 1);
                            Some((e, (key, value)))
                        } else {
                            Some((m, (key, value)))
                        }
                    },
                }
            } else {
                None
            }
        },
    }
}

fn parse_pairs(s: &Vec<char>, i: usize) -> (r: (usize, Attributes))
    requires
        i <= s@.len(),
    ensures
        r.0 as int == spec_parse_pairs(s@, i as int).0,
        spec_attrs_of(r.1@) == spec_parse_pairs(s@, i as int).1,
        i <= r.0 <= s@.len(),
{
    let mut cur = i;
    let mut acc: Attributes = Vec::new();
    proof {
        assert(spec_attrs_of(acc@) + spec_parse_pairs(s@, i as int).1 =~= spec_parse_pairs(
            s@,
            i as int,
        ).1);
    }
    loop
        invariant
            i <= cur <= s@.len(),
            spec_parse_pairs(s@, i as int).0 == spec_parse_pairs(s@, cur as int).0,
            spec_parse_pairs(s@, i as int).1 == spec_attrs_of(acc@) + spec_parse_pairs(
                s@,
                cur as int,
            ).1,
        decreases s@.len() - cur,
    {
        match parse_pair(s, cur) {
            None => {
                proof {
                    assert(spec_attrs_of(acc@) + Seq::<(Seq<char>, Seq<char>)>::empty()
                        =~= spec_attrs_of(acc@));
                }
                return (cur, acc);
            },
            Some((j, kv)) => {
                proof {
                    let p = (kv.0@, kv.1@);
                    let rest = spec_parse_pairs(s@, j as int).1;
                    assert(spec_attrs_of(acc@.push(kv)) =~= spec_attrs_of(acc@) + seq![p]);
                    assert(spec_attrs_of(acc@) + (seq![p] + rest) =~= (spec_attrs_of(acc@)
                        + seq![p]) + rest);
                }
                acc.push(kv);
                cur = j;
            },
        }
    }
}

fn parse_groups(s: &Vec<char>, i: usize) -> (r: (usize, Attributes))
    requires
        i <= s@.len(),
    ensures
        r.0 as int == spec_parse_groups(s@, i as int).0,
        spec_attrs_of(r.1@) == spec_parse_groups(s@, i as int).1,
        i <= r.0 <= s@.len(),
{
    let mut cur = i;
    let mut acc: Attributes = Vec::new();
    proof {
        assert(spec_attrs_of(acc@) + spec_parse_groups(s@, i as int).1 =~= spec_parse_groups(
            s@,
            i as int,
        ).1);
    }
    loop
        invariant
            i <= cur <= s@.len(),
            spec_parse_groups(s@, i as int).0 == spec_parse_groups(s@, cur as int).0,
            spec_parse_groups(s@, i as int).1 == spec_attrs_of(acc@) + spec_parse_groups(
                s@,
                cur as int,
            ).1,
        decreases s@.len() - cur,
    {
        let done = !(cur < s.len() && s[cur] == '[');
        if !done {
            let (j, mut pairs_vec) = parse_pairs(s, cur + 1);
            if j < s.len() && s[j] == ']' {
                proof {
                    let ps = spec_parse_pairs(s@, cur + 1).1;
                    let rest = spec_parse_groups(s@, j + 1).1;
                    assert(spec_attrs_of(acc@ + pairs_vec@) =~= spec_attrs_of(acc@)
                        + spec_attrs_of(pairs_vec@));
                    assert(spec_attrs_of(acc@) + (ps + rest) =~= (spec_attrs_of(acc@) + ps)
                        + rest);
                }
                acc.append(&mut pairs_vec);
                cur = j + 1;
            } else {
                proof {
                    assert(spec_attrs_of(acc@) + Seq::<(Seq<char>, Seq<char>)>::empty()
                        =~= spec_attrs_of(acc@));
                }
                return (cur, acc);
            }
        } else {
            proof {
                assert(spec_attrs_of(acc@) + Seq::<(Seq<char>, Seq<char>)>::empty()
                    =~= spec_attrs_of(acc@));
            }
            return (cur, acc);
        }
    }
}

fn parse_attrs(s: &Vec<char>, i: usize) -> (r: (usize, Attributes))
    requires
        i <= s@.len(),
    ensures
        r.0 as int == spec_parse_attrs(s@, i as int).0,
        spec_attrs_of(r.1@) == spec_parse_attrs(s@, i as int).1,
        i <= r.0 <= s@.len(),
{
    let j = skip_ws(s, i);
    parse_groups(s, j)
}

// ---------------------------------------------------------------------------
// Statements
// ---------------------------------------------------------------------------

fn stmt_end(s: &Vec<char>, i: usize) -> (r: usize)
    requires
        i <= s@.len(),
    ensures
        r as int == spec_stmt_end(s@, i as int),
        i <= r <= s@.len(),
{
    let j = skip_ws(s, i);
    if j < s.len() && s[j] == ';' {
        j + 1
    } else {
        j
    }
}

fn parse_statement(s: &Vec<char>, i: usize, directed: bool) -> (r: Option<(usize, Stmt)>)
    requires
        i <= s@.len(),
    ensures
        match r {
            Some((j, st)) => spec_parse_statement(s@, i as int, directed) == Some(
                (j as int, st@),
            ) && i < j <= s@.len(),
            None => spec_parse_statement(s@, i as int, directed) is None,
        },
{
    proof {
        lemma_statement_bounds(s@, i as int, directed);
    }
    let i1 = skip_ws(s, i);
    match parse_id(s, i1) {
        None => None,
        Some((j, id1)) => {
            let j1 = skip_ws(s, j);
            let op2 = if directed {
                '>'
            } else {
                '-'
            };
            let has_op = s.len() - j1 > 1 && s[j1] == '-' && s[j1 + 1] == op2;
            if has_op {
                let j2 = skip_ws(s, j1 + 2);
                match parse_id(s, j2) {
                    None => None,
                    Some((m, id2)) => {
                        let (a_end, attrs) = parse_attrs(s, m);
                        let e = stmt_end(s, a_end);
                        Some((e, Stmt::Edge(id1, id2, attrs)))
                    },
                }
            } else {
                let (a_end, attrs) = parse_attrs(s, j);
                let e = stmt_end(s, a_end);
                Some((e, Stmt::Node(id1, attrs)))
            }
        },
    }
}

fn parse_stmts(s: &Vec<char>, i: usize, directed: bool) -> (r: (usize, Vec<Stmt>))
    requires
        i <= s@.len(),
    ensures
        r.0 as int == spec_parse_stmts(s@, i as int, directed).0,
        spec_stmts_of(r.1@) == spec_parse_stmts(s@, i as int, directed).1,
        i <= r.0 <= s@.len(),
{
    let mut cur = i;
    let mut acc: Vec<Stmt> = Vec::new();
    proof {
        assert(spec_stmts_of(acc@) + spec_parse_stmts(s@, i as int, directed).1
            =~= spec_parse_stmts(s@, i as int, directed).1);
    }
    loop
        invariant
            i <= cur <= s@.len(),
            spec_parse_stmts(s@, i as int, directed).0 == spec_parse_stmts(
                s@,
                cur as int,
                directed,
            ).0,
            spec_parse_stmts(s@, i as int, directed).1 == spec_stmts_of(acc@) + spec_parse_stmts(
                s@,
                cur as int,
                directed,
            ).1,
        decreases s@.len() - cur,
    {
        match parse_statement(s, cur, directed) {
            None => {
                proof {
                    assert(spec_stmts_of(acc@) + Seq::<crate::model::SpecStmt>::empty()
                        =~= spec_stmts_of(acc@));
                }
                return (cur, acc);
            },
            Some((j, st)) => {
                proof {
                    let rest = spec_parse_stmts(s@, j as int, directed).1;
                    lemma_spec_stmts_of_push(acc@, st);
                    assert(spec_stmts_of(acc@) + (seq![st@] + rest) =~= (spec_stmts_of(acc@)
                        + seq![st@]) + rest);
                }
                acc.push(st);
                cur = j;
            },
        }
    }
}

// ---------------------------------------------------------------------------
// The top-level document
// ---------------------------------------------------------------------------

fn lower_eq_chars(a: char, b: char) -> (r: bool)
    ensures
        r == (lower_code(a) == lower_code(b)),
{
    let na = a as u32;
    let nb = b as u32;
    let la = if 0x41 <= na && na <= 0x5a {
        na + 0x20
    } else {
        na
    };
    let lb = if 0x41 <= nb && nb <= 0x5a {
        nb + 0x20
    } else {
        nb
    };
    la == lb
}

fn match_keyword(s: &Vec<char>, i: usize, kw: &Vec<char>) -> (b: bool)
    requires
        i <= s@.len(),
    ensures
        b == keyword_at(s@, i as int, kw@),
{
    let n = s.len();
    if n - i < kw.len() {
        return false;
    }
    let mut t: usize = 0;
    while t < kw.len()
        invariant
            n == s@.len(),
            i + kw@.len() <= n,
            t <= kw@.len(),
            forall|u: int| 0 <= u < t ==> lower_code(s@[i + u]) == lower_code(kw@[u]),
        decreases kw@.len() - t,
    {
        proof {
            assert(i + t < s@.len());
        }
        if !lower_eq_chars(s[i + t], kw[t]) {
            proof {
                assert(!keyword_at(s@, i as int, kw@)) by {
                    if keyword_at(s@, i as int, kw@) {
                        assert(lower_code(s@[i + t]) == lower_code(kw@[t as int]));
                    }
                }
            }
            return false;
        }
        t = t + 1;
    }
    true
}

fn parse_graph_chars(s: &Vec<char>) -> (r: Result<GraphAST, ParseError>)
    ensures
        r is Ok <==> spec_parse_graph(s@) is Some,
        r is Ok ==> r->Ok_0@ == spec_parse_graph(s@)->0,
        r is Err ==> r->Err_0.position <= s@.len(),
{
    let strict_chars: Vec<char> = vec!['s', 't', 'r', 'i', 'c', 't'];
    let graph_chars: Vec<char> = vec!['g', 'r', 'a', 'p', 'h'];
    let digraph_chars: Vec<char> = vec!['d', 'i', 'g', 'r', 'a', 'p', 'h'];
    proof {
        assert(strict_chars@ =~= strict_kw());
        assert(graph_chars@ =~= graph_kw());
        assert(digraph_chars@ =~= digraph_kw());
    }
    let n = s.len();
    let i1 = skip_ws(s, 0);
    let strict = match_keyword(s, i1, &strict_chars);
    let i2 = if strict {
        proof {
            assert(keyword_at(s@, i1 as int, strict_kw()));
            assert(i1 + strict_kw().len() <= s@.len());
        }
        skip_ws(s, i1 + 6)
    } else {
        skip_ws(s, i1)
    };
    let (directed, i3) = if match_keyword(s, i2, &digraph_chars) {
        proof {
            assert(i2 + digraph_kw().len() <= s@.len());
        }
        (true, skip_ws(s, i2 + 7))
    } else if match_keyword(s, i2, &graph_chars) {
        proof {
            assert(i2 + graph_kw().len() <= s@.len());
        }
        (false, skip_ws(s, i2 + 5))
    } else {
        return Err(ParseError { position: i2 });
    };
    let (i4, id) = match parse_id(s, i3) {
        Some((j, name)) => (j, Some(name)),
        None => (i3, None),
    };
    if !(i4 < s.len() && s[i4] == '{') {
        return Err(ParseError { position: i4 });
    }
    let (i5, stmts) = parse_stmts(s, i4 + 1, directed);
    let i6 = skip_ws(s, i5);
    if !(i6 < s.len() && s[i6] == '}') {
        return Err(ParseError { position: i6 });
    }
    let i7 = skip_ws(s, i6 + 1);
    if i7 != s.len() {
        return Err(ParseError { position: i7 });
    }
    Ok(GraphAST { is_strict: strict, is_directed: directed, id, stmt: stmts })
}

/// Parse the full text of one graph description.
///
/// Succeeds exactly on input that conforms to the grammar, returning the
/// descriptor the grammar assigns to it; fails with a positional syntax
/// error otherwise.
pub fn parse(s: &str) -> (r: Result<GraphAST, ParseError>)
    ensures
        r is Ok <==> spec_parse_graph(s@) is Some,
        r is Ok ==> r->Ok_0@ == spec_parse_graph(s@)->0,
        r is Err ==> r->Err_0.position <= s@.len(),
{
    let v = to_chars(s);
    parse_graph_chars(&v)
}

} // verus!
