use vstd::prelude::*;
use crate::ast::{ActionView, ProgramView, RuleView, StateView};

verus! {

// ---------------------------------------------------------------------------
// The surface syntax, stated mathematically over the source characters:
//   @state                a state header, rules follow until the next header
//   name ? cond { body }  a conditioned rule
//   name ? { body }       a conditionless rule
//   !? { body }           an else body, directly after a conditioned body
//   => @state;            a transition statement
//   return expr;          a return statement, the expression optional
// Any other statement inside a body is kept verbatim as an opaque host
// statement. Condition and statement texts are taken verbatim from the
// source (trailing whitespace trimmed); a condition runs to the first `{`
// outside double quotes, so the brace that opens the body is never mistaken
// for part of it, and a statement runs to the first `;` or closing `}`
// outside quotes and nested braces. The parser reads ASCII sources.
// ---------------------------------------------------------------------------

/// Whitespace between tokens.
pub open spec fn is_ws(c: char) -> bool {
    c == ' ' || c == '\t' || c == '\r' || c == '\n'
}

/// The first character of a state or rule name.
pub open spec fn is_ident_start(c: char) -> bool {
    ('a' <= c && c <= 'z') || ('A' <= c && c <= 'Z') || c == '_'
}

/// A character of a state or rule name.
pub open spec fn is_ident_char(c: char) -> bool {
    is_ident_start(c) || ('0' <= c && c <= '9')
}

/// The keyword that ends a run.
pub open spec fn return_kw() -> Seq<char> {
    seq!['r', 'e', 't', 'u', 'r', 'n']
}

/// The first position at or after `i` holding a non-whitespace character.
pub open spec fn skip_ws(s: Seq<char>, i: int) -> int
    decreases s.len() - i,
        when 0 <= i <= s.len()
{
    if i < s.len() && is_ws(s[i]) {
        skip_ws(s, i + 1)
    } else {
        i
    }
}

/// The end of the identifier-character run starting at `i`.
pub open spec fn ident_end(s: Seq<char>, i: int) -> int
    decreases s.len() - i,
        when 0 <= i <= s.len()
{
    if i < s.len() && is_ident_char(s[i]) {
        ident_end(s, i + 1)
    } else {
        i
    }
}

/// The position of the `{` that opens the rule body after a condition
/// starting at `i`, skipping over double-quoted stretches (a quoted brace
/// is part of the condition, not a block opener); the length if the input
/// ends first.
pub open spec fn cond_end(s: Seq<char>, i: int, in_str: bool) -> int
    decreases s.len() - i,
        when 0 <= i <= s.len()
{
    if i >= s.len() {
        i
    } else {
        let c = s[i];
        if in_str {
            cond_end(s, i + 1, c != '"')
        } else if c == '"' {
            cond_end(s, i + 1, true)
        } else if c == '{' {
            i
        } else {
            cond_end(s, i + 1, false)
        }
    }
}

/// `j` moved down past trailing whitespace, but not below `i`.
pub open spec fn rtrim(s: Seq<char>, i: int, j: int) -> int
    decreases j - i,
        when 0 <= i <= j <= s.len()
{
    if j > i && is_ws(s[j - 1]) {
        rtrim(s, i, j - 1)
    } else {
        j
    }
}

/// The position of the `;` or `}` that ends the statement starting at `i`,
/// skipping over double-quoted stretches and brace-nested groups; the length
/// if the input ends first.
pub open spec fn stmt_end(s: Seq<char>, i: int, depth: int, in_str: bool) -> int
    decreases s.len() - i,
        when 0 <= i <= s.len()
{
    if i >= s.len() {
        i
    } else {
        let c = s[i];
        if in_str {
            stmt_end(s, i + 1, depth, c != '"')
        } else if c == '"' {
            stmt_end(s, i + 1, depth, true)
        } else if c == '{' {
            stmt_end(s, i + 1, depth + 1, false)
        } else if c == '}' {
            if depth == 0 {
                i
            } else {
                stmt_end(s, i + 1, depth - 1, false)
            }
        } else if c == ';' && depth == 0 {
            i
        } else {
            stmt_end(s, i + 1, depth, false)
        }
    }
}

/// One statement of a rule body, starting at the non-whitespace position
/// `j`: a transition, a return, or an opaque host statement; paired with the
/// position just past it.
pub open spec fn parse_stmt(s: Seq<char>, j: int) -> Option<(ActionView, int)> {
    if j + 1 < s.len() && s[j] == '=' && s[j + 1] == '>' {
        // => @target ;
        let a = skip_ws(s, j + 2);
        if a < s.len() && s[a] == '@' {
            let b = skip_ws(s, a + 1);
            if b < s.len() && is_ident_start(s[b]) {
                let e = ident_end(s, b);
                let m = skip_ws(s, e);
                if m < s.len() && s[m] == ';' {
                    Some((ActionView::Transition(s.subrange(b, e)), m + 1))
                } else {
                    None
                }
            } else {
                None
            }
        } else {
            None
        }
    } else if j < s.len() && is_ident_start(s[j]) && s.subrange(j, ident_end(s, j)) == return_kw() {
        // return [expr] ;   or   return [expr] }
        let w = skip_ws(s, ident_end(s, j));
        if w < s.len() && s[w] == ';' {
            Some((ActionView::Return(None), w + 1))
        } else if w < s.len() && s[w] == '}' {
            Some((ActionView::Return(None), w))
        } else {
            let end = stmt_end(s, w, 0, false);
            if w <= end < s.len() {
                let text = s.subrange(w, rtrim(s, w, end));
                Some((ActionView::Return(Some(text)), if s[end] == ';' { end + 1 } else { end }))
            } else {
                None
            }
        }
    } else if 0 <= j < s.len() {
        // an opaque host statement
        let end = stmt_end(s, j, 0, false);
        if end < s.len() {
            let text = s.subrange(j, rtrim(s, j, end));
            Some((ActionView::Host(text), if s[end] == ';' { end + 1 } else { end }))
        } else {
            None
        }
    } else {
        None
    }
}

/// The statements of a body block, up to and past its closing `}`.
pub open spec fn parse_stmts(s: Seq<char>, i: int) -> Option<(Seq<ActionView>, int)>
    decreases s.len() - i,
        when 0 <= i <= s.len()
{
    let j = skip_ws(s, i);
    if j >= s.len() {
        None
    } else if s[j] == '}' {
        Some((Seq::empty(), j + 1))
    } else {
        match parse_stmt(s, j) {
            Some((a, k)) => if i < k && k <= s.len() {
                match parse_stmts(s, k) {
                    Some((rest, m)) => Some((seq![a] + rest, m)),
                    None => None,
                }
            } else {
                None
            },
            None => None,
        }
    }
}

/// A body block: `{`, statements, `}`.
pub open spec fn parse_block(s: Seq<char>, i: int) -> Option<(Seq<ActionView>, int)> {
    if 0 <= i < s.len() && s[i] == '{' {
        parse_stmts(s, i + 1)
    } else {
        None
    }
}

/// What may follow a rule's body: an `!? { ... }` else body, legal only for
/// a conditioned rule, or nothing.
pub open spec fn rule_after_body(
    s: Seq<char>,
    b: int,
    name: Seq<char>,
    cond: Option<Seq<char>>,
    body: Seq<ActionView>,
) -> Option<(RuleView, int)> {
    let x = skip_ws(s, b);
    if x < s.len() && s[x] == '!' {
        let y = skip_ws(s, x + 1);
        if y < s.len() && s[y] == '?' {
            let z = skip_ws(s, y + 1);
            match parse_block(s, z) {
                Some((eb, w)) => if cond is Some {
                    Some((RuleView { name, condition: cond, body, else_body: Some(eb) }, w))
                } else {
                    None
                },
                None => None,
            }
        } else {
            None
        }
    } else {
        Some((RuleView { name, condition: cond, body, else_body: None }, b))
    }
}

/// One rule: name, `?`, an optional condition running to the body's `{`,
/// the body block, and an optional else body.
pub open spec fn parse_rule(s: Seq<char>, i: int) -> Option<(RuleView, int)> {
    if 0 <= i < s.len() && is_ident_start(s[i]) {
        let e = ident_end(s, i);
        let name = s.subrange(i, e);
        let q = skip_ws(s, e);
        if q < s.len() && s[q] == '?' {
            let a = skip_ws(s, q + 1);
            if a < s.len() && s[a] == '{' {
                match parse_block(s, a) {
                    Some((body, b)) => rule_after_body(s, b, name, None, body),
                    None => None,
                }
            } else {
                let brace = cond_end(s, a, false);
                if brace < s.len() {
                    let cond = s.subrange(a, rtrim(s, a, brace));
                    match parse_block(s, brace) {
                        Some((body, b)) => rule_after_body(s, b, name, Some(cond), body),
                        None => None,
                    }
                } else {
                    None
                }
            }
        } else {
            None
        }
    } else {
        None
    }
}

/// The rules of a state, up to the next state header or the end of input.
pub open spec fn parse_rules(s: Seq<char>, i: int) -> Option<(Seq<RuleView>, int)>
    decreases s.len() - i,
        when 0 <= i <= s.len()
{
    let j = skip_ws(s, i);
    if j >= s.len() || s[j] == '@' {
        Some((Seq::empty(), j))
    } else {
        match parse_rule(s, j) {
            Some((r, k)) => if i < k && k <= s.len() {
                match parse_rules(s, k) {
                    Some((rest, m)) => Some((seq![r] + rest, m)),
                    None => None,
                }
            } else {
                None
            },
            None => None,
        }
    }
}

/// One state: `@`, its name, then its rules.
pub open spec fn parse_state(s: Seq<char>, j: int) -> Option<(StateView, int)> {
    if 0 <= j < s.len() && s[j] == '@' {
        let a = skip_ws(s, j + 1);
        if a < s.len() && is_ident_start(s[a]) {
            let e = ident_end(s, a);
            match parse_rules(s, e) {
                Some((rules, k)) => Some((StateView { name: s.subrange(a, e), rules }, k)),
                None => None,
            }
        } else {
            None
        }
    } else {
        None
    }
}

/// The states of a program, separated only by whitespace, to the end of
/// input.
pub open spec fn parse_states(s: Seq<char>, i: int) -> Option<(Seq<StateView>, int)>
    decreases s.len() - i,
        when 0 <= i <= s.len()
{
    let j = skip_ws(s, i);
    if j >= s.len() {
        Some((Seq::empty(), j))
    } else if s[j] == '@' {
        match parse_state(s, j) {
            Some((st, k)) => if i < k && k <= s.len() {
                match parse_states(s, k) {
                    Some((rest, m)) => Some((seq![st] + rest, m)),
                    None => None,
                }
            } else {
                None
            },
            None => None,
        }
    } else {
        None
    }
}

/// The program a source text denotes, if it is well formed: an ASCII text
/// holding whitespace-separated states and nothing else.
pub open spec fn spec_parse(s: Seq<char>) -> Option<ProgramView> {
    if vstd::utf8::is_ascii_chars(s) {
        match parse_states(s, 0) {
            Some((states, _)) => Some(ProgramView { states }),
            None => None,
        }
    } else {
        None
    }
}

// ---------------------------------------------------------------------------
// Bounds of the scanners and parsers.
// ---------------------------------------------------------------------------

pub proof fn lemma_skip_ws_bounds(s: Seq<char>, i: int)
    requires
        0 <= i <= s.len(),
    ensures
        i <= skip_ws(s, i) <= s.len(),
        skip_ws(s, i) < s.len() ==> !is_ws(s[skip_ws(s, i)]),
    decreases s.len() - i,
{
    if i < s.len() && is_ws(s[i]) {
        lemma_skip_ws_bounds(s, i + 1);
    }
}

pub proof fn lemma_ident_end_bounds(s: Seq<char>, i: int)
    requires
        0 <= i <= s.len(),
    ensures
        i <= ident_end(s, i) <= s.len(),
    decreases s.len() - i,
{
    if i < s.len() && is_ident_char(s[i]) {
        lemma_ident_end_bounds(s, i + 1);
    }
}

pub proof fn lemma_cond_end_bounds(s: Seq<char>, i: int, in_str: bool)
    requires
        0 <= i <= s.len(),
    ensures
        i <= cond_end(s, i, in_str) <= s.len(),
    decreases s.len() - i,
{
    if i < s.len() {
        let c = s[i];
        if in_str {
            lemma_cond_end_bounds(s, i + 1, c != '"');
        } else if c == '"' {
            lemma_cond_end_bounds(s, i + 1, true);
        } else if c != '{' {
            lemma_cond_end_bounds(s, i + 1, false);
        }
    }
}

pub proof fn lemma_stmt_end_bounds(s: Seq<char>, i: int, depth: int, in_str: bool)
    requires
        0 <= i <= s.len(),
    ensures
        i <= stmt_end(s, i, depth, in_str) <= s.len(),
    decreases s.len() - i,
{
    if i < s.len() {
        let c = s[i];
        if in_str {
            lemma_stmt_end_bounds(s, i + 1, depth, c != '"');
        } else if c == '"' {
            lemma_stmt_end_bounds(s, i + 1, depth, true);
        } else if c == '{' {
            lemma_stmt_end_bounds(s, i + 1, depth + 1, false);
        } else if c == '}' {
            if depth != 0 {
                lemma_stmt_end_bounds(s, i + 1, depth - 1, false);
            }
        } else if !(c == ';' && depth == 0) {
            lemma_stmt_end_bounds(s, i + 1, depth, false);
        }
    }
}

/// A parsed statement always moves the cursor strictly forward.
pub proof fn lemma_parse_stmt_bounds(s: Seq<char>, j: int)
    requires
        0 <= j < s.len(),
        s[j] != '}',
    ensures
        match parse_stmt(s, j) {
            Some((_, k)) => j < k <= s.len(),
            None => true,
        },
{
    if j + 1 < s.len() && s[j] == '=' && s[j + 1] == '>' {
        lemma_skip_ws_bounds(s, j + 2);
        let a = skip_ws(s, j + 2);
        if a < s.len() && s[a] == '@' {
            lemma_skip_ws_bounds(s, a + 1);
            let b = skip_ws(s, a + 1);
            if b < s.len() && is_ident_start(s[b]) {
                lemma_ident_end_bounds(s, b);
                lemma_skip_ws_bounds(s, ident_end(s, b));
            }
        }
    } else if j < s.len() && is_ident_start(s[j]) && s.subrange(j, ident_end(s, j))
        == return_kw() {
        lemma_ident_end_bounds(s, j);
        let e = ident_end(s, j);
        assert(e - j == 6) by {
            assert(s.subrange(j, e).len() == e - j);
            assert(return_kw().len() == 6);
        }
        lemma_skip_ws_bounds(s, e);
        let w = skip_ws(s, e);
        if !(w < s.len() && s[w] == ';') && !(w < s.len() && s[w] == '}') {
            lemma_stmt_end_bounds(s, w, 0, false);
        }
    } else {
        lemma_stmt_end_bounds(s, j, 0, false);
        let end = stmt_end(s, j, 0, false);
        if end < s.len() {
            if s[j] != ';' {
                assert(stmt_end(s, j, 0, false) == if s[j] == '"' {
                    stmt_end(s, j + 1, 0, true)
                } else if s[j] == '{' {
                    stmt_end(s, j + 1, 1, false)
                } else {
                    stmt_end(s, j + 1, 0, false)
                });
                lemma_stmt_end_bounds(s, j + 1, 0, true);
                lemma_stmt_end_bounds(s, j + 1, 1, false);
                lemma_stmt_end_bounds(s, j + 1, 0, false);
            }
        }
    }
}

/// A parsed statement list lands at or after its start, within the input.
pub proof fn lemma_parse_stmts_bounds(s: Seq<char>, i: int)
    requires
        0 <= i <= s.len(),
    ensures
        match parse_stmts(s, i) {
            Some((_, m)) => i < m <= s.len(),
            None => true,
        },
    decreases s.len() - i,
{
    lemma_skip_ws_bounds(s, i);
    let j = skip_ws(s, i);
    if j < s.len() && s[j] != '}' {
        match parse_stmt(s, j) {
            Some((a, k)) => if i < k && k <= s.len() {
                lemma_parse_stmts_bounds(s, k);
            },
            None => {},
        }
    }
}

/// A parsed rule always moves the cursor strictly forward.
pub proof fn lemma_parse_rule_bounds(s: Seq<char>, i: int)
    requires
        0 <= i <= s.len(),
    ensures
        match parse_rule(s, i) {
            Some((_, k)) => i < k <= s.len(),
            None => true,
        },
{
    if 0 <= i < s.len() && is_ident_start(s[i]) {
        lemma_ident_end_bounds(s, i);
        let e = ident_end(s, i);
        lemma_skip_ws_bounds(s, e);
        let q = skip_ws(s, e);
        if q < s.len() && s[q] == '?' {
            lemma_skip_ws_bounds(s, q + 1);
            let a = skip_ws(s, q + 1);
            if a < s.len() && s[a] == '{' {
                lemma_parse_stmts_bounds(s, a + 1);
                match parse_block(s, a) {
                    Some((body, b)) => {
                        lemma_rule_after_body_bounds(s, b, s.subrange(i, e), None, body);
                    },
                    None => {},
                }
            } else {
                lemma_cond_end_bounds(s, a, false);
                let brace = cond_end(s, a, false);
                if brace < s.len() {
                    lemma_parse_stmts_bounds(s, brace + 1);
                    match parse_block(s, brace) {
                        Some((body, b)) => {
                            lemma_rule_after_body_bounds(
                                s,
                                b,
                                s.subrange(i, e),
                                Some(s.subrange(a, rtrim(s, a, brace))),
                                body,
                            );
                        },
                        None => {},
                    }
                }
            }
        }
    }
}

proof fn lemma_rule_after_body_bounds(
    s: Seq<char>,
    b: int,
    name: Seq<char>,
    cond: Option<Seq<char>>,
    body: Seq<ActionView>,
)
    requires
        0 <= b <= s.len(),
    ensures
        match rule_after_body(s, b, name, cond, body) {
            Some((_, k)) => b <= k <= s.len(),
            None => true,
        },
{
    lemma_skip_ws_bounds(s, b);
    let x = skip_ws(s, b);
    if x < s.len() && s[x] == '!' {
        lemma_skip_ws_bounds(s, x + 1);
        let y = skip_ws(s, x + 1);
        if y < s.len() && s[y] == '?' {
            lemma_skip_ws_bounds(s, y + 1);
            let z = skip_ws(s, y + 1);
            if 0 <= z < s.len() && s[z] == '{' {
                lemma_parse_stmts_bounds(s, z + 1);
            }
        }
    }
}

/// A parsed rule list lands within the input, at or after its start.
pub proof fn lemma_parse_rules_bounds(s: Seq<char>, i: int)
    requires
        0 <= i <= s.len(),
    ensures
        match parse_rules(s, i) {
            Some((_, m)) => i <= m <= s.len(),
            None => true,
        },
    decreases s.len() - i,
{
    lemma_skip_ws_bounds(s, i);
    let j = skip_ws(s, i);
    if !(j >= s.len() || s[j] == '@') {
        match parse_rule(s, j) {
            Some((r, k)) => if i < k && k <= s.len() {
                lemma_parse_rules_bounds(s, k);
            },
            None => {},
        }
    }
}

/// A parsed state always moves the cursor strictly forward.
pub proof fn lemma_parse_state_bounds(s: Seq<char>, j: int)
    requires
        0 <= j <= s.len(),
    ensures
        match parse_state(s, j) {
            Some((_, k)) => j < k <= s.len(),
            None => true,
        },
{
    if 0 <= j < s.len() && s[j] == '@' {
        lemma_skip_ws_bounds(s, j + 1);
        let a = skip_ws(s, j + 1);
        if a < s.len() && is_ident_start(s[a]) {
            lemma_ident_end_bounds(s, a);
            lemma_parse_rules_bounds(s, ident_end(s, a));
        }
    }
}

} // verus!
