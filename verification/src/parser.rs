use vstd::prelude::*;
use vstd::string::*;
use crate::ast::{Action, Program, Rule, State};
use crate::errors::SyntaxError;
use crate::grammar::{
    cond_end, ident_end, is_ident_char, is_ident_start, is_ws, parse_block, parse_rule,
    parse_rules, parse_state, parse_states, parse_stmt, parse_stmts, return_kw, rtrim, skip_ws,
    spec_parse, stmt_end, lemma_parse_rule_bounds, lemma_parse_state_bounds,
    lemma_parse_stmt_bounds, rule_after_body,
};

verus! {

// ---------------------------------------------------------------------------
// Character scanners.
// ---------------------------------------------------------------------------

fn ws_char(c: char) -> (b: bool)
    ensures
        b == is_ws(c),
{
    c == ' ' || c == '\t' || c == '\r' || c == '\n'
}

fn ident_start_char(c: char) -> (b: bool)
    ensures
        b == is_ident_start(c),
{
    ('a' <= c && c <= 'z') || ('A' <= c && c <= 'Z') || c == '_'
}

fn ident_char(c: char) -> (b: bool)
    ensures
        b == is_ident_char(c),
{
    ident_start_char(c) || ('0' <= c && c <= '9')
}

/// The character length of an ASCII string slice.
fn str_len(s: &str) -> (n: usize)
    ensures
        n == s@.len(),
{
    s.unicode_len()
}

/// How many line breaks come before position `p`: the zero-based line number
/// used in error reports.
pub open spec fn newlines_before(s: Seq<char>, p: int) -> int
    decreases p,
        when 0 <= p <= s.len()
{
    if p <= 0 {
        0
    } else {
        newlines_before(s, p - 1) + if s[p - 1] == '\n' {
            1int
        } else {
            0int
        }
    }
}

proof fn lemma_newlines_before_bounds(s: Seq<char>, p: int)
    requires
        0 <= p <= s.len(),
    ensures
        0 <= newlines_before(s, p) <= p,
    decreases p,
{
    if p > 0 {
        lemma_newlines_before_bounds(s, p - 1);
    }
}

fn line_of(s: &str, n: usize, p: usize) -> (l: usize)
    requires
        n == s@.len(),
        p <= n,
    ensures
        l == newlines_before(s@, p as int),
{
    let mut i: usize = 0;
    let mut count: usize = 0;
    while i < p
        invariant
            p <= s@.len(),
            i <= p,
            count == newlines_before(s@, i as int),
            count <= i,
        decreases p - i,
    {
        proof {
            lemma_newlines_before_bounds(s@, i as int);
        }
        if s.get_char(i) == '\n' {
            count = count + 1;
        }
        i = i + 1;
    }
    count
}

fn scan_ws(s: &str, n: usize, i: usize) -> (r: usize)
    requires
        n == s@.len(),
        i <= n,
    ensures
        r == skip_ws(s@, i as int),
        i <= r <= n,
{
    let mut j = i;
    while j < n && ws_char(s.get_char(j))
        invariant
            n == s@.len(),
            i <= j <= n,
            skip_ws(s@, i as int) == skip_ws(s@, j as int),
        decreases n - j,
    {
        j = j + 1;
    }
    j
}

fn scan_ident_end(s: &str, n: usize, i: usize) -> (r: usize)
    requires
        n == s@.len(),
        i <= n,
    ensures
        r == ident_end(s@, i as int),
        i <= r <= n,
{
    let mut j = i;
    while j < n && ident_char(s.get_char(j))
        invariant
            n == s@.len(),
            i <= j <= n,
            ident_end(s@, i as int) == ident_end(s@, j as int),
        decreases n - j,
    {
        j = j + 1;
    }
    j
}

fn scan_cond_end(s: &str, n: usize, i: usize) -> (r: usize)
    requires
        n == s@.len(),
        i <= n,
    ensures
        r == cond_end(s@, i as int, false),
        i <= r <= n,
{
    let mut j = i;
    let mut in_str = false;
    loop
        invariant
            n == s@.len(),
            i <= j <= n,
            cond_end(s@, i as int, false) == cond_end(s@, j as int, in_str),
        decreases n - j,
    {
        if j >= n {
            return j;
        }
        let c = s.get_char(j);
        if in_str {
            in_str = c != '"';
            j = j + 1;
        } else if c == '"' {
            in_str = true;
            j = j + 1;
        } else if c == '{' {
            return j;
        } else {
            j = j + 1;
        }
    }
}

fn scan_rtrim(s: &str, n: usize, i: usize, j: usize) -> (r: usize)
    requires
        n == s@.len(),
        i <= j <= n,
    ensures
        r == rtrim(s@, i as int, j as int),
        i <= r <= j,
{
    let mut k = j;
    while k > i && ws_char(s.get_char(k - 1))
        invariant
            n == s@.len(),
            i <= k <= j <= n,
            rtrim(s@, i as int, j as int) == rtrim(s@, i as int, k as int),
        decreases k,
    {
        k = k - 1;
    }
    k
}

fn scan_stmt_end(s: &str, n: usize, i: usize) -> (r: usize)
    requires
        n == s@.len(),
        i <= n,
    ensures
        r == stmt_end(s@, i as int, 0, false),
        i <= r <= n,
{
    let mut j = i;
    let mut depth: usize = 0;
    let mut in_str = false;
    loop
        invariant
            n == s@.len(),
            i <= j <= n,
            depth <= j,
            stmt_end(s@, i as int, 0, false) == stmt_end(s@, j as int, depth as int, in_str),
        decreases n - j,
    {
        if j >= n {
            return j;
        }
        let c = s.get_char(j);
        if in_str {
            in_str = c != '"';
            j = j + 1;
        } else if c == '"' {
            in_str = true;
            j = j + 1;
        } else if c == '{' {
            depth = depth + 1;
            j = j + 1;
        } else if c == '}' {
            if depth == 0 {
                return j;
            }
            depth = depth - 1;
            j = j + 1;
        } else if c == ';' && depth == 0 {
            return j;
        } else {
            j = j + 1;
        }
    }
}

/// A fresh `String` holding the source characters of `[from, to)`.
fn substr(s: &str, from: usize, to: usize) -> (r: String)
    requires
        s.is_ascii(),
        from <= to <= s@.len(),
    ensures
        r@ == s@.subrange(from as int, to as int),
{
    s.substring_ascii(from, to).to_owned()
}

/// Is the identifier spanning `[j, e)` the `return` keyword?
fn word_is_return(s: &str, n: usize, j: usize, e: usize) -> (b: bool)
    requires
        n == s@.len(),
        j <= e <= n,
    ensures
        b == (s@.subrange(j as int, e as int) == return_kw()),
{
    proof {
        assert(s@.subrange(j as int, e as int).len() == e - j);
        assert(return_kw().len() == 6);
    }
    if e - j != 6 {
        return false;
    }
    let b = s.get_char(j) == 'r' && s.get_char(j + 1) == 'e' && s.get_char(j + 2) == 't'
        && s.get_char(j + 3) == 'u' && s.get_char(j + 4) == 'r' && s.get_char(j + 5) == 'n';
    proof {
        let sub = s@.subrange(j as int, e as int);
        assert(sub[0] == s@[j as int]);
        assert(sub[1] == s@[j as int + 1]);
        assert(sub[2] == s@[j as int + 2]);
        assert(sub[3] == s@[j as int + 3]);
        assert(sub[4] == s@[j as int + 4]);
        assert(sub[5] == s@[j as int + 5]);
        if b {
            assert(sub =~= return_kw());
        } else {
            if sub == return_kw() {
                assert(sub[0] == 'r' && sub[1] == 'e' && sub[2] == 't' && sub[3] == 'u' && sub[4]
                    == 'r' && sub[5] == 'n');
            }
        }
    }
    b
}

// ---------------------------------------------------------------------------
// The parser proper.
// ---------------------------------------------------------------------------

/// One statement of a rule body, starting at the non-whitespace position `j`.
fn parse_stmt_x(s: &str, n: usize, j: usize) -> (r: Result<(Action, usize), SyntaxError>)
    requires
        s.is_ascii(),
        n == s@.len(),
        j < n,
        s@[j as int] != '}',
    ensures
        match r {
            Ok((a, k)) => parse_stmt(s@, j as int) == Some((a@, k as int)) && j < k <= n,
            Err(_) => parse_stmt(s@, j as int) is None,
        },
{
    proof {
        lemma_parse_stmt_bounds(s@, j as int);
    }
    if j + 1 < n && s.get_char(j) == '=' && s.get_char(j + 1) == '>' {
        // => @target ;
        let a = scan_ws(s, n, j + 2);
        if a >= n || s.get_char(a) != '@' {
            return Err(
                SyntaxError::new(
                    line_of(s, n, a),
                    "expected '@' after '=>' in a transition".to_owned(),
                    None,
                ),
            );
        }
        let b = scan_ws(s, n, a + 1);
        if b >= n || !ident_start_char(s.get_char(b)) {
            return Err(
                SyntaxError::new(
                    line_of(s, n, b),
                    "expected a state name after '=>' '@'".to_owned(),
                    None,
                ),
            );
        }
        let e = scan_ident_end(s, n, b);
        let m = scan_ws(s, n, e);
        if m >= n || s.get_char(m) != ';' {
            return Err(
                SyntaxError::new(
                    line_of(s, n, m),
                    "expected ';' after a transition target".to_owned(),
                    None,
                ),
            );
        }
        let name = substr(s, b, e);
        return Ok((Action::Transition(name), m + 1));
    }
    let e0 = if ident_start_char(s.get_char(j)) {
        scan_ident_end(s, n, j)
    } else {
        j
    };
    if ident_start_char(s.get_char(j)) && word_is_return(s, n, j, e0) {
        // return [expr] ;   or   return [expr] }
        let w = scan_ws(s, n, e0);
        if w < n && s.get_char(w) == ';' {
            return Ok((Action::Return(None), w + 1));
        }
        if w < n && s.get_char(w) == '}' {
            return Ok((Action::Return(None), w));
        }
        let end = scan_stmt_end(s, n, w);
        if end >= n {
            return Err(
                SyntaxError::new(
                    line_of(s, n, w),
                    "unexpected end of input in a return value".to_owned(),
                    None,
                ),
            );
        }
        let t = scan_rtrim(s, n, w, end);
        let text = substr(s, w, t);
        let k = if s.get_char(end) == ';' {
            end + 1
        } else {
            end
        };
        return Ok((Action::Return(Some(text)), k));
    }
    // an opaque host statement
    let end = scan_stmt_end(s, n, j);
    if end >= n {
        return Err(
            SyntaxError::new(
                line_of(s, n, j),
                "unexpected end of input in a statement".to_owned(),
                None,
            ),
        );
    }
    let t = scan_rtrim(s, n, j, end);
    let text = substr(s, j, t);
    let k = if s.get_char(end) == ';' {
        end + 1
    } else {
        end
    };
    Ok((Action::Host(text), k))
}

/// A body block: `{`, statements, `}`.
fn parse_block_x(s: &str, n: usize, i: usize) -> (r: Result<(Vec<Action>, usize), SyntaxError>)
    requires
        s.is_ascii(),
        n == s@.len(),
        i <= n,
    ensures
        match r {
            Ok((acts, k)) => parse_block(s@, i as int) == Some((acts.deep_view(), k as int)) && i
                < k <= n,
            Err(_) => parse_block(s@, i as int) is None,
        },
{
    if i >= n || s.get_char(i) != '{' {
        return Err(
            SyntaxError::new(line_of(s, n, i), "expected '{' to open a body".to_owned(), None),
        );
    }
    let mut acts: Vec<Action> = Vec::new();
    let mut cur = i + 1;
    proof {
        assert(acts.deep_view() =~= Seq::<crate::ast::ActionView>::empty());
    }
    loop
        invariant
            s.is_ascii(),
            n == s@.len(),
            i < n,
            s@[i as int] == '{',
            i < cur <= n,
            parse_stmts(s@, (i + 1) as int) == match parse_stmts(s@, cur as int) {
                Some((rest, m)) => Some((acts.deep_view() + rest, m)),
                None => None::<(Seq<crate::ast::ActionView>, int)>,
            },
        decreases n - cur,
    {
        let j = scan_ws(s, n, cur);
        if j >= n {
            return Err(
                SyntaxError::new(
                    line_of(s, n, j),
                    "unexpected end of input inside a body".to_owned(),
                    None,
                ),
            );
        }
        if s.get_char(j) == '}' {
            proof {
                assert(acts.deep_view() + Seq::<crate::ast::ActionView>::empty()
                    =~= acts.deep_view());
            }
            return Ok((acts, j + 1));
        }
        match parse_stmt_x(s, n, j) {
            Ok((a, k)) => {
                let ghost prev = acts.deep_view();
                let ghost av = a@;
                acts.push(a);
                proof {
                    assert(acts.deep_view() =~= prev.push(av));
                    assert(forall|rest: Seq<crate::ast::ActionView>|
                        (prev + (seq![av] + rest)) =~= (acts.deep_view() + rest));
                }
                cur = k;
            },
            Err(e) => {
                return Err(e);
            },
        }
    }
}

/// The optional `!? { ... }` else body after a rule's body.
fn parse_after_x(
    s: &str,
    n: usize,
    b: usize,
    name: String,
    cond: Option<String>,
    body: Vec<Action>,
) -> (r: Result<(Rule, usize), SyntaxError>)
    requires
        s.is_ascii(),
        n == s@.len(),
        b <= n,
    ensures
        match r {
            Ok((rl, k)) => rule_after_body(
                s@,
                b as int,
                name@,
                cond.deep_view(),
                body.deep_view(),
            ) == Some((rl@, k as int)) && b <= k <= n,
            Err(_) => rule_after_body(s@, b as int, name@, cond.deep_view(), body.deep_view())
                is None,
        },
{
    let x = scan_ws(s, n, b);
    if x < n && s.get_char(x) == '!' {
        let y = scan_ws(s, n, x + 1);
        if y >= n || s.get_char(y) != '?' {
            return Err(
                SyntaxError::new(
                    line_of(s, n, y),
                    "expected '?' after '!' in an else clause".to_owned(),
                    None,
                ),
            );
        }
        let z = scan_ws(s, n, y + 1);
        match parse_block_x(s, n, z) {
            Ok((eb, w)) => {
                if cond.is_some() {
                    Ok((Rule { name, condition: cond, body, else_body: Some(eb) }, w))
                } else {
                    Err(
                        SyntaxError::new(
                            line_of(s, n, x),
                            "a rule cannot have an else clause without a condition".to_owned(),
                            None,
                        ),
                    )
                }
            },
            Err(e) => Err(e),
        }
    } else {
        Ok((Rule { name, condition: cond, body, else_body: None }, b))
    }
}

/// One rule: name, `?`, optional condition, body, optional else body.
fn parse_rule_x(s: &str, n: usize, i: usize) -> (r: Result<(Rule, usize), SyntaxError>)
    requires
        s.is_ascii(),
        n == s@.len(),
        i < n,
        is_ident_start(s@[i as int]),
    ensures
        match r {
            Ok((rl, k)) => parse_rule(s@, i as int) == Some((rl@, k as int)) && i < k <= n,
            Err(_) => parse_rule(s@, i as int) is None,
        },
{
    proof {
        lemma_parse_rule_bounds(s@, i as int);
    }
    let e = scan_ident_end(s, n, i);
    let name = substr(s, i, e);
    let q = scan_ws(s, n, e);
    if q >= n || s.get_char(q) != '?' {
        return Err(
            SyntaxError::new(
                line_of(s, n, q),
                "expected '?' after a rule name".to_owned(),
                None,
            ),
        );
    }
    let a = scan_ws(s, n, q + 1);
    if a < n && s.get_char(a) == '{' {
        match parse_block_x(s, n, a) {
            Ok((body, b)) => parse_after_x(s, n, b, name, None, body),
            Err(e) => Err(e),
        }
    } else {
        let brace = scan_cond_end(s, n, a);
        if brace >= n {
            return Err(
                SyntaxError::new(
                    line_of(s, n, a),
                    "unexpected end of input, expected a rule body '{'".to_owned(),
                    None,
                ),
            );
        }
        let t = scan_rtrim(s, n, a, brace);
        let cond = substr(s, a, t);
        match parse_block_x(s, n, brace) {
            Ok((body, b)) => parse_after_x(s, n, b, name, Some(cond), body),
            Err(e) => Err(e),
        }
    }
}

/// One state: `@`, its name, then its rules up to the next header.
fn parse_state_x(s: &str, n: usize, j: usize) -> (r: Result<(State, usize), SyntaxError>)
    requires
        s.is_ascii(),
        n == s@.len(),
        j < n,
        s@[j as int] == '@',
    ensures
        match r {
            Ok((st, k)) => parse_state(s@, j as int) == Some((st@, k as int)) && j < k <= n,
            Err(_) => parse_state(s@, j as int) is None,
        },
{
    proof {
        lemma_parse_state_bounds(s@, j as int);
    }
    let a = scan_ws(s, n, j + 1);
    if a >= n || !ident_start_char(s.get_char(a)) {
        return Err(
            SyntaxError::new(
                line_of(s, n, a),
                "expected a state name after '@'".to_owned(),
                None,
            ),
        );
    }
    let e = scan_ident_end(s, n, a);
    let name = substr(s, a, e);
    let mut rules: Vec<Rule> = Vec::new();
    let mut cur = e;
    proof {
        assert(rules.deep_view() =~= Seq::<crate::ast::RuleView>::empty());
    }
    loop
        invariant
            s.is_ascii(),
            n == s@.len(),
            cur <= n,
            parse_rules(s@, e as int) == match parse_rules(s@, cur as int) {
                Some((rest, m)) => Some((rules.deep_view() + rest, m)),
                None => None::<(Seq<crate::ast::RuleView>, int)>,
            },
            e <= cur,
            j < e <= n,
            parse_state(s@, j as int) == match parse_rules(s@, e as int) {
                Some((rs, k)) => Some(
                    (crate::ast::StateView { name: name@, rules: rs }, k),
                ),
                None => None::<(crate::ast::StateView, int)>,
            },
        decreases n - cur,
    {
        let w = scan_ws(s, n, cur);
        if w >= n || s.get_char(w) == '@' {
            proof {
                assert(rules.deep_view() + Seq::<crate::ast::RuleView>::empty()
                    =~= rules.deep_view());
            }
            return Ok((State { name, rules }, w));
        }
        if !ident_start_char(s.get_char(w)) {
            return Err(
                SyntaxError::new(
                    line_of(s, n, w),
                    "expected a rule name or a state header".to_owned(),
                    None,
                ),
            );
        }
        match parse_rule_x(s, n, w) {
            Ok((rl, k)) => {
                let ghost prev = rules.deep_view();
                let ghost rv = rl@;
                rules.push(rl);
                proof {
                    assert(rules.deep_view() =~= prev.push(rv));
                    assert(forall|rest: Seq<crate::ast::RuleView>|
                        (prev + (seq![rv] + rest)) =~= (rules.deep_view() + rest));
                }
                cur = k;
            },
            Err(e) => {
                return Err(e);
            },
        }
    }
}

/// Parse program text into its abstract syntax tree. The text must be ASCII
/// and consist of whitespace-separated states; the returned program is
/// exactly the one the grammar assigns to the text, and an error comes back
/// exactly when the grammar assigns it none.
pub fn parse(src: &str) -> (r: Result<Program, SyntaxError>)
    ensures
        r is Ok <==> spec_parse(src@) is Some,
        r is Ok ==> Some(r->Ok_0@) == spec_parse(src@),
{
    if !src.is_ascii() {
        return Err(SyntaxError::lnew("the source must be ASCII text"));
    }
    let n = str_len(src);
    let mut states: Vec<State> = Vec::new();
    let mut cur: usize = 0;
    proof {
        assert(states.deep_view() =~= Seq::<crate::ast::StateView>::empty());
    }
    loop
        invariant
            src.is_ascii(),
            n == src@.len(),
            cur <= n,
            parse_states(src@, 0) == match parse_states(src@, cur as int) {
                Some((rest, m)) => Some((states.deep_view() + rest, m)),
                None => None::<(Seq<crate::ast::StateView>, int)>,
            },
        decreases n - cur,
    {
        let j = scan_ws(src, n, cur);
        if j >= n {
            proof {
                assert(states.deep_view() + Seq::<crate::ast::StateView>::empty()
                    =~= states.deep_view());
            }
            return Ok(Program { states });
        }
        if src.get_char(j) != '@' {
            return Err(
                SyntaxError::new(
                    line_of(src, n, j),
                    "expected a state header '@'".to_owned(),
                    None,
                ),
            );
        }
        match parse_state_x(src, n, j) {
            Ok((st, k)) => {
                let ghost prev = states.deep_view();
                let ghost sv = st@;
                states.push(st);
                proof {
                    assert(states.deep_view() =~= prev.push(sv));
                    assert(forall|rest: Seq<crate::ast::StateView>|
                        (prev + (seq![sv] + rest)) =~= (states.deep_view() + rest));
                }
                cur = k;
            },
            Err(e) => {
                return Err(e);
            },
        }
    }
}

} // verus!
