//! The grammar of whitespace-separated prefix expressions, and its parser.
//!
//! ```text
//! expression := operator WS operand (WS operand)+
//! operand    := number | "(" WS? expression WS? ")"
//! operator   := "+" | "-" | "*" | "/"
//! number     := "-"? digit+            (digit is script-specific)
//! WS         := one or more whitespace characters
//! ```
//!
//! The whole input must be one expression, up to surrounding whitespace.
//! The reference meaning of a parse is given by the `spec_parse` family of
//! specification functions; the executable parser is proved to return
//! exactly what they state, including every error and its position.

use vstd::prelude::*;
use vstd::string::StrSliceExecFns;

verus! {

use crate::ast::{Operator, Node, TreeModel, wf_tree, models_of, tree_model, bounded};
use crate::ast::{lemma_models_of, lemma_models_push};
use crate::numeral::{
    Script,
    digit_value,
    is_script_digit,
    from_digits,
    all_digit_values,
    NumeralError,
    script_value_of,
    lemma_from_digits_bounds,
    lemma_from_digits_step,
    string_from_chars,
    ascii_digit_value,
    devanagari_digit_value,
    digit_char,
    lemma_digit_char_value,
};

/// The grammar rule that was expected at the position where parsing failed.
#[derive(Debug, PartialEq, Eq, Clone, Copy, Structural)]
pub enum Expected {
    Operator,
    Whitespace,
    Operand,
    Digit,
    CloseParen,
    EndOfInput,
}

/// A syntax failure: the character offset at which it was noticed, and the
/// grammar rule that was expected there.
#[derive(Debug, PartialEq, Eq, Clone, Copy, Structural)]
pub struct SyntaxError {
    pub pos: usize,
    pub expected: Expected,
}

/// Why a parse failed: the text is not grammatical, or a number literal in
/// it does not decode to a 32-bit value.
#[derive(Debug, PartialEq, Eq, Clone)]
pub enum ParseError {
    Syntax(SyntaxError),
    Numeral(NumeralError),
}

/// The mathematical model of a [`ParseError`].
#[verifier::ext_equal]
pub enum ParseErrModel {
    Syntax { pos: int, expected: Expected },
    Invalid(Seq<char>),
}

impl View for ParseError {
    type V = ParseErrModel;

    open spec fn view(&self) -> ParseErrModel {
        match self {
            ParseError::Syntax(e) => ParseErrModel::Syntax {
                pos: e.pos as int,
                expected: e.expected,
            },
            ParseError::Numeral(NumeralError::Invalid(t)) => ParseErrModel::Invalid(t@),
        }
    }
}

/// The characters the grammar treats as whitespace.
pub open spec fn is_ws(c: char) -> bool {
    c == ' ' || c == '\t' || c == '\r' || c == '\n'
}

/// What remains of the input from position `i` on.
pub open spec fn rem(s: Seq<char>, i: int) -> nat {
    if i <= s.len() {
        (s.len() - i) as nat
    } else {
        0
    }
}

/// The length of the whitespace run starting at `i`.
pub open spec fn ws_run(s: Seq<char>, i: int) -> nat
    decreases rem(s, i),
{
    if 0 <= i < s.len() && is_ws(s[i]) {
        1 + ws_run(s, i + 1)
    } else {
        0
    }
}

/// The length of the run of script digits starting at `i`.
pub open spec fn digit_run(sc: Script, s: Seq<char>, i: int) -> nat
    decreases rem(s, i),
{
    if 0 <= i < s.len() && is_script_digit(sc, s[i]) {
        1 + digit_run(sc, s, i + 1)
    } else {
        0
    }
}

/// The operator a character denotes, if any.
pub open spec fn char_operator(c: char) -> Option<Operator> {
    if c == '+' {
        Some(Operator::Add)
    } else if c == '-' {
        Some(Operator::Subtract)
    } else if c == '*' {
        Some(Operator::Multiply)
    } else if c == '/' {
        Some(Operator::Divide)
    } else {
        None
    }
}

/// A character that can begin an operand: an opening parenthesis, a minus
/// sign, or a script digit.
pub open spec fn starts_operand(sc: Script, c: char) -> bool {
    c == '(' || c == '-' || is_script_digit(sc, c)
}

/// The digit values of `s[i..j]` in the given script.
pub open spec fn script_digit_vals(sc: Script, s: Seq<char>, i: int, j: int) -> Seq<int> {
    Seq::new(
        if j >= i {
            (j - i) as nat
        } else {
            0
        },
        |k: int| digit_value(sc, s[i + k]).unwrap(),
    )
}

/// What parsing a number literal at position `i` yields: an optional minus
/// sign, then one or more script digits, rejected with the original literal
/// text when the value leaves the 32-bit range.
pub open spec fn spec_parse_number(sc: Script, s: Seq<char>, i: int) -> Result<
    (TreeModel, int),
    ParseErrModel,
> {
    let neg = 0 <= i < s.len() && s[i] == '-';
    let d0 = if neg {
        i + 1
    } else {
        i
    };
    let j = d0 + digit_run(sc, s, d0);
    if j == d0 {
        Err(ParseErrModel::Syntax { pos: d0, expected: Expected::Digit })
    } else {
        let m = from_digits(script_digit_vals(sc, s, d0, j));
        let v = if neg {
            -m
        } else {
            m
        };
        if bounded(v) {
            Ok((TreeModel::Int(v), j))
        } else {
            Err(ParseErrModel::Invalid(s.subrange(i, j)))
        }
    }
}

/// What parsing an operand at position `i` yields: a number, or a
/// parenthesized expression.
pub open spec fn spec_parse_operand(sc: Script, s: Seq<char>, i: int) -> Result<
    (TreeModel, int),
    ParseErrModel,
>
    decreases rem(s, i), 1int,
{
    if !(0 <= i < s.len()) {
        Err(ParseErrModel::Syntax { pos: i, expected: Expected::Operand })
    } else if s[i] == '(' {
        let j = i + 1 + ws_run(s, i + 1);
        match spec_parse_expr(sc, s, j) {
            Err(e) => Err(e),
            Ok((t, k)) => {
                let m = k + ws_run(s, k);
                if 0 <= m < s.len() && s[m] == ')' {
                    Ok((t, m + 1))
                } else {
                    Err(ParseErrModel::Syntax { pos: m, expected: Expected::CloseParen })
                }
            },
        }
    } else if s[i] == '-' || is_script_digit(sc, s[i]) {
        spec_parse_number(sc, s, i)
    } else {
        Err(ParseErrModel::Syntax { pos: i, expected: Expected::Operand })
    }
}

/// What parsing an expression at position `i` yields: an operator, one
/// whitespace run, and at least two whitespace-separated operands.
pub open spec fn spec_parse_expr(sc: Script, s: Seq<char>, i: int) -> Result<
    (TreeModel, int),
    ParseErrModel,
>
    decreases rem(s, i), 0int,
{
    if !(0 <= i < s.len()) {
        Err(ParseErrModel::Syntax { pos: i, expected: Expected::Operator })
    } else {
        match char_operator(s[i]) {
            None => Err(ParseErrModel::Syntax { pos: i, expected: Expected::Operator }),
            Some(op) => {
                if !(i + 1 < s.len() && is_ws(s[i + 1])) {
                    Err(ParseErrModel::Syntax { pos: i + 1, expected: Expected::Whitespace })
                } else {
                    let j = i + 2 + ws_run(s, i + 2);
                    match spec_parse_operand(sc, s, j) {
                        Err(e) => Err(e),
                        Ok((first, k)) => {
                            let k2 = if k > j {
                                k
                            } else {
                                j + 1
                            };
                            spec_parse_rest(sc, s, op, seq![first], k2)
                        },
                    }
                }
            },
        }
    }
}

/// The remaining `(WS operand)*` of an expression: as long as a whitespace
/// run followed by an operand start is ahead, one more operand is taken;
/// otherwise the expression closes here, needing at least two operands.
pub open spec fn spec_parse_rest(
    sc: Script,
    s: Seq<char>,
    op: Operator,
    children: Seq<TreeModel>,
    i: int,
) -> Result<(TreeModel, int), ParseErrModel>
    decreases rem(s, i), 2int,
{
    let run = ws_run(s, i);
    let q = i + run;
    if run >= 1 && q < s.len() && starts_operand(sc, s[q]) {
        match spec_parse_operand(sc, s, q) {
            Err(e) => Err(e),
            Ok((t, k)) => {
                let k2 = if k > q {
                    k
                } else {
                    q + 1
                };
                spec_parse_rest(sc, s, op, children.push(t), k2)
            },
        }
    } else if children.len() >= 2 {
        Ok((TreeModel::Expr { op, children }, i))
    } else {
        Err(ParseErrModel::Syntax { pos: q, expected: Expected::Operand })
    }
}

/// What parsing a whole source line yields: one expression, up to
/// surrounding whitespace; anything after it is trailing input.
pub open spec fn spec_parse(sc: Script, s: Seq<char>) -> Result<TreeModel, ParseErrModel> {
    let i = ws_run(s, 0) as int;
    match spec_parse_expr(sc, s, i) {
        Err(e) => Err(e),
        Ok((t, k)) => {
            let m = k + ws_run(s, k);
            if m == s.len() {
                Ok(t)
            } else {
                Err(ParseErrModel::Syntax { pos: m, expected: Expected::EndOfInput })
            }
        },
    }
}

/// A successful parse always moves forward, never past the end of the
/// input, and only ever builds well-formed trees.
pub proof fn lemma_expr_progress(sc: Script, s: Seq<char>, i: int)
    ensures
        spec_parse_expr(sc, s, i) matches Ok((t, k)) ==> i < k <= s.len() && wf_tree(t),
    decreases rem(s, i), 0int,
{
    if 0 <= i < s.len() {
        match char_operator(s[i]) {
            None => {},
            Some(op) => {
                if i + 1 < s.len() && is_ws(s[i + 1]) {
                    let j = i + 2 + ws_run(s, i + 2);
                    lemma_operand_progress(sc, s, j);
                    match spec_parse_operand(sc, s, j) {
                        Err(_) => {},
                        Ok((first, k)) => {
                            lemma_rest_progress(sc, s, op, seq![first], k);
                        },
                    }
                }
            },
        }
    }
}

/// Progress and well-formedness for operands; see [`lemma_expr_progress`].
pub proof fn lemma_operand_progress(sc: Script, s: Seq<char>, i: int)
    ensures
        spec_parse_operand(sc, s, i) matches Ok((t, k)) ==> i < k <= s.len() && wf_tree(t),
    decreases rem(s, i), 1int,
{
    if 0 <= i < s.len() {
        if s[i] == '(' {
            let j = i + 1 + ws_run(s, i + 1);
            lemma_expr_progress(sc, s, j);
        } else if s[i] == '-' || is_script_digit(sc, s[i]) {
            lemma_digit_run_bound(sc, s, i);
            lemma_digit_run_bound(sc, s, i + 1);
        }
    }
}

/// Progress and well-formedness for the tail of an expression; the result
/// closes at or after `i`, and is well-formed when the children gathered so
/// far are.
pub proof fn lemma_rest_progress(
    sc: Script,
    s: Seq<char>,
    op: Operator,
    children: Seq<TreeModel>,
    i: int,
)
    requires
        0 <= i <= s.len(),
        forall|t: int| 0 <= t < children.len() ==> wf_tree(#[trigger] children[t]),
    ensures
        spec_parse_rest(sc, s, op, children, i) matches Ok((t, k)) ==> i <= k <= s.len()
            && wf_tree(t),
    decreases rem(s, i), 2int,
{
    let run = ws_run(s, i);
    let q = i + run;
    lemma_ws_run_bound(s, i);
    if run >= 1 && q < s.len() && starts_operand(sc, s[q]) {
        lemma_operand_progress(sc, s, q);
        match spec_parse_operand(sc, s, q) {
            Err(_) => {},
            Ok((t, k)) => {
                let children2 = children.push(t);
                assert(forall|u: int|
                    0 <= u < children2.len() ==> wf_tree(#[trigger] children2[u]));
                lemma_rest_progress(sc, s, op, children2, k);
            },
        }
    }
}

/// A whitespace run never runs past the end of the input.
pub proof fn lemma_ws_run_bound(s: Seq<char>, i: int)
    requires
        0 <= i <= s.len(),
    ensures
        i + ws_run(s, i) <= s.len(),
    decreases rem(s, i),
{
    if i < s.len() && is_ws(s[i]) {
        lemma_ws_run_bound(s, i + 1);
    }
}

/// A digit run never runs past the end of the input.
pub proof fn lemma_digit_run_bound(sc: Script, s: Seq<char>, i: int)
    requires
        0 <= i <= s.len(),
    ensures
        i + digit_run(sc, s, i) <= s.len(),
    decreases rem(s, i),
{
    if i < s.len() && is_script_digit(sc, s[i]) {
        lemma_digit_run_bound(sc, s, i + 1);
    }
}

/// The model of one parsing step's outcome.
pub open spec fn step_model(r: Result<(Node, usize), ParseError>) -> Result<
    (TreeModel, int),
    ParseErrModel,
> {
    match r {
        Ok(p) => Ok((tree_model(p.0), p.1 as int)),
        Err(e) => Err(e@),
    }
}

/// Whether the grammar treats `c` as whitespace, executably.
fn is_ws_char(c: char) -> (r: bool)
    ensures
        r == is_ws(c),
{
    c == ' ' || c == '\t' || c == '\r' || c == '\n'
}

/// Whether `c` is a digit of the script, executably.
fn is_digit_char(sc: Script, c: char) -> (r: bool)
    ensures
        r == is_script_digit(sc, c),
{
    match script_value_of(sc, c) {
        Some(_) => true,
        None => false,
    }
}

/// The position right after the whitespace run starting at `i`.
fn skip_ws(s: &Vec<char>, i: usize) -> (r: usize)
    requires
        i <= s@.len(),
    ensures
        r as int == i + ws_run(s@, i as int),
        i <= r <= s@.len(),
{
    let n = s.len();
    let mut j = i;
    while j < n && is_ws_char(s[j])
        invariant
            i <= j <= n,
            n == s@.len(),
            ws_run(s@, i as int) == (j - i) + ws_run(s@, j as int),
        decreases n - j,
    {
        j = j + 1;
    }
    j
}

/// The operator a character denotes, executably.  This is the grammar's
/// `operator` rule.
fn parse_operator(c: char) -> (r: Option<Operator>)
    ensures
        r == char_operator(c),
{
    if c == '+' {
        Some(Operator::Add)
    } else if c == '-' {
        Some(Operator::Subtract)
    } else if c == '*' {
        Some(Operator::Multiply)
    } else if c == '/' {
        Some(Operator::Divide)
    } else {
        None
    }
}

/// The text of `s[i..j]`, spelled as a `String`.
fn literal_text(s: &Vec<char>, i: usize, j: usize) -> (r: String)
    requires
        i <= j <= s@.len(),
    ensures
        r@ == s@.subrange(i as int, j as int),
{
    let mut lit: Vec<char> = Vec::new();
    let mut t = i;
    while t < j
        invariant
            i <= t <= j <= s@.len(),
            lit@ == s@.subrange(i as int, t as int),
        decreases j - t,
    {
        lit.push(s[t]);
        proof {
            assert(lit@ =~= s@.subrange(i as int, t as int + 1));
        }
        t = t + 1;
    }
    string_from_chars(&lit)
}

/// Parses the grammar's `number` rule at position `i`, exactly as
/// [`spec_parse_number`] states.
fn parse_number(sc: Script, s: &Vec<char>, i: usize) -> (r: Result<(Node, usize), ParseError>)
    requires
        i < s@.len(),
    ensures
        step_model(r) == spec_parse_number(sc, s@, i as int),
        r matches Ok(p) ==> p.1 <= s@.len(),
{
    let n = s.len();
    let neg = s[i] == '-';
    let d0 = if neg {
        i + 1
    } else {
        i
    };
    let mut j = d0;
    while j < n && is_digit_char(sc, s[j])
        invariant
            d0 <= j <= n,
            n == s@.len(),
            digit_run(sc, s@, d0 as int) == (j - d0) + digit_run(sc, s@, j as int),
            forall|t: int| d0 <= t < j ==> is_script_digit(sc, #[trigger] s@[t]),
        decreases n - j,
    {
        j = j + 1;
    }
    proof {
        assert(j as int == d0 + digit_run(sc, s@, d0 as int));
    }
    if j == d0 {
        return Err(ParseError::Syntax(SyntaxError { pos: d0, expected: Expected::Digit }));
    }
    let ghost dvals = script_digit_vals(sc, s@, d0 as int, j as int);
    proof {
        assert forall|t: int| 0 <= t < dvals.len() implies 0 <= #[trigger] dvals[t] <= 9 by {
            assert(is_script_digit(sc, s@[d0 + t]));
        }
    }
    let mut m: u64 = 0;
    let mut k = d0;
    let mut big = false;
    while k < j
        invariant
            d0 <= k <= j <= n,
            n == s@.len(),
            dvals == script_digit_vals(sc, s@, d0 as int, j as int),
            all_digit_values(dvals),
            forall|t: int| d0 <= t < j ==> is_script_digit(sc, #[trigger] s@[t]),
            !big ==> m == from_digits(dvals.take(k - d0)) && m <= 0x8000_0000,
            big ==> from_digits(dvals) > 0x8000_0000,
        decreases j - k,
    {
        if !big {
            let dv = match script_value_of(sc, s[k]) {
                Some(d) => d,
                None => 0,  // never taken: every character in the run is a digit
            };
            proof {
                lemma_from_digits_step(dvals, k - d0);
                assert(dvals[k - d0] == dv as int);
            }
            let m2 = m * 10 + (dv as u64);
            if m2 > 0x8000_0000 {
                proof {
                    lemma_from_digits_bounds(dvals, k - d0 + 1);
                }
                big = true;
            } else {
                m = m2;
            }
        }
        k = k + 1;
    }
    if big {
        let e = ParseError::Numeral(NumeralError::Invalid(literal_text(s, i, j)));
        proof {
            assert(e@ =~= ParseErrModel::Invalid(s@.subrange(i as int, j as int)));
        }
        Err(e)
    } else {
        proof {
            assert(dvals.take(j - d0) =~= dvals);
        }
        if neg {
            let v = (-(m as i64)) as i32;
            proof {
                assert(-0x8000_0000 <= -(m as i64) <= 0);
                assert(v as int == -(m as int));
            }
            Ok((Node::Int(v), j))
        } else {
            if m > 0x7fff_ffff {
                let e = ParseError::Numeral(NumeralError::Invalid(literal_text(s, i, j)));
                proof {
                    assert(e@ =~= ParseErrModel::Invalid(s@.subrange(i as int, j as int)));
                }
                Err(e)
            } else {
                Ok((Node::Int(m as i32), j))
            }
        }
    }
}

/// Whether `c` can begin an operand, executably.
fn starts_operand_char(sc: Script, c: char) -> (r: bool)
    ensures
        r == starts_operand(sc, c),
{
    c == '(' || c == '-' || is_digit_char(sc, c)
}

/// Parses the grammar's `operand` rule at position `i`, exactly as
/// [`spec_parse_operand`] states.
fn parse_operand(sc: Script, s: &Vec<char>, i: usize) -> (r: Result<(Node, usize), ParseError>)
    requires
        i <= s@.len(),
    ensures
        step_model(r) == spec_parse_operand(sc, s@, i as int),
        r matches Ok(p) ==> p.1 <= s@.len(),
    decreases rem(s@, i as int), 1int,
{
    let n = s.len();
    if i >= n {
        return Err(ParseError::Syntax(SyntaxError { pos: i, expected: Expected::Operand }));
    }
    let c = s[i];
    if c == '(' {
        let j = skip_ws(s, i + 1);
        match parse_notation(sc, s, j) {
            Err(e) => Err(e),
            Ok((t, k)) => {
                let m = skip_ws(s, k);
                if m < n && s[m] == ')' {
                    Ok((t, m + 1))
                } else {
                    Err(ParseError::Syntax(SyntaxError { pos: m, expected: Expected::CloseParen }))
                }
            },
        }
    } else if c == '-' || is_digit_char(sc, c) {
        parse_number(sc, s, i)
    } else {
        Err(ParseError::Syntax(SyntaxError { pos: i, expected: Expected::Operand }))
    }
}

/// Parses the grammar's `expression` rule at position `i`: an operator and
/// its whitespace-separated operands, exactly as [`spec_parse_expr`] states.
fn parse_notation(sc: Script, s: &Vec<char>, i: usize) -> (r: Result<(Node, usize), ParseError>)
    requires
        i <= s@.len(),
    ensures
        step_model(r) == spec_parse_expr(sc, s@, i as int),
        r matches Ok(p) ==> p.1 <= s@.len(),
    decreases rem(s@, i as int), 0int,
{
    let n = s.len();
    if i >= n {
        return Err(ParseError::Syntax(SyntaxError { pos: i, expected: Expected::Operator }));
    }
    let op = match parse_operator(s[i]) {
        None => {
            return Err(ParseError::Syntax(SyntaxError { pos: i, expected: Expected::Operator }));
        },
        Some(op) => op,
    };
    if !(i + 1 < n && is_ws_char(s[i + 1])) {
        return Err(ParseError::Syntax(SyntaxError { pos: i + 1, expected: Expected::Whitespace }));
    }
    let j = skip_ws(s, i + 2);
    let (first, k) = match parse_operand(sc, s, j) {
        Err(e) => {
            return Err(e);
        },
        Ok(p) => p,
    };
    proof {
        lemma_operand_progress(sc, s@, j as int);
    }
    let mut children: Vec<Node> = Vec::new();
    children.push(first);
    proof {
        lemma_models_push(Seq::empty(), first);
        assert(children@ =~= Seq::empty().push(first));
        assert(models_of(children@) =~= seq![tree_model(first)]);
    }
    let mut cur = k;
    loop
        invariant
            i < cur <= n,
            n == s@.len(),
            children@.len() >= 1,
            spec_parse_expr(sc, s@, i as int) == spec_parse_rest(
                sc,
                s@,
                op,
                models_of(children@),
                cur as int,
            ),
        decreases n - cur,
    {
        let q = skip_ws(s, cur);
        if q > cur && q < n && starts_operand_char(sc, s[q]) {
            match parse_operand(sc, s, q) {
                Err(e) => {
                    return Err(e);
                },
                Ok((t, k2)) => {
                    proof {
                        lemma_operand_progress(sc, s@, q as int);
                        lemma_models_push(children@, t);
                    }
                    children.push(t);
                    cur = k2;
                },
            }
        } else {
            proof {
                lemma_models_of(children@);
            }
            if children.len() >= 2 {
                return Ok((Node::Expr { op, children }, cur));
            } else {
                return Err(ParseError::Syntax(SyntaxError { pos: q, expected: Expected::Operand }));
            }
        }
    }
}

/// Parses a whole source line with the given digit script, exactly as
/// [`spec_parse`] states; a successful parse is a well-formed tree.
pub(crate) fn parse_core(sc: Script, source: &str) -> (r: Result<Node, ParseError>)
    ensures
        match r {
            Ok(node) => spec_parse(sc, source@) == Ok::<TreeModel, ParseErrModel>(tree_model(node))
                && wf_tree(tree_model(node)),
            Err(e) => spec_parse(sc, source@) == Err::<TreeModel, ParseErrModel>(e@),
        },
{
    let n = source.unicode_len();
    let mut cs: Vec<char> = Vec::new();
    let mut t: usize = 0;
    while t < n
        invariant
            t <= n,
            n == source@.len(),
            cs@ == source@.take(t as int),
        decreases n - t,
    {
        cs.push(source.get_char(t));
        proof {
            assert(cs@ =~= source@.take(t as int + 1));
        }
        t = t + 1;
    }
    proof {
        assert(cs@ =~= source@);
    }
    let i = skip_ws(&cs, 0);
    proof {
        lemma_expr_progress(sc, cs@, i as int);
    }
    match parse_notation(sc, &cs, i) {
        Err(e) => Err(e),
        Ok((node, k)) => {
            let m = skip_ws(&cs, k);
            if m == cs.len() {
                Ok(node)
            } else {
                Err(ParseError::Syntax(SyntaxError { pos: m, expected: Expected::EndOfInput }))
            }
        },
    }
}

/// A character of a plain-Polish source transliterated into the Devanagari
/// variant: ASCII digits become Devanagari digits, everything else is kept.
pub open spec fn transliterated_char(c: char) -> char {
    if ascii_digit_value(c) is Some {
        digit_char(Script::Devanagari, ascii_digit_value(c).unwrap())
    } else {
        c
    }
}

/// A whole source transliterated character by character.
pub open spec fn transliterate(s: Seq<char>) -> Seq<char> {
    s.map_values(|c: char| transliterated_char(c))
}

/// A plain-Polish source: one that spells no digit in the Devanagari script.
pub open spec fn ascii_source(s: Seq<char>) -> bool {
    forall|i: int| 0 <= i < s.len() ==> devanagari_digit_value(#[trigger] s[i]) is None
}

/// Transliteration changes how a character is classified in no way other
/// than moving its digit reading from one script to the other.
proof fn lemma_translit_char(c: char)
    requires
        devanagari_digit_value(c) is None,
    ensures
        is_ws(transliterated_char(c)) == is_ws(c),
        char_operator(transliterated_char(c)) == char_operator(c),
        digit_value(Script::Devanagari, transliterated_char(c)) == digit_value(Script::Ascii, c),
        (transliterated_char(c) == '(') == (c == '('),
        (transliterated_char(c) == ')') == (c == ')'),
        starts_operand(Script::Devanagari, transliterated_char(c)) == starts_operand(
            Script::Ascii,
            c,
        ),
{
    if ascii_digit_value(c) is Some {
        lemma_digit_char_value(Script::Devanagari, ascii_digit_value(c).unwrap());
    }
}

/// Transliteration keeps every whitespace run.
proof fn lemma_translit_ws_run(s: Seq<char>, i: int)
    requires
        ascii_source(s),
    ensures
        ws_run(transliterate(s), i) == ws_run(s, i),
    decreases rem(s, i),
{
    if 0 <= i < s.len() {
        lemma_translit_char(s[i]);
        if is_ws(s[i]) {
            lemma_translit_ws_run(s, i + 1);
        }
    }
}

/// Transliteration maps every ASCII digit run to a Devanagari digit run.
proof fn lemma_translit_digit_run(s: Seq<char>, i: int)
    requires
        ascii_source(s),
    ensures
        digit_run(Script::Devanagari, transliterate(s), i) == digit_run(Script::Ascii, s, i),
    decreases rem(s, i),
{
    if 0 <= i < s.len() {
        lemma_translit_char(s[i]);
        if is_script_digit(Script::Ascii, s[i]) {
            lemma_translit_digit_run(s, i + 1);
        }
    }
}

/// How a parse outcome of the plain source corresponds to the outcome on the
/// transliterated source: the same tree and position, or the same error, its
/// literal text transliterated.
pub open spec fn step_translit(
    a: Result<(TreeModel, int), ParseErrModel>,
    d: Result<(TreeModel, int), ParseErrModel>,
) -> bool {
    match a {
        Ok(p) => d == Ok::<(TreeModel, int), ParseErrModel>(p),
        Err(ParseErrModel::Syntax { pos, expected }) => d == Err::<
            (TreeModel, int),
            ParseErrModel,
        >(ParseErrModel::Syntax { pos, expected }),
        Err(ParseErrModel::Invalid(t)) => d == Err::<(TreeModel, int), ParseErrModel>(
            ParseErrModel::Invalid(transliterate(t)),
        ),
    }
}

/// Number literals parse alike in the two scripts.
proof fn lemma_translit_number(s: Seq<char>, i: int)
    requires
        ascii_source(s),
    ensures
        step_translit(
            spec_parse_number(Script::Ascii, s, i),
            spec_parse_number(Script::Devanagari, transliterate(s), i),
        ),
{
    let ts = transliterate(s);
    if 0 <= i < s.len() {
        lemma_translit_char(s[i]);
    }
    let neg = 0 <= i < s.len() && s[i] == '-';
    let d0 = if neg {
        i + 1
    } else {
        i
    };
    lemma_translit_digit_run(s, d0);
    let j = d0 + digit_run(Script::Ascii, s, d0);
    if j != d0 {
        lemma_digit_run_bound(Script::Ascii, s, d0);
        assert forall|k: int| 0 <= k < j - d0 implies digit_value(
            Script::Devanagari,
            #[trigger] ts[d0 + k],
        ) == digit_value(Script::Ascii, s[d0 + k]) by {
            lemma_translit_char(s[d0 + k]);
        }
        assert(script_digit_vals(Script::Devanagari, ts, d0, j) =~= script_digit_vals(
            Script::Ascii,
            s,
            d0,
            j,
        ));
        assert(ts.subrange(i, j) =~= transliterate(s.subrange(i, j)));
    }
}

/// Expressions parse alike in the two scripts.
proof fn lemma_translit_expr(s: Seq<char>, i: int)
    requires
        ascii_source(s),
    ensures
        step_translit(
            spec_parse_expr(Script::Ascii, s, i),
            spec_parse_expr(Script::Devanagari, transliterate(s), i),
        ),
    decreases rem(s, i), 0int,
{
    let ts = transliterate(s);
    if 0 <= i < s.len() {
        lemma_translit_char(s[i]);
        match char_operator(s[i]) {
            None => {},
            Some(op) => {
                if i + 1 < s.len() {
                    lemma_translit_char(s[i + 1]);
                }
                if i + 1 < s.len() && is_ws(s[i + 1]) {
                    lemma_translit_ws_run(s, i + 2);
                    let j = i + 2 + ws_run(s, i + 2);
                    lemma_translit_operand(s, j);
                    match spec_parse_operand(Script::Ascii, s, j) {
                        Err(_) => {},
                        Ok((first, k)) => {
                            let k2 = if k > j {
                                k
                            } else {
                                j + 1
                            };
                            lemma_translit_rest(s, op, seq![first], k2);
                        },
                    }
                }
            },
        }
    }
}

/// Operands parse alike in the two scripts.
proof fn lemma_translit_operand(s: Seq<char>, i: int)
    requires
        ascii_source(s),
    ensures
        step_translit(
            spec_parse_operand(Script::Ascii, s, i),
            spec_parse_operand(Script::Devanagari, transliterate(s), i),
        ),
    decreases rem(s, i), 1int,
{
    let ts = transliterate(s);
    if 0 <= i < s.len() {
        lemma_translit_char(s[i]);
        if s[i] == '(' {
            lemma_translit_ws_run(s, i + 1);
            let j = i + 1 + ws_run(s, i + 1);
            lemma_translit_expr(s, j);
            match spec_parse_expr(Script::Ascii, s, j) {
                Err(_) => {},
                Ok((t, k)) => {
                    lemma_translit_ws_run(s, k);
                    let m = k + ws_run(s, k);
                    if 0 <= m < s.len() {
                        lemma_translit_char(s[m]);
                    }
                },
            }
        } else if s[i] == '-' || is_script_digit(Script::Ascii, s[i]) {
            lemma_translit_number(s, i);
        }
    }
}

/// The tails of expressions parse alike in the two scripts.
proof fn lemma_translit_rest(s: Seq<char>, op: Operator, children: Seq<TreeModel>, i: int)
    requires
        ascii_source(s),
    ensures
        step_translit(
            spec_parse_rest(Script::Ascii, s, op, children, i),
            spec_parse_rest(Script::Devanagari, transliterate(s), op, children, i),
        ),
    decreases rem(s, i), 2int,
{
    let ts = transliterate(s);
    lemma_translit_ws_run(s, i);
    let run = ws_run(s, i);
    let q = i + run;
    if 0 <= q < s.len() {
        lemma_translit_char(s[q]);
    }
    if run >= 1 && q < s.len() && starts_operand(Script::Ascii, s[q]) {
        lemma_translit_operand(s, q);
        match spec_parse_operand(Script::Ascii, s, q) {
            Err(_) => {},
            Ok((t, k)) => {
                let k2 = if k > q {
                    k
                } else {
                    q + 1
                };
                lemma_translit_rest(s, op, children.push(t), k2);
            },
        }
    }
}

/// Script equivalence: a plain-Polish source and its transliteration into
/// the Devanagari script parse to the very same tree -- so they evaluate to
/// numerically identical results -- and fail alike, with the same position
/// and expectation; only the spelled text carried by an invalid-literal
/// error is transliterated along.
pub proof fn lemma_script_equivalence(s: Seq<char>)
    requires
        ascii_source(s),
    ensures
        spec_parse(Script::Ascii, s) matches Ok(t) ==> spec_parse(
            Script::Devanagari,
            transliterate(s),
        ) == Ok::<TreeModel, ParseErrModel>(t),
        spec_parse(Script::Ascii, s) matches Err(ParseErrModel::Syntax { pos, expected })
            ==> spec_parse(Script::Devanagari, transliterate(s)) == Err::<
            TreeModel,
            ParseErrModel,
        >(ParseErrModel::Syntax { pos, expected }),
        spec_parse(Script::Ascii, s) matches Err(ParseErrModel::Invalid(t)) ==> spec_parse(
            Script::Devanagari,
            transliterate(s),
        ) == Err::<TreeModel, ParseErrModel>(ParseErrModel::Invalid(transliterate(t))),
{
    let ts = transliterate(s);
    lemma_translit_ws_run(s, 0);
    let i = ws_run(s, 0) as int;
    lemma_translit_expr(s, i);
    match spec_parse_expr(Script::Ascii, s, i) {
        Err(_) => {},
        Ok((t, k)) => {
            lemma_translit_ws_run(s, k);
        },
    }
}

} // verus!
