//! Policy gate expressions (`--fail-if`).
//!
//! Grammar: `<expr> := <term> (("and" | "or") <term>)*`, where a term is
//! `<metric> <op> <number>`. Metrics are `regret_events`, `max_score` and
//! `events_per_100_commits`; operators are `>`, `>=`, `<`, `<=`, `==`, `!=`.
//! Boolean operators are read without regard to ASCII case.
//!
//! The lexer and parser are stated over the characters of the input. Numbers
//! are kept as their literal text (`-?[0-9]+(\.[0-9]*)?`); comparing metric
//! values with them is floating-point work and is left to the caller, who
//! hands the truth value of each term to [`Expression::combine_terms`].

use vstd::prelude::*;
use crate::text::{ascii_char, push_char, char_is_digit, char_is_whitespace, chars_of, is_digit_char, is_white_space};

verus! {

/// Available metrics for policy evaluation.
#[derive(Debug, Clone, Copy, PartialEq, Eq, Structural)]
pub enum Metric {
    RegretEvents,
    MaxScore,
    EventsPer100Commits,
}

/// The metric a name stands for.
pub open spec fn metric_of(s: Seq<char>) -> Option<Metric> {
    if s == "regret_events"@ {
        Some(Metric::RegretEvents)
    } else if s == "max_score"@ {
        Some(Metric::MaxScore)
    } else if s == "events_per_100_commits"@ {
        Some(Metric::EventsPer100Commits)
    } else {
        None
    }
}

/// Compares two character sequences.
fn chars_eq(a: &Vec<char>, b: &str) -> (r: bool)
    ensures
        r == (a@ == b@),
{
    let bc = chars_of(b);
    if a.len() != bc.len() {
        return false;
    }
    let mut i: usize = 0;
    while i < a.len()
        invariant
            a@.len() == bc@.len(),
            bc@ == b@,
            i <= a.len(),
            forall|j: int| 0 <= j < i ==> a@[j] == bc@[j],
        decreases a.len() - i,
    {
        if a[i] != bc[i] {
            return false;
        }
        i = i + 1;
    }
    assert(a@ =~= bc@);
    true
}

impl Metric {
    fn from_chars(s: &Vec<char>) -> (r: Option<Metric>)
        ensures
            r == metric_of(s@),
    {
        if chars_eq(s, "regret_events") {
            Some(Metric::RegretEvents)
        } else if chars_eq(s, "max_score") {
            Some(Metric::MaxScore)
        } else if chars_eq(s, "events_per_100_commits") {
            Some(Metric::EventsPer100Commits)
        } else {
            None
        }
    }

    /// Reads a metric name.
    pub fn from_str(s: &str) -> (r: Option<Metric>)
        ensures
            r == metric_of(s@),
    {
        let cs = chars_of(s);
        Metric::from_chars(&cs)
    }
}

/// Comparison operators.
#[derive(Debug, Clone, Copy, PartialEq, Eq, Structural)]
pub enum CompareOp {
    Gt,
    Gte,
    Lt,
    Lte,
    Eq,
    Neq,
}

/// The comparison operator a string stands for.
pub open spec fn compare_op_of(s: Seq<char>) -> Option<CompareOp> {
    if s == ">"@ {
        Some(CompareOp::Gt)
    } else if s == ">="@ {
        Some(CompareOp::Gte)
    } else if s == "<"@ {
        Some(CompareOp::Lt)
    } else if s == "<="@ {
        Some(CompareOp::Lte)
    } else if s == "=="@ {
        Some(CompareOp::Eq)
    } else if s == "!="@ {
        Some(CompareOp::Neq)
    } else {
        None
    }
}

impl CompareOp {
    /// Reads a comparison operator.
    pub fn from_str(s: &str) -> (r: Option<CompareOp>)
        ensures
            r == compare_op_of(s@),
    {
        let cs = chars_of(s);
        if chars_eq(&cs, ">") {
            Some(CompareOp::Gt)
        } else if chars_eq(&cs, ">=") {
            Some(CompareOp::Gte)
        } else if chars_eq(&cs, "<") {
            Some(CompareOp::Lt)
        } else if chars_eq(&cs, "<=") {
            Some(CompareOp::Lte)
        } else if chars_eq(&cs, "==") {
            Some(CompareOp::Eq)
        } else if chars_eq(&cs, "!=") {
            Some(CompareOp::Neq)
        } else {
            None
        }
    }
}

/// Boolean operators.
#[derive(Debug, Clone, Copy, PartialEq, Eq, Structural)]
pub enum BoolOp {
    And,
    Or,
}

/// ASCII lower-casing of a character.
pub open spec fn lower_char(c: char) -> char {
    if 'A' <= c <= 'Z' {
        ((c as u32) + 32) as char
    } else {
        c
    }
}

/// Two strings are equal once ASCII upper case is folded to lower case.
pub open spec fn eq_ignore_ascii_case(a: Seq<char>, b: Seq<char>) -> bool {
    a.len() == b.len() && forall|i: int| 0 <= i < a.len() ==> lower_char(a[i]) == lower_char(#[trigger] b[i])
}

/// The boolean operator a word stands for, in any case.
///
/// No character outside ASCII lower-cases to a letter of `and` or `or`, so
/// comparing after full lower-casing is the same as this comparison.
pub open spec fn bool_op_of(s: Seq<char>) -> Option<BoolOp> {
    if eq_ignore_ascii_case(s, "and"@) {
        Some(BoolOp::And)
    } else if eq_ignore_ascii_case(s, "or"@) {
        Some(BoolOp::Or)
    } else {
        None
    }
}

fn lower(c: char) -> (r: char)
    ensures
        r == lower_char(c),
{
    if 'A' <= c && c <= 'Z' {
        let b = (c as u32 + 32) as u8;
        ascii_char(b)
    } else {
        c
    }
}

fn eq_ignore_case(a: &Vec<char>, b: &str) -> (r: bool)
    ensures
        r == eq_ignore_ascii_case(a@, b@),
{
    let bc = chars_of(b);
    if a.len() != bc.len() {
        return false;
    }
    let mut i: usize = 0;
    while i < a.len()
        invariant
            a@.len() == bc@.len(),
            bc@ == b@,
            i <= a.len(),
            forall|j: int| 0 <= j < i ==> lower_char(a@[j]) == lower_char(#[trigger] bc@[j]),
        decreases a.len() - i,
    {
        if lower(a[i]) != lower(bc[i]) {
            return false;
        }
        i = i + 1;
    }
    true
}

impl BoolOp {
    fn from_chars(s: &Vec<char>) -> (r: Option<BoolOp>)
        ensures
            r == bool_op_of(s@),
    {
        if eq_ignore_case(s, "and") {
            Some(BoolOp::And)
        } else if eq_ignore_case(s, "or") {
            Some(BoolOp::Or)
        } else {
            None
        }
    }

    /// Reads a boolean operator, in any case.
    pub fn from_str(s: &str) -> (r: Option<BoolOp>)
        ensures
            r == bool_op_of(s@),
    {
        let cs = chars_of(s);
        BoolOp::from_chars(&cs)
    }
}

// ---------------------------------------------------------------------------
// Lexer
// ---------------------------------------------------------------------------

/// Whether `char::is_alphabetic` holds of a character (the Unicode
/// `Alphabetic` property).
pub uninterp spec fn is_alphabetic_char(c: char) -> bool;

/// Whether `char::is_alphanumeric` holds of a character (`Alphabetic` or a
/// Unicode numeric category).
pub uninterp spec fn is_alphanumeric_char(c: char) -> bool;

/// Whether `char::is_alphabetic` holds: on ASCII exactly the letters `A`-`Z`
/// and `a`-`z`, elsewhere the Unicode `Alphabetic` property.
pub open spec fn alphabetic(c: char) -> bool {
    if (c as u32) < 128 {
        ('A' <= c <= 'Z') || ('a' <= c <= 'z')
    } else {
        is_alphabetic_char(c)
    }
}

/// Whether `char::is_alphanumeric` holds: on ASCII exactly the letters and
/// the digits `0`-`9`, elsewhere `Alphabetic` or a Unicode numeric category.
pub open spec fn alphanumeric(c: char) -> bool {
    if (c as u32) < 128 {
        ('A' <= c <= 'Z') || ('a' <= c <= 'z') || ('0' <= c <= '9')
    } else {
        is_alphanumeric_char(c)
    }
}

/// Calls `char::is_alphabetic`; claims that on ASCII it holds of the letters
/// only, as std documents, and elsewhere that the answer is std's.
#[verifier::external_body]
fn char_is_alphabetic(c: char) -> (r: bool)
    ensures
        r == alphabetic(c),
        (c as u32) >= 128 ==> r == is_alphabetic_char(c),
{
    c.is_alphabetic()
}

/// Calls `char::is_alphanumeric`; claims that on ASCII it holds of the
/// letters and digits only, as std documents, and elsewhere that the answer
/// is std's.
#[verifier::external_body]
fn char_is_alphanumeric(c: char) -> (r: bool)
    ensures
        r == alphanumeric(c),
        (c as u32) >= 128 ==> r == is_alphanumeric_char(c),
{
    c.is_alphanumeric()
}

/// A token of a policy expression, as the specification sees it.
pub enum LexToken {
    Metric(Metric),
    Op(CompareOp),
    BoolOp(BoolOp),
    Number(Seq<char>),
}

/// A token of a policy expression.
#[derive(Debug, Clone)]
pub enum Token {
    Metric(Metric),
    Op(CompareOp),
    BoolOp(BoolOp),
    /// The literal text of a number.
    Number(String),
}

pub open spec fn token_view(t: Token) -> LexToken {
    match t {
        Token::Metric(m) => LexToken::Metric(m),
        Token::Op(o) => LexToken::Op(o),
        Token::BoolOp(b) => LexToken::BoolOp(b),
        Token::Number(n) => LexToken::Number(n@),
    }
}

pub open spec fn tokens_view(ts: Seq<Token>) -> Seq<LexToken> {
    ts.map_values(|t: Token| token_view(t))
}

/// Why an expression could not be read.
#[derive(Debug, Clone)]
pub enum PolicyError {
    /// A character that starts no token.
    UnexpectedCharacter(char),
    /// A number with more than one decimal point.
    InvalidNumber(String),
    /// A word that is neither a metric nor a boolean operator.
    UnknownIdentifier(String),
    /// No tokens at all.
    EmptyExpression,
    /// Something other than `and`/`or` between terms.
    ExpectedBoolOp(Token),
    /// A term does not start with a metric (`None`: the input ended).
    ExpectedMetric(Option<Token>),
    /// A metric is not followed by a comparison operator.
    ExpectedOperator(Option<Token>),
    /// An operator is not followed by a number.
    ExpectedNumber(Option<Token>),
}

/// Errors as the specification sees them.
pub enum SpecPolicyError {
    UnexpectedCharacter(char),
    InvalidNumber(Seq<char>),
    UnknownIdentifier(Seq<char>),
    EmptyExpression,
    ExpectedBoolOp(LexToken),
    ExpectedMetric(Option<LexToken>),
    ExpectedOperator(Option<LexToken>),
    ExpectedNumber(Option<LexToken>),
}

pub open spec fn opt_token_view(t: Option<Token>) -> Option<LexToken> {
    match t {
        Some(x) => Some(token_view(x)),
        None => None,
    }
}

pub open spec fn error_view(e: PolicyError) -> SpecPolicyError {
    match e {
        PolicyError::UnexpectedCharacter(c) => SpecPolicyError::UnexpectedCharacter(c),
        PolicyError::InvalidNumber(s) => SpecPolicyError::InvalidNumber(s@),
        PolicyError::UnknownIdentifier(s) => SpecPolicyError::UnknownIdentifier(s@),
        PolicyError::EmptyExpression => SpecPolicyError::EmptyExpression,
        PolicyError::ExpectedBoolOp(t) => SpecPolicyError::ExpectedBoolOp(token_view(t)),
        PolicyError::ExpectedMetric(t) => SpecPolicyError::ExpectedMetric(opt_token_view(t)),
        PolicyError::ExpectedOperator(t) => SpecPolicyError::ExpectedOperator(opt_token_view(t)),
        PolicyError::ExpectedNumber(t) => SpecPolicyError::ExpectedNumber(opt_token_view(t)),
    }
}

/// A character of the operator alphabet.
pub open spec fn is_op_char(c: char) -> bool {
    c == '>' || c == '<' || c == '=' || c == '!'
}

/// The operator made of `c` and a following `=`.
pub open spec fn op_with_eq(c: char) -> CompareOp {
    if c == '>' {
        CompareOp::Gte
    } else if c == '<' {
        CompareOp::Lte
    } else if c == '=' {
        CompareOp::Eq
    } else {
        CompareOp::Neq
    }
}

/// The end of the run of digits and periods from `j` on.
pub open spec fn number_run_end(s: Seq<char>, j: int) -> int
    decreases s.len() - j,
{
    if 0 <= j < s.len() && (is_digit_char(s[j]) || s[j] == '.') {
        number_run_end(s, j + 1)
    } else {
        j
    }
}

/// The end of a number token that starts at `i`.
pub open spec fn number_end(s: Seq<char>, i: int) -> int {
    if s[i] == '-' {
        number_run_end(s, i + 1)
    } else {
        number_run_end(s, i)
    }
}

/// The end of the run of identifier characters from `j` on.
pub open spec fn ident_run_end(s: Seq<char>, j: int) -> int
    decreases s.len() - j,
{
    if 0 <= j < s.len() && (alphanumeric(s[j]) || s[j] == '_') {
        ident_run_end(s, j + 1)
    } else {
        j
    }
}

/// The number of periods in a sequence.
pub open spec fn count_dots(s: Seq<char>) -> int
    decreases s.len(),
{
    if s.len() == 0 {
        0
    } else {
        count_dots(s.drop_last()) + if s.last() == '.' { 1int } else { 0int }
    }
}

/// A number token starts at `i`: a digit, or `-` followed by a digit.
pub open spec fn starts_number(s: Seq<char>, i: int) -> bool {
    is_digit_char(s[i]) || (s[i] == '-' && i + 1 < s.len() && is_digit_char(s[i + 1]))
}

/// Puts a token in front of a lexing result.
pub open spec fn lex_cons(t: LexToken, r: Result<Seq<LexToken>, SpecPolicyError>) -> Result<
    Seq<LexToken>,
    SpecPolicyError,
> {
    match r {
        Ok(ts) => Ok(seq![t] + ts),
        Err(e) => Err(e),
    }
}

/// The tokens of `s` from position `i` on.
pub open spec fn lex_from(s: Seq<char>, i: int) -> Result<Seq<LexToken>, SpecPolicyError>
    decreases s.len() - i,
{
    if i < 0 || i >= s.len() {
        Ok(seq![])
    } else {
        let c = s[i];
        if is_white_space(c) {
            lex_from(s, i + 1)
        } else if is_op_char(c) {
            if i + 1 < s.len() && s[i + 1] == '=' {
                lex_cons(LexToken::Op(op_with_eq(c)), lex_from(s, i + 2))
            } else if c == '>' {
                lex_cons(LexToken::Op(CompareOp::Gt), lex_from(s, i + 1))
            } else if c == '<' {
                lex_cons(LexToken::Op(CompareOp::Lt), lex_from(s, i + 1))
            } else {
                Err(SpecPolicyError::UnexpectedCharacter(c))
            }
        } else if starts_number(s, i) {
            let j = number_end(s, i);
            if j <= i || j > s.len() {
                Ok(seq![])
            } else if count_dots(s.subrange(i, j)) <= 1 {
                lex_cons(LexToken::Number(s.subrange(i, j)), lex_from(s, j))
            } else {
                Err(SpecPolicyError::InvalidNumber(s.subrange(i, j)))
            }
        } else if alphabetic(c) || c == '_' {
            let j = ident_run_end(s, i + 1);
            if j <= i || j > s.len() {
                Ok(seq![])
            } else if bool_op_of(s.subrange(i, j)).is_some() {
                lex_cons(LexToken::BoolOp(bool_op_of(s.subrange(i, j)).unwrap()), lex_from(s, j))
            } else if metric_of(s.subrange(i, j)).is_some() {
                lex_cons(LexToken::Metric(metric_of(s.subrange(i, j)).unwrap()), lex_from(s, j))
            } else {
                Err(SpecPolicyError::UnknownIdentifier(s.subrange(i, j)))
            }
        } else {
            Err(SpecPolicyError::UnexpectedCharacter(c))
        }
    }
}

/// The tokens of a whole expression.
pub open spec fn lex(s: Seq<char>) -> Result<Seq<LexToken>, SpecPolicyError> {
    lex_from(s, 0)
}

/// Puts tokens in front of a lexing result.
pub open spec fn lex_prefix(p: Seq<LexToken>, r: Result<Seq<LexToken>, SpecPolicyError>) -> Result<
    Seq<LexToken>,
    SpecPolicyError,
> {
    match r {
        Ok(ts) => Ok(p + ts),
        Err(e) => Err(e),
    }
}

pub open spec fn lex_result_view(r: Result<Vec<Token>, PolicyError>) -> Result<
    Seq<LexToken>,
    SpecPolicyError,
> {
    match r {
        Ok(ts) => Ok(tokens_view(ts@)),
        Err(e) => Err(error_view(e)),
    }
}

/// The string of characters `from..to` of `cs`.
fn string_of(cs: &Vec<char>, from: usize, to: usize) -> (r: String)
    requires
        from <= to <= cs@.len(),
    ensures
        r@ == cs@.subrange(from as int, to as int),
{
    let mut out = String::new();
    let mut k = from;
    while k < to
        invariant
            from <= k <= to <= cs@.len(),
            out@ == cs@.subrange(from as int, k as int),
        decreases to - k,
    {
        push_char(&mut out, cs[k]);
        k = k + 1;
        assert(out@ =~= cs@.subrange(from as int, k as int));
    }
    out
}

/// The characters `from..to` of `cs`.
fn slice_chars(cs: &Vec<char>, from: usize, to: usize) -> (r: Vec<char>)
    requires
        from <= to <= cs@.len(),
    ensures
        r@ == cs@.subrange(from as int, to as int),
{
    let mut out: Vec<char> = Vec::new();
    let mut k = from;
    while k < to
        invariant
            from <= k <= to <= cs@.len(),
            out@ == cs@.subrange(from as int, k as int),
        decreases to - k,
    {
        out.push(cs[k]);
        k = k + 1;
        assert(out@ =~= cs@.subrange(from as int, k as int));
    }
    out
}

fn count_dots_in(cs: &Vec<char>, from: usize, to: usize) -> (r: usize)
    requires
        from <= to <= cs@.len(),
    ensures
        r as int == count_dots(cs@.subrange(from as int, to as int)),
{
    let mut n: usize = 0;
    let mut k = from;
    assert(cs@.subrange(from as int, from as int).len() == 0);
    while k < to
        invariant
            from <= k <= to <= cs@.len(),
            n <= k - from,
            n as int == count_dots(cs@.subrange(from as int, k as int)),
        decreases to - k,
    {
        assert(cs@.subrange(from as int, k + 1).drop_last() =~= cs@.subrange(from as int, k as int));
        if cs[k] == '.' {
            n = n + 1;
        }
        k = k + 1;
    }
    n
}

proof fn lemma_number_run_end(s: Seq<char>, j: int)
    requires
        0 <= j <= s.len(),
    ensures
        j <= number_run_end(s, j) <= s.len(),
    decreases s.len() - j,
{
    if 0 <= j < s.len() && (is_digit_char(s[j]) || s[j] == '.') {
        lemma_number_run_end(s, j + 1);
    }
}

proof fn lemma_ident_run_end(s: Seq<char>, j: int)
    requires
        0 <= j <= s.len(),
    ensures
        j <= ident_run_end(s, j) <= s.len(),
    decreases s.len() - j,
{
    if 0 <= j < s.len() && (alphanumeric(s[j]) || s[j] == '_') {
        lemma_ident_run_end(s, j + 1);
    }
}

proof fn lemma_prefix_cons(p: Seq<LexToken>, t: LexToken, r: Result<Seq<LexToken>, SpecPolicyError>)
    ensures
        lex_prefix(p, lex_cons(t, r)) == lex_prefix(p + seq![t], r),
{
    match r {
        Ok(ts) => {
            assert(p + (seq![t] + ts) =~= (p + seq![t]) + ts);
        },
        Err(e) => {},
    }
}

/// Tokenize a policy expression.
pub fn tokenize(input: &str) -> (r: Result<Vec<Token>, PolicyError>)
    ensures
        lex_result_view(r) == lex(input@),
{
    let cs = chars_of(input);
    let mut out: Vec<Token> = Vec::new();
    let mut i: usize = 0;
    assert(tokens_view(out@) =~= seq![]);
    while i < cs.len()
        invariant
            cs@ == input@,
            i <= cs@.len(),
            lex(input@) == lex_prefix(tokens_view(out@), lex_from(cs@, i as int)),
        decreases cs.len() - i,
    {
        let c = cs[i];
        let ghost before = out@;
        let ghost i0 = i as int;
        if char_is_whitespace(c) {
            assert(lex_from(cs@, i0) == lex_from(cs@, i0 + 1));
            i = i + 1;
        } else if c == '>' || c == '<' || c == '=' || c == '!' {
            if i + 1 < cs.len() && cs[i + 1] == '=' {
                let op = if c == '>' {
                    CompareOp::Gte
                } else if c == '<' {
                    CompareOp::Lte
                } else if c == '=' {
                    CompareOp::Eq
                } else {
                    CompareOp::Neq
                };
                out.push(Token::Op(op));
                assert(tokens_view(out@) =~= tokens_view(before) + seq![LexToken::Op(op)]);
                assert(lex_from(cs@, i0) == lex_cons(LexToken::Op(op), lex_from(cs@, i0 + 2)));
                proof { lemma_prefix_cons(tokens_view(before), LexToken::Op(op), lex_from(cs@, i0 + 2)); }
                i = i + 2;
            } else if c == '>' {
                out.push(Token::Op(CompareOp::Gt));
                assert(tokens_view(out@) =~= tokens_view(before) + seq![LexToken::Op(CompareOp::Gt)]);
                assert(lex_from(cs@, i0) == lex_cons(LexToken::Op(CompareOp::Gt), lex_from(cs@, i0 + 1)));
                proof { lemma_prefix_cons(tokens_view(before), LexToken::Op(CompareOp::Gt), lex_from(cs@, i0 + 1)); }
                i = i + 1;
            } else if c == '<' {
                out.push(Token::Op(CompareOp::Lt));
                assert(tokens_view(out@) =~= tokens_view(before) + seq![LexToken::Op(CompareOp::Lt)]);
                assert(lex_from(cs@, i0) == lex_cons(LexToken::Op(CompareOp::Lt), lex_from(cs@, i0 + 1)));
                proof { lemma_prefix_cons(tokens_view(before), LexToken::Op(CompareOp::Lt), lex_from(cs@, i0 + 1)); }
                i = i + 1;
            } else {
                return Err(PolicyError::UnexpectedCharacter(c));
            }
        } else if char_is_digit(c) || (c == '-' && i + 1 < cs.len() && char_is_digit(cs[i + 1])) {
            let mut j = if c == '-' { i + 1 } else { i };
            let ghost start = j;
            while j < cs.len() && (char_is_digit(cs[j]) || cs[j] == '.')
                invariant
                    start <= j <= cs@.len(),
                    number_run_end(cs@, j as int) == number_run_end(cs@, start as int),
                decreases cs.len() - j,
            {
                j = j + 1;
            }
            proof {
                lemma_number_run_end(cs@, j as int);
            }
            let dots = count_dots_in(&cs, i, j);
            let text = string_of(&cs, i, j);
            if dots > 1 {
                return Err(PolicyError::InvalidNumber(text));
            }
            out.push(Token::Number(text));
            assert(tokens_view(out@) =~= tokens_view(before) + seq![LexToken::Number(text@)]);
            assert(number_end(cs@, i0) == j);
            assert(lex_from(cs@, i0) == lex_cons(LexToken::Number(text@), lex_from(cs@, j as int)));
            proof { lemma_prefix_cons(tokens_view(before), LexToken::Number(text@), lex_from(cs@, j as int)); }
            i = j;
        } else if char_is_alphabetic(c) || c == '_' {
            let mut j = i + 1;
            while j < cs.len() && (char_is_alphanumeric(cs[j]) || cs[j] == '_')
                invariant
                    i + 1 <= j <= cs@.len(),
                    ident_run_end(cs@, j as int) == ident_run_end(cs@, i + 1),
                decreases cs.len() - j,
            {
                j = j + 1;
            }
            proof {
                lemma_ident_run_end(cs@, j as int);
            }
            let word = slice_chars(&cs, i, j);
            match BoolOp::from_chars(&word) {
                Some(b) => {
                    out.push(Token::BoolOp(b));
                    assert(tokens_view(out@) =~= tokens_view(before) + seq![LexToken::BoolOp(b)]);
                    assert(lex_from(cs@, i0) == lex_cons(LexToken::BoolOp(b), lex_from(cs@, j as int)));
                    proof { lemma_prefix_cons(tokens_view(before), LexToken::BoolOp(b), lex_from(cs@, j as int)); }
                },
                None => match Metric::from_chars(&word) {
                    Some(m) => {
                        out.push(Token::Metric(m));
                        assert(tokens_view(out@) =~= tokens_view(before) + seq![LexToken::Metric(m)]);
                        assert(lex_from(cs@, i0) == lex_cons(LexToken::Metric(m), lex_from(cs@, j as int)));
                        proof { lemma_prefix_cons(tokens_view(before), LexToken::Metric(m), lex_from(cs@, j as int)); }
                    },
                    None => {
                        let text = string_of(&cs, i, j);
                        return Err(PolicyError::UnknownIdentifier(text));
                    },
                },
            }
            i = j;
        } else {
            return Err(PolicyError::UnexpectedCharacter(c));
        }
    }
    assert(lex_from(cs@, i as int) == Ok::<Seq<LexToken>, SpecPolicyError>(seq![]));
    assert(tokens_view(out@) + seq![] =~= tokens_view(out@));
    Ok(out)
}

// ---------------------------------------------------------------------------
// Parser
// ---------------------------------------------------------------------------

/// A comparison term: metric <op> number
#[derive(Debug, Clone)]
pub struct Term {
    pub metric: Metric,
    pub op: CompareOp,
    /// The literal text of the number, `-?[0-9]+(\.[0-9]*)?`.
    pub value: String,
}

/// A parsed policy expression.
#[derive(Debug, Clone)]
pub struct Expression {
    pub first: Term,
    pub rest: Vec<(BoolOp, Term)>,
}

/// A term as the specification sees it.
pub struct SpecTerm {
    pub metric: Metric,
    pub op: CompareOp,
    pub value: Seq<char>,
}

/// An expression as the specification sees it.
pub struct SpecExpression {
    pub first: SpecTerm,
    pub rest: Seq<(BoolOp, SpecTerm)>,
}

pub open spec fn term_view(t: Term) -> SpecTerm {
    SpecTerm { metric: t.metric, op: t.op, value: t.value@ }
}

pub open spec fn rest_view(r: Seq<(BoolOp, Term)>) -> Seq<(BoolOp, SpecTerm)> {
    r.map_values(|p: (BoolOp, Term)| (p.0, term_view(p.1)))
}

pub open spec fn expression_view(e: Expression) -> SpecExpression {
    SpecExpression { first: term_view(e.first), rest: rest_view(e.rest@) }
}

/// The token at `i`, if there is one.
pub open spec fn token_at(t: Seq<LexToken>, i: int) -> Option<LexToken> {
    if 0 <= i < t.len() {
        Some(t[i])
    } else {
        None
    }
}

/// The term made of the three tokens from `i` on.
pub open spec fn parse_term_at(t: Seq<LexToken>, i: int) -> Result<SpecTerm, SpecPolicyError> {
    match token_at(t, i) {
        Some(LexToken::Metric(m)) => match token_at(t, i + 1) {
            Some(LexToken::Op(o)) => match token_at(t, i + 2) {
                Some(LexToken::Number(n)) => Ok(SpecTerm { metric: m, op: o, value: n }),
                other => Err(SpecPolicyError::ExpectedNumber(other)),
            },
            other => Err(SpecPolicyError::ExpectedOperator(other)),
        },
        other => Err(SpecPolicyError::ExpectedMetric(other)),
    }
}

/// The `(and|or) term` pairs from token `i` on.
pub open spec fn parse_rest(t: Seq<LexToken>, i: int) -> Result<
    Seq<(BoolOp, SpecTerm)>,
    SpecPolicyError,
>
    decreases t.len() - i,
{
    if i < 0 || i >= t.len() {
        Ok(seq![])
    } else {
        match t[i] {
            LexToken::BoolOp(b) => match parse_term_at(t, i + 1) {
                Ok(term) => match parse_rest(t, i + 4) {
                    Ok(r) => Ok(seq![(b, term)] + r),
                    Err(e) => Err(e),
                },
                Err(e) => Err(e),
            },
            other => Err(SpecPolicyError::ExpectedBoolOp(other)),
        }
    }
}

/// The expression that a token sequence forms.
pub open spec fn parse_tokens(t: Seq<LexToken>) -> Result<SpecExpression, SpecPolicyError> {
    if t.len() == 0 {
        Err(SpecPolicyError::EmptyExpression)
    } else {
        match parse_term_at(t, 0) {
            Ok(first) => match parse_rest(t, 3) {
                Ok(rest) => Ok(SpecExpression { first, rest }),
                Err(e) => Err(e),
            },
            Err(e) => Err(e),
        }
    }
}

/// The expression that a policy text stands for.
pub open spec fn parse_policy(s: Seq<char>) -> Result<SpecExpression, SpecPolicyError> {
    match lex(s) {
        Ok(t) => parse_tokens(t),
        Err(e) => Err(e),
    }
}

pub open spec fn parse_result_view(r: Result<Expression, PolicyError>) -> Result<
    SpecExpression,
    SpecPolicyError,
> {
    match r {
        Ok(e) => Ok(expression_view(e)),
        Err(e) => Err(error_view(e)),
    }
}

fn clone_token(t: &Token) -> (r: Token)
    ensures
        token_view(r) == token_view(*t),
{
    match t {
        Token::Metric(m) => Token::Metric(*m),
        Token::Op(o) => Token::Op(*o),
        Token::BoolOp(b) => Token::BoolOp(*b),
        Token::Number(n) => Token::Number(n.clone()),
    }
}

fn token_at_exec(ts: &Vec<Token>, i: usize, off: usize) -> (r: Option<Token>)
    requires
        i <= ts@.len(),
    ensures
        opt_token_view(r) == token_at(tokens_view(ts@), i + off),
{
    if off < ts.len() - i {
        Some(clone_token(&ts[i + off]))
    } else {
        None
    }
}

/// Parse a single term: metric op number
fn parse_term(ts: &Vec<Token>, i: usize) -> (r: Result<Term, PolicyError>)
    requires
        i <= ts@.len(),
    ensures
        r is Ok ==> i + 3 <= ts@.len(),
        match r {
            Ok(term) => parse_term_at(tokens_view(ts@), i as int) == Ok::<SpecTerm, SpecPolicyError>(
                term_view(term),
            ),
            Err(e) => parse_term_at(tokens_view(ts@), i as int) == Err::<SpecTerm, SpecPolicyError>(
                error_view(e),
            ),
        },
{
    let metric = match token_at_exec(ts, i, 0) {
        Some(Token::Metric(m)) => m,
        other => return Err(PolicyError::ExpectedMetric(other)),
    };
    let op = match token_at_exec(ts, i, 1) {
        Some(Token::Op(o)) => o,
        other => return Err(PolicyError::ExpectedOperator(other)),
    };
    let value = match token_at_exec(ts, i, 2) {
        Some(Token::Number(n)) => n,
        other => return Err(PolicyError::ExpectedNumber(other)),
    };
    Ok(Term { metric, op, value })
}

/// Parse a --fail-if expression.
pub fn parse_expression(input: &str) -> (r: Result<Expression, PolicyError>)
    ensures
        parse_result_view(r) == parse_policy(input@),
{
    let tokens = match tokenize(input) {
        Ok(ts) => ts,
        Err(e) => return Err(e),
    };
    let ghost t = tokens_view(tokens@);
    if tokens.len() == 0 {
        return Err(PolicyError::EmptyExpression);
    }
    let first = match parse_term(&tokens, 0) {
        Ok(term) => term,
        Err(e) => return Err(e),
    };
    let mut rest: Vec<(BoolOp, Term)> = Vec::new();
    let mut i: usize = 3;
    while i < tokens.len()
        invariant
            t == tokens_view(tokens@),
            lex(input@) == Ok::<Seq<LexToken>, SpecPolicyError>(t),
            t.len() > 0,
            parse_term_at(t, 0) == Ok::<SpecTerm, SpecPolicyError>(term_view(first)),
            3 <= i,
            parse_rest(t, 3) == match parse_rest(t, i as int) {
                Ok(r) => Ok(rest_view(rest@) + r),
                Err(e) => Err(e),
            },
        decreases tokens.len() - i,
    {
        let ghost before = rest@;
        let b = match &tokens[i] {
            Token::BoolOp(b) => *b,
            other => {
                let tok = clone_token(other);
                assert(parse_rest(t, i as int) == Err::<Seq<(BoolOp, SpecTerm)>, SpecPolicyError>(
                    SpecPolicyError::ExpectedBoolOp(token_view(tok))));
                return Err(PolicyError::ExpectedBoolOp(tok));
            },
        };
        let term = match parse_term(&tokens, i + 1) {
            Ok(term) => term,
            Err(e) => {
                assert(parse_rest(t, i as int) == Err::<Seq<(BoolOp, SpecTerm)>, SpecPolicyError>(
                    error_view(e)));
                return Err(e);
            },
        };
        rest.push((b, term));
        assert(rest_view(rest@) =~= rest_view(before) + seq![(b, term_view(term))]);
        proof {
            match parse_rest(t, i + 4) {
                Ok(r) => {
                    assert(rest_view(before) + (seq![(b, term_view(term))] + r) =~= rest_view(rest@)
                        + r);
                },
                Err(e) => {},
            }
        }
        i = i + 4;
    }
    assert(parse_rest(t, i as int) == Ok::<Seq<(BoolOp, SpecTerm)>, SpecPolicyError>(seq![]));
    assert(rest_view(rest@) + seq![] =~= rest_view(rest@));
    Ok(Expression { first, rest })
}

// ---------------------------------------------------------------------------
// Evaluation
// ---------------------------------------------------------------------------

/// Folds term results from the left: each `and` or `or` joins the result so
/// far with the next term's. Short-circuiting skips only the guarded term,
/// which does not change the value.
pub open spec fn combine_from(ops: Seq<BoolOp>, results: Seq<bool>, acc: bool, i: int) -> bool
    decreases ops.len() - i,
{
    if i < 0 || i >= ops.len() {
        acc
    } else {
        match ops[i] {
            BoolOp::And => combine_from(ops, results, acc && results[i + 1], i + 1),
            BoolOp::Or => combine_from(ops, results, acc || results[i + 1], i + 1),
        }
    }
}

/// The boolean operators of an expression, in order.
pub open spec fn ops_of(rest: Seq<(BoolOp, Term)>) -> Seq<BoolOp> {
    rest.map_values(|p: (BoolOp, Term)| p.0)
}

impl Expression {
    /// Combines the truth values of the terms (`results[0]` for `first`,
    /// `results[k + 1]` for `rest[k]`) the way `--fail-if` is evaluated:
    /// left to right, with short-circuit `and`/`or` and no precedence.
    pub fn combine_terms(&self, results: &Vec<bool>) -> (r: bool)
        requires
            results@.len() == self.rest@.len() + 1,
        ensures
            r == combine_from(ops_of(self.rest@), results@, results@[0], 0),
    {
        let ghost ops = ops_of(self.rest@);
        let mut result = results[0];
        let mut i: usize = 0;
        while i < self.rest.len()
            invariant
                results@.len() == self.rest@.len() + 1,
                ops == ops_of(self.rest@),
                i <= self.rest@.len(),
                combine_from(ops, results@, results@[0], 0) == combine_from(ops, results@, result, i as int),
            decreases self.rest.len() - i,
        {
            match self.rest[i].0 {
                BoolOp::And => {
                    result = result && results[i + 1];
                },
                BoolOp::Or => {
                    result = result || results[i + 1];
                },
            }
            i = i + 1;
        }
        result
    }
}


// ---------------------------------------------------------------------------
// Laws of the lexer
// ---------------------------------------------------------------------------

proof fn lemma_ident_run_reaches(s: Seq<char>, j: int, k: int)
    requires
        0 <= j <= k <= s.len(),
        forall|i: int| j <= i < k ==> alphanumeric(#[trigger] s[i]) || s[i] == '_',
        k < s.len() ==> !(alphanumeric(s[k]) || s[k] == '_'),
    ensures
        ident_run_end(s, j) == k,
    decreases k - j,
{
    if j < k {
        lemma_ident_run_reaches(s, j + 1, k);
    }
}

proof fn lemma_metric_name_chars(n: Seq<char>)
    requires
        metric_of(n) is Some,
    ensures
        n.len() > 3,
        'a' <= n[0] <= 'z',
        forall|i: int| 0 <= i < n.len() ==> ('a' <= #[trigger] n[i] <= 'z') || ('0' <= n[i] <= '9') || n[i] == '_',
{
    reveal_strlit("regret_events");
    reveal_strlit("max_score");
    reveal_strlit("events_per_100_commits");
}


/// Every metric name lexes to its metric, whatever follows it after a
/// space or an operator character: the name is read whole, digits and
/// underscores included, and lexing goes on right after it.
#[verifier::spinoff_prover]
pub proof fn lemma_metric_name_lexes(n: Seq<char>, rest: Seq<char>)
    requires
        metric_of(n) is Some,
        rest.len() == 0 || rest[0] == ' ' || rest[0] == '>' || rest[0] == '<' || rest[0] == '='
            || rest[0] == '!',
    ensures
        lex(n + rest) == lex_cons(LexToken::Metric(metric_of(n).unwrap()), lex_from(n + rest, n.len() as int)),
{
    reveal_strlit("and");
    reveal_strlit("or");
    let s = n + rest;
    lemma_metric_name_chars(n);
    assert forall|i: int| 0 < i < n.len() implies alphanumeric(#[trigger] s[i]) || s[i] == '_' by {
        assert(s[i] == n[i]);
    }
    if rest.len() > 0 {
        assert(s[n.len() as int] == rest[0]);
    }
    lemma_ident_run_reaches(s, 1, n.len() as int);
    assert(s[0] == n[0]);
    assert(s.subrange(0, n.len() as int) =~= n);
    assert(bool_op_of(n) is None);
}

/// A comparison of a metric with a whole number lexes to the metric, the
/// operator `>` and the number's digits.
#[verifier::spinoff_prover]
pub proof fn lemma_metric_comparison_lexes(n: Seq<char>, digits: Seq<char>)
    requires
        metric_of(n) is Some,
        digits.len() > 0,
        forall|i: int| 0 <= i < digits.len() ==> '0' <= #[trigger] digits[i] <= '9',
    ensures
        lex(n + " > "@ + digits) == Ok::<Seq<LexToken>, SpecPolicyError>(
            seq![LexToken::Metric(metric_of(n).unwrap()), LexToken::Op(CompareOp::Gt), LexToken::Number(digits)],
        ),
{
    reveal_strlit(" > ");
    let s = n + " > "@ + digits;
    let k = n.len() as int;
    let m = LexToken::Metric(metric_of(n).unwrap());
    let gt = LexToken::Op(CompareOp::Gt);
    let num = LexToken::Number(digits);
    assert(s == n + (" > "@ + digits));
    lemma_metric_name_lexes(n, " > "@ + digits);
    assert(s[k] == ' ' && s[k + 1] == '>' && s[k + 2] == ' ');
    lemma_digits_lex(s, k + 3);
    assert(s.subrange(k + 3, s.len() as int) =~= digits);
    assert(lex_from(s, k + 3) == Ok::<Seq<LexToken>, SpecPolicyError>(seq![num]));
    lemma_lex_skips_space(s, k + 2);
    assert(lex_from(s, k + 1) == lex_cons(gt, lex_from(s, k + 2)));
    lemma_lex_skips_space(s, k);
    assert(seq![gt] + seq![num] =~= seq![gt, num]);
    assert(seq![m] + seq![gt, num] =~= seq![m, gt, num]);
}

proof fn lemma_lex_skips_space(s: Seq<char>, i: int)
    requires
        0 <= i < s.len(),
        s[i] == ' ',
    ensures
        lex_from(s, i) == lex_from(s, i + 1),
{
}

proof fn lemma_digits_lex(s: Seq<char>, j: int)
    requires
        0 <= j < s.len(),
        forall|i: int| j <= i < s.len() ==> '0' <= #[trigger] s[i] <= '9',
    ensures
        lex_from(s, j) == Ok::<Seq<LexToken>, SpecPolicyError>(
            seq![LexToken::Number(s.subrange(j, s.len() as int))],
        ),
{
    lemma_number_run_reaches(s, j, s.len() as int);
    let d = s.subrange(j, s.len() as int);
    assert forall|i: int| 0 <= i < d.len() implies '0' <= #[trigger] d[i] <= '9' by {
        assert(d[i] == s[j + i]);
    }
    lemma_no_dots(d);
    assert(lex_from(s, s.len() as int) == Ok::<Seq<LexToken>, SpecPolicyError>(seq![]));
    assert(seq![LexToken::Number(d)] + seq![] =~= seq![LexToken::Number(d)]);
}

proof fn lemma_number_run_reaches(s: Seq<char>, j: int, k: int)
    requires
        0 <= j <= k == s.len(),
        forall|i: int| j <= i < k ==> '0' <= #[trigger] s[i] <= '9',
    ensures
        number_run_end(s, j) == k,
    decreases k - j,
{
    if j < k {
        lemma_number_run_reaches(s, j + 1, k);
    }
}

proof fn lemma_no_dots(d: Seq<char>)
    requires
        forall|i: int| 0 <= i < d.len() ==> '0' <= #[trigger] d[i] <= '9',
    ensures
        count_dots(d) == 0,
    decreases d.len(),
{
    if d.len() > 0 {
        let p = d.drop_last();
        assert forall|i: int| 0 <= i < p.len() implies '0' <= #[trigger] p[i] <= '9' by {
            assert(p[i] == d[i]);
        }
        lemma_no_dots(p);
        assert(d.last() == d[d.len() - 1]);
    }
}

} // verus!
