//! The grammar of queries and its parser.

use crate::error::{ErrorKind, MeltError};
use crate::query::{ComparisionOperator, LogicOperator, QueryExpr, QueryView};
use vstd::prelude::*;

verus! {

// ---------------------------------------------------------------------------------------------
// The grammar
//
//   query        := or_expr
//   or_expr      := and_expr ( "or" or_expr )?
//   and_expr     := atom ( "and" and_expr )?
//   atom         := "(" query ")" | comparison
//   comparison   := identifier op literal
//   op           := "!=" | "<>" | "~=" | "==" | "=" | ">=" | "<=" | ">" | "<"
//   literal      := alphanumeric+ | "\"" any-but-quote* "\""
//
// White space before a token is skipped, and so is white space at the end of the query. The two
// keywords are read in either case. Each function below reads the longest text that its rule
// derives at the start of its input and gives back what follows it.
// ---------------------------------------------------------------------------------------------
pub open spec fn is_space(c: char) -> bool {
    c == ' ' || c == '\t' || c == '\r' || c == '\n'
}

pub open spec fn is_alpha(c: char) -> bool {
    ('a' <= c && c <= 'z') || ('A' <= c && c <= 'Z')
}

pub open spec fn is_digit(c: char) -> bool {
    '0' <= c && c <= '9'
}

pub open spec fn is_alphanumeric(c: char) -> bool {
    is_alpha(c) || is_digit(c)
}

/// The classes of characters of which the grammar reads runs.
#[derive(Clone, Copy, Debug, PartialEq, Eq, Structural)]
pub enum CharClass {
    Space,
    Alphanumeric,
    /// What may follow the first character of an identifier.
    IdentifierPart,
    /// Anything but a double quote.
    NotQuote,
}

pub open spec fn in_class(c: char, class: CharClass) -> bool {
    match class {
        CharClass::Space => is_space(c),
        CharClass::Alphanumeric => is_alphanumeric(c),
        CharClass::IdentifierPart => is_alphanumeric(c) || c == '_' || c == '.',
        CharClass::NotQuote => c != '"',
    }
}

/// How many characters at the start of `s` are in `class`.
pub open spec fn run(s: Seq<char>, class: CharClass) -> nat
    decreases s.len(),
{
    if s.len() > 0 && in_class(s[0], class) {
        1 + run(s.drop_first(), class)
    } else {
        0
    }
}

pub open spec fn skip_spaces(s: Seq<char>) -> Seq<char> {
    s.skip(run(s, CharClass::Space) as int)
}

pub open spec fn spec_identifier(s: Seq<char>) -> Option<(Seq<char>, Seq<char>)> {
    if s.len() > 0 && (is_alpha(s[0]) || s[0] == '_') {
        let n = 1 + run(s.skip(1), CharClass::IdentifierPart);
        Some((s.take(n as int), s.skip(n as int)))
    } else {
        None
    }
}

pub open spec fn starts_with2(s: Seq<char>, a: char, b: char) -> bool {
    s.len() >= 2 && s[0] == a && s[1] == b
}

pub open spec fn spec_operator(s: Seq<char>) -> Option<(ComparisionOperator, Seq<char>)> {
    if starts_with2(s, '!', '=') {
        Some((ComparisionOperator::NotEqual, s.skip(2)))
    } else if starts_with2(s, '<', '>') {
        Some((ComparisionOperator::NotEqual, s.skip(2)))
    } else if starts_with2(s, '~', '=') {
        Some((ComparisionOperator::Match, s.skip(2)))
    } else if starts_with2(s, '=', '=') {
        Some((ComparisionOperator::Equal, s.skip(2)))
    } else if s.len() >= 1 && s[0] == '=' {
        Some((ComparisionOperator::Equal, s.skip(1)))
    } else if starts_with2(s, '>', '=') {
        Some((ComparisionOperator::GreaterOrEqual, s.skip(2)))
    } else if starts_with2(s, '<', '=') {
        Some((ComparisionOperator::LessOrEqual, s.skip(2)))
    } else if s.len() >= 1 && s[0] == '>' {
        Some((ComparisionOperator::Greater, s.skip(1)))
    } else if s.len() >= 1 && s[0] == '<' {
        Some((ComparisionOperator::Less, s.skip(1)))
    } else {
        None
    }
}

/// A bare literal: a run of letters and digits, not empty.
pub open spec fn spec_value_literal(s: Seq<char>) -> Option<(Seq<char>, Seq<char>)> {
    let n = run(s, CharClass::Alphanumeric);
    if n > 0 {
        Some((s.take(n as int), s.skip(n as int)))
    } else {
        None
    }
}

/// A quoted literal: what stands between two double quotes.
pub open spec fn spec_string_literal(s: Seq<char>) -> Option<(Seq<char>, Seq<char>)> {
    if s.len() > 0 && s[0] == '"' {
        let n = run(s.skip(1), CharClass::NotQuote);
        if 1 + n < s.len() {
            Some((s.subrange(1, 1 + n as int), s.skip(2 + n as int)))
        } else {
            None
        }
    } else {
        None
    }
}

pub open spec fn spec_literal(s: Seq<char>) -> Option<(Seq<char>, Seq<char>)> {
    match spec_value_literal(s) {
        Some(r) => Some(r),
        None => spec_string_literal(s),
    }
}

pub open spec fn spec_compare(s: Seq<char>) -> Option<(QueryView, Seq<char>)> {
    match spec_identifier(skip_spaces(s)) {
        Some((name, after_name)) => match spec_operator(skip_spaces(after_name)) {
            Some((op, after_op)) => match spec_literal(skip_spaces(after_op)) {
                Some((value, rest)) => Some((QueryView::Comparison(name, op, value), rest)),
                None => None,
            },
            None => None,
        },
        None => None,
    }
}

pub open spec fn is_a(c: char, lower: char, upper: char) -> bool {
    c == lower || c == upper
}

pub open spec fn starts_with_and(s: Seq<char>) -> bool {
    s.len() >= 3 && is_a(s[0], 'a', 'A') && is_a(s[1], 'n', 'N') && is_a(s[2], 'd', 'D')
}

pub open spec fn starts_with_or(s: Seq<char>) -> bool {
    s.len() >= 2 && is_a(s[0], 'o', 'O') && is_a(s[1], 'r', 'R')
}

pub open spec fn starts_with_char(s: Seq<char>, c: char) -> bool {
    s.len() >= 1 && s[0] == c
}

/// `or_expr`: conditions joined by `or`, nested to the right.
pub open spec fn spec_condition(s: Seq<char>) -> Option<(QueryView, Seq<char>)>
    decreases s.len(), 2nat,
{
    match spec_and(s) {
        Some((left, after_left)) => {
            let at_word = skip_spaces(after_left);
            let after_word = at_word.skip(2);
            if starts_with_or(at_word) && after_word.len() < s.len() {
                match spec_condition(after_word) {
                    Some((right, rest)) => Some(
                        (
                            QueryView::Logical(Box::new(left), LogicOperator::Or, Box::new(right)),
                            rest,
                        ),
                    ),
                    None => None,
                }
            } else {
                Some((left, after_left))
            }
        },
        None => None,
    }
}

/// `and_expr`: atoms joined by `and`, nested to the right.
pub open spec fn spec_and(s: Seq<char>) -> Option<(QueryView, Seq<char>)>
    decreases s.len(), 1nat,
{
    match spec_parenthetical(s) {
        Some((left, after_left)) => {
            let at_word = skip_spaces(after_left);
            let after_word = at_word.skip(3);
            if starts_with_and(at_word) && after_word.len() < s.len() {
                match spec_and(after_word) {
                    Some((right, rest)) => Some(
                        (
                            QueryView::Logical(Box::new(left), LogicOperator::And, Box::new(right)),
                            rest,
                        ),
                    ),
                    None => None,
                }
            } else {
                Some((left, after_left))
            }
        },
        None => None,
    }
}

/// `atom`: a query in parentheses, or a comparison.
pub open spec fn spec_parenthetical(s: Seq<char>) -> Option<(QueryView, Seq<char>)>
    decreases s.len(), 0nat,
{
    let start = skip_spaces(s);
    if starts_with_char(start, '(') {
        if start.skip(1).len() < s.len() {
            match spec_condition(start.skip(1)) {
                Some((inner, after_inner)) => {
                    let at_close = skip_spaces(after_inner);
                    if starts_with_char(at_close, ')') {
                        Some((inner, at_close.skip(1)))
                    } else {
                        None
                    }
                },
                None => None,
            }
        } else {
            None
        }
    } else {
        spec_compare(s)
    }
}

/// The tree that a whole query string stands for, where it is a query.
pub open spec fn spec_query(s: Seq<char>) -> Option<QueryView> {
    match spec_condition(s) {
        Some((tree, rest)) => if skip_spaces(rest).len() == 0 {
            Some(tree)
        } else {
            None
        },
        None => None,
    }
}

/// The message of the failure to parse `s`: with what is left behind the query, where the
/// grammar reads a query from the start of `s`; with all of `s`, where it reads none.
pub open spec fn query_failure(s: Seq<char>) -> Seq<char> {
    match spec_condition(s) {
        Some((_, rest)) => "can not complete query : "@ + skip_spaces(rest),
        None => "can not parse query : "@ + s,
    }
}

/// Whether `r` is the outcome of parsing `s`: the tree, or `UnparseableQuery` with the message
/// that holds the offending text.
pub open spec fn is_parsed(s: Seq<char>, r: Result<QueryExpr, MeltError>) -> bool {
    match spec_query(s) {
        Some(tree) => r matches Ok(q) && q@ == tree,
        None => r matches Err(e) && e.kind == ErrorKind::UnparseableQuery && e.message@
            == query_failure(s),
    }
}

/// The text of a query, with a place in it for each character.
pub struct Span<'a> {
    text: &'a str,
    chars: Vec<char>,
}

impl<'a> View for Span<'a> {
    type V = Seq<char>;

    closed spec fn view(&self) -> Seq<char> {
        self.text@
    }
}

/// Whether what a parsing function returned is what the grammar says of the input from `at` on:
/// the tree, and the place where the rest begins.
pub open spec fn agrees(
    input: Seq<char>,
    at: usize,
    expected: Option<(QueryView, Seq<char>)>,
    r: Option<(QueryExpr, usize)>,
) -> bool {
    match expected {
        Some((tree, rest)) => r matches Some((q, next)) && q@ == tree && at < next <= input.len()
            && input.skip(next as int) == rest,
        None => r is None,
    }
}

/// The same for a function that returns a piece of text.
pub open spec fn agrees_text(
    input: Seq<char>,
    at: usize,
    expected: Option<(Seq<char>, Seq<char>)>,
    r: Option<(String, usize)>,
) -> bool {
    match expected {
        Some((text, rest)) => r matches Some((t, next)) && t@ == text && at < next <= input.len()
            && input.skip(next as int) == rest,
        None => r is None,
    }
}

fn class_holds(c: char, class: CharClass) -> (b: bool)
    ensures
        b == in_class(c, class),
{
    let alphanumeric = ('a' <= c && c <= 'z') || ('A' <= c && c <= 'Z') || ('0' <= c && c <= '9');
    match class {
        CharClass::Space => c == ' ' || c == '\t' || c == '\r' || c == '\n',
        CharClass::Alphanumeric => alphanumeric,
        CharClass::IdentifierPart => alphanumeric || c == '_' || c == '.',
        CharClass::NotQuote => c != '"',
    }
}

impl<'a> Span<'a> {
    #[verifier::type_invariant]
    spec fn well_formed(self) -> bool {
        self.chars@ == self.text@
    }

    pub fn new(text: &'a str) -> (s: Span<'a>)
        ensures
            s@ == text@,
    {
        let chars = crate::utils::text::chars_of(text);
        Span { text, chars }
    }

    pub fn len(&self) -> (n: usize)
        ensures
            n == self@.len(),
    {
        proof {
            use_type_invariant(self);
        }
        self.chars.len()
    }

    fn char_at(&self, i: usize) -> (c: char)
        requires
            i < self@.len(),
        ensures
            c == self@[i as int],
    {
        proof {
            use_type_invariant(self);
        }
        self.chars[i]
    }

    /// The text from `from` up to `to`.
    fn slice(&self, from: usize, to: usize) -> (t: String)
        requires
            from <= to <= self@.len(),
        ensures
            t@ == self@.subrange(from as int, to as int),
    {
        self.text.substring_char(from, to).to_owned()
    }

    /// The end of the run of characters of `class` that starts at `at`.
    fn scan(&self, at: usize, class: CharClass) -> (next: usize)
        requires
            at <= self@.len(),
        ensures
            at <= next <= self@.len(),
            next - at == run(self@.skip(at as int), class),
    {
        let n = self.len();
        let mut i: usize = at;
        while i < n && class_holds(self.char_at(i), class)
            invariant
                at <= i <= n,
                n == self@.len(),
                run(self@.skip(at as int), class) == (i - at) + run(self@.skip(i as int), class),
            decreases n - i,
        {
            proof {
                assert(self@.skip(i as int).drop_first() =~= self@.skip(i as int + 1));
            }
            i = i + 1;
        }
        i
    }

    /// The place of the next character that is no white space.
    fn skip_whitespace(&self, at: usize) -> (next: usize)
        requires
            at <= self@.len(),
        ensures
            at <= next <= self@.len(),
            self@.skip(next as int) == skip_spaces(self@.skip(at as int)),
    {
        let next = self.scan(at, CharClass::Space);
        proof {
            assert(self@.skip(at as int).skip(next - at) =~= self@.skip(next as int));
        }
        next
    }

    /// Whether the character at `at` is `lower` or `upper`.
    fn is_letter_at(&self, at: usize, lower: char, upper: char) -> (b: bool)
        requires
            at < self@.len(),
        ensures
            b == is_a(self@[at as int], lower, upper),
    {
        let c = self.char_at(at);
        c == lower || c == upper
    }

    fn is_char_at(&self, at: usize, c: char) -> (b: bool)
        requires
            at <= self@.len(),
        ensures
            b == starts_with_char(self@.skip(at as int), c),
            b ==> at < self@.len() <= usize::MAX,
    {
        at < self.len() && self.char_at(at) == c
    }

    fn is_pair_at(&self, at: usize, a: char, b: char) -> (r: bool)
        requires
            at <= self@.len(),
        ensures
            r == starts_with2(self@.skip(at as int), a, b),
            r ==> at + 2 <= self@.len() <= usize::MAX,
    {
        let n = self.len();
        n - at >= 2 && self.char_at(at) == a && self.char_at(at + 1) == b
    }
}

/// `[A-Za-z_][A-Za-z0-9_.]*`
pub fn identifier(input: &Span, at: usize) -> (r: Option<(String, usize)>)
    requires
        at <= input@.len(),
    ensures
        agrees_text(input@, at, spec_identifier(input@.skip(at as int)), r),
{
    if at < input.len() {
        let c = input.char_at(at);
        if ('a' <= c && c <= 'z') || ('A' <= c && c <= 'Z') || c == '_' {
            let next = input.scan(at + 1, CharClass::IdentifierPart);
            let name = input.slice(at, next);
            proof {
                let s = input@.skip(at as int);
                assert(s.skip(1) =~= input@.skip(at as int + 1));
                assert(s.take(next - at) =~= input@.subrange(at as int, next as int));
                assert(s.skip(next - at) =~= input@.skip(next as int));
            }
            return Some((name, next));
        }
    }
    None
}

/// One of the comparison operators.
pub fn comparision_operator(input: &Span, at: usize) -> (r: Option<(ComparisionOperator, usize)>)
    requires
        at <= input@.len(),
    ensures
        match spec_operator(input@.skip(at as int)) {
            Some((op, rest)) => r matches Some((o, next)) && o == op && at < next <= input@.len()
                && input@.skip(next as int) == rest,
            None => r is None,
        },
{
    proof {
        let s = input@.skip(at as int);
        if s.len() >= 1 {
            assert(s.skip(1) =~= input@.skip(at as int + 1));
        }
        if s.len() >= 2 {
            assert(s.skip(2) =~= input@.skip(at as int + 2));
        }
    }
    if input.is_pair_at(at, '!', '=') {
        Some((ComparisionOperator::NotEqual, at + 2))
    } else if input.is_pair_at(at, '<', '>') {
        Some((ComparisionOperator::NotEqual, at + 2))
    } else if input.is_pair_at(at, '~', '=') {
        Some((ComparisionOperator::Match, at + 2))
    } else if input.is_pair_at(at, '=', '=') {
        Some((ComparisionOperator::Equal, at + 2))
    } else if input.is_char_at(at, '=') {
        Some((ComparisionOperator::Equal, at + 1))
    } else if input.is_pair_at(at, '>', '=') {
        Some((ComparisionOperator::GreaterOrEqual, at + 2))
    } else if input.is_pair_at(at, '<', '=') {
        Some((ComparisionOperator::LessOrEqual, at + 2))
    } else if input.is_char_at(at, '>') {
        Some((ComparisionOperator::Greater, at + 1))
    } else if input.is_char_at(at, '<') {
        Some((ComparisionOperator::Less, at + 1))
    } else {
        None
    }
}

/// A run of letters and digits.
pub fn value_literal(input: &Span, at: usize) -> (r: Option<(String, usize)>)
    requires
        at <= input@.len(),
    ensures
        agrees_text(input@, at, spec_value_literal(input@.skip(at as int)), r),
{
    let next = input.scan(at, CharClass::Alphanumeric);
    if next > at {
        let value = input.slice(at, next);
        proof {
            let s = input@.skip(at as int);
            assert(s.take(next - at) =~= input@.subrange(at as int, next as int));
            assert(s.skip(next - at) =~= input@.skip(next as int));
        }
        Some((value, next))
    } else {
        None
    }
}

/// Text between double quotes; the quotes are not part of the literal.
pub fn string_literal(input: &Span, at: usize) -> (r: Option<(String, usize)>)
    requires
        at <= input@.len(),
    ensures
        agrees_text(input@, at, spec_string_literal(input@.skip(at as int)), r),
{
    if input.is_char_at(at, '"') {
        let close = input.scan(at + 1, CharClass::NotQuote);
        proof {
            let s = input@.skip(at as int);
            assert(s.skip(1) =~= input@.skip(at as int + 1));
        }
        if close < input.len() {
            let value = input.slice(at + 1, close);
            proof {
                let s = input@.skip(at as int);
                assert(s.subrange(1, close - at) =~= input@.subrange(at as int + 1, close as int));
                assert(s.skip(close - at + 1) =~= input@.skip(close as int + 1));
            }
            return Some((value, close + 1));
        }
    }
    None
}

/// `identifier op literal`
pub fn compare_expr(input: &Span, at: usize) -> (r: Option<(QueryExpr, usize)>)
    requires
        at <= input@.len(),
    ensures
        agrees(input@, at, spec_compare(input@.skip(at as int)), r),
{
    let start = input.skip_whitespace(at);
    let (name, after_name) = match identifier(input, start) {
        Some(found) => found,
        None => { return None; },
    };
    let at_op = input.skip_whitespace(after_name);
    let (op, after_op) = match comparision_operator(input, at_op) {
        Some(found) => found,
        None => { return None; },
    };
    let at_value = input.skip_whitespace(after_op);
    let (value, next) = match value_literal(input, at_value) {
        Some(found) => found,
        None => match string_literal(input, at_value) {
            Some(found) => found,
            None => { return None; },
        },
    };
    Some((QueryExpr::ComparisonOp(name, op, value), next))
}

/// Conditions joined by `or`.
pub fn condition_expr(input: &Span, at: usize) -> (r: Option<(QueryExpr, usize)>)
    requires
        at <= input@.len(),
    ensures
        agrees(input@, at, spec_condition(input@.skip(at as int)), r),
    decreases input@.len() - at, 2nat,
{
    let (left, after_left) = match and_expr(input, at) {
        Some(found) => found,
        None => { return None; },
    };
    let at_word = input.skip_whitespace(after_left);
    let n = input.len();
    if n - at_word >= 2 && input.is_letter_at(at_word, 'o', 'O') && input.is_letter_at(
        at_word + 1,
        'r',
        'R',
    ) {
        proof {
            assert(input@.skip(at_word as int).skip(2) =~= input@.skip(at_word as int + 2));
        }
        match condition_expr(input, at_word + 2) {
            Some((right, next)) => Some(
                (QueryExpr::LogicalOp(Box::new(left), LogicOperator::Or, Box::new(right)), next),
            ),
            None => None,
        }
    } else {
        Some((left, after_left))
    }
}

/// Atoms joined by `and`.
pub fn and_expr(input: &Span, at: usize) -> (r: Option<(QueryExpr, usize)>)
    requires
        at <= input@.len(),
    ensures
        agrees(input@, at, spec_and(input@.skip(at as int)), r),
    decreases input@.len() - at, 1nat,
{
    let (left, after_left) = match parenthetical_expr(input, at) {
        Some(found) => found,
        None => { return None; },
    };
    let at_word = input.skip_whitespace(after_left);
    let n = input.len();
    if n - at_word >= 3 && input.is_letter_at(at_word, 'a', 'A') && input.is_letter_at(
        at_word + 1,
        'n',
        'N',
    ) && input.is_letter_at(at_word + 2, 'd', 'D') {
        proof {
            assert(input@.skip(at_word as int).skip(3) =~= input@.skip(at_word as int + 3));
        }
        match and_expr(input, at_word + 3) {
            Some((right, next)) => Some(
                (QueryExpr::LogicalOp(Box::new(left), LogicOperator::And, Box::new(right)), next),
            ),
            None => None,
        }
    } else {
        Some((left, after_left))
    }
}

/// A query in parentheses, or a comparison.
pub fn parenthetical_expr(input: &Span, at: usize) -> (r: Option<(QueryExpr, usize)>)
    requires
        at <= input@.len(),
    ensures
        agrees(input@, at, spec_parenthetical(input@.skip(at as int)), r),
    decreases input@.len() - at, 0nat,
{
    let start = input.skip_whitespace(at);
    if input.is_char_at(start, '(') {
        proof {
            assert(input@.skip(start as int).skip(1) =~= input@.skip(start as int + 1));
        }
        let (inner, after_inner) = match condition_expr(input, start + 1) {
            Some(found) => found,
            None => { return None; },
        };
        let at_close = input.skip_whitespace(after_inner);
        if input.is_char_at(at_close, ')') {
            proof {
                assert(input@.skip(at_close as int).skip(1) =~= input@.skip(at_close as int + 1));
            }
            Some((inner, at_close + 1))
        } else {
            None
        }
    } else {
        compare_expr(input, at)
    }
}

/// Parses a whole query string. Fails where the grammar does not derive it, and where anything
/// but white space is left behind the query; the message holds what is left, or the whole
/// string where it does not begin with a query.
pub fn parse_query(s: &str) -> (r: Result<QueryExpr, MeltError>)
    ensures
        is_parsed(s@, r),
{
    let input = Span::new(s);
    proof {
        assert(input@.skip(0) =~= s@);
    }
    match condition_expr(&input, 0) {
        Some((query, after)) => {
            let end = input.skip_whitespace(after);
            if end == input.len() {
                Ok(query)
            } else {
                let mut message = String::from_str("can not complete query : ");
                let left = input.slice(end, input.len());
                proof {
                    assert(left@ =~= input@.skip(end as int));
                }
                message.append(left.as_str());
                Err(MeltError::unparseable_query(message.as_str()))
            }
        },
        None => {
            let mut message = String::from_str("can not parse query : ");
            message.append(s);
            Err(MeltError::unparseable_query(message.as_str()))
        },
    }
}

} // verus!
