//! The text of a query tree, and the proof that it parses back to the tree.

use crate::query::parser::{
    in_class, is_alpha, run, skip_spaces, spec_and, spec_compare, spec_condition, spec_identifier,
    spec_literal, spec_operator, spec_parenthetical, spec_query, spec_value_literal,
    starts_with_and, starts_with_char, starts_with_or, CharClass,
};
use crate::query::{ComparisionOperator, LogicOperator, QueryExpr, QueryView};
use vstd::prelude::*;

verus! {

/// The text of a comparison operator.
pub open spec fn operator_text(op: ComparisionOperator) -> Seq<char> {
    match op {
        ComparisionOperator::Equal => seq!['=', '='],
        ComparisionOperator::NotEqual => seq!['!', '='],
        ComparisionOperator::GreaterOrEqual => seq!['>', '='],
        ComparisionOperator::LessOrEqual => seq!['<', '='],
        ComparisionOperator::Less => seq!['<'],
        ComparisionOperator::Greater => seq!['>'],
        ComparisionOperator::Match => seq!['~', '='],
    }
}

/// The keyword of a logic operator.
pub open spec fn keyword_text(op: LogicOperator) -> Seq<char> {
    match op {
        LogicOperator::And => seq!['a', 'n', 'd'],
        LogicOperator::Or => seq!['o', 'r'],
    }
}

/// The text of a query: a comparison as `name op "value"`, two queries joined as
/// `(left) and (right)` or `(left) or (right)`.
pub open spec fn query_text(q: QueryView) -> Seq<char>
    decreases q,
{
    match q {
        QueryView::Comparison(name, op, value) => name + seq![' '] + operator_text(op) + seq![
            ' ',
            '"',
        ] + value + seq!['"'],
        QueryView::Logical(left, op, right) => seq!['('] + query_text(*left) + seq![')', ' ']
            + keyword_text(op) + seq![' ', '('] + query_text(*right) + seq![')'],
    }
}

/// A name that the grammar reads as an identifier.
pub open spec fn is_identifier(name: Seq<char>) -> bool {
    &&& name.len() > 0
    &&& is_alpha(name[0]) || name[0] == '_'
    &&& forall|i: int|
        1 <= i < name.len() ==> in_class(#[trigger] name[i], CharClass::IdentifierPart)
}

/// A tree that a query string can stand for: its names are identifiers and its literals hold
/// no double quote.
pub open spec fn is_printable(q: QueryView) -> bool
    decreases q,
{
    match q {
        QueryView::Comparison(name, op, value) => is_identifier(name) && forall|i: int|
            0 <= i < value.len() ==> #[trigger] value[i] != '"',
        QueryView::Logical(left, op, right) => is_printable(*left) && is_printable(*right),
    }
}

proof fn lemma_run_bounds(s: Seq<char>, class: CharClass)
    ensures
        run(s, class) <= s.len(),
        forall|i: int| 0 <= i < run(s, class) ==> in_class(#[trigger] s[i], class),
    decreases s.len(),
{
    if s.len() > 0 && in_class(s[0], class) {
        lemma_run_bounds(s.drop_first(), class);
        assert forall|i: int| 0 <= i < run(s, class) implies in_class(#[trigger] s[i], class) by {
            if i > 0 {
                assert(s.drop_first()[i - 1] == s[i]);
            }
        }
    }
}

/// A run over `p + rest` ends where `p` ends, where all of `p` is in the class and `rest` does
/// not go on in it.
proof fn lemma_run_exact(p: Seq<char>, rest: Seq<char>, class: CharClass)
    requires
        forall|i: int| 0 <= i < p.len() ==> in_class(#[trigger] p[i], class),
        rest.len() == 0 || !in_class(rest[0], class),
    ensures
        run(p + rest, class) == p.len(),
    decreases p.len(),
{
    if p.len() == 0 {
        assert(p + rest =~= rest);
    } else {
        assert((p + rest).drop_first() =~= p.drop_first() + rest);
        assert((p + rest)[0] == p[0]);
        assert forall|i: int| 0 <= i < p.drop_first().len() implies in_class(
            #[trigger] p.drop_first()[i],
            class,
        ) by {
            assert(p.drop_first()[i] == p[i + 1]);
        }
        lemma_run_exact(p.drop_first(), rest, class);
    }
}

/// White space is skipped up to `rest`, where `lead` is white space and `rest` is not.
proof fn lemma_skip_lead(lead: Seq<char>, rest: Seq<char>)
    requires
        forall|i: int| 0 <= i < lead.len() ==> in_class(#[trigger] lead[i], CharClass::Space),
        rest.len() == 0 || !in_class(rest[0], CharClass::Space),
    ensures
        skip_spaces(lead + rest) == rest,
{
    lemma_run_exact(lead, rest, CharClass::Space);
    assert((lead + rest).skip(lead.len() as int) =~= rest);
}

proof fn lemma_identifier_is_read(name: Seq<char>, rest: Seq<char>)
    requires
        is_identifier(name),
        rest.len() == 0 || !in_class(rest[0], CharClass::IdentifierPart),
    ensures
        spec_identifier(name + rest) == Some((name, rest)),
{
    let s = name + rest;
    let tail = name.skip(1);
    assert(s[0] == name[0]);
    assert(s.skip(1) =~= tail + rest);
    assert forall|i: int| 0 <= i < tail.len() implies in_class(
        #[trigger] tail[i],
        CharClass::IdentifierPart,
    ) by {
        assert(tail[i] == name[i + 1]);
    }
    lemma_run_exact(tail, rest, CharClass::IdentifierPart);
    assert(s.take(name.len() as int) =~= name);
    assert(s.skip(name.len() as int) =~= rest);
}

proof fn lemma_operator_is_read(op: ComparisionOperator, rest: Seq<char>)
    requires
        rest.len() > 0,
        rest[0] == ' ',
    ensures
        spec_operator(operator_text(op) + rest) == Some((op, rest)),
{
    let s = operator_text(op) + rest;
    assert(s[0] == operator_text(op)[0]);
    if operator_text(op).len() == 2 {
        assert(s[1] == operator_text(op)[1]);
        assert(s.skip(2) =~= rest);
    } else {
        assert(s[1] == rest[0]);
        assert(s.skip(1) =~= rest);
    }
}

proof fn lemma_quoted_is_read(value: Seq<char>, rest: Seq<char>)
    requires
        forall|i: int| 0 <= i < value.len() ==> #[trigger] value[i] != '"',
    ensures
        spec_literal(seq!['"'] + value + seq!['"'] + rest) == Some((value, rest)),
{
    let s = seq!['"'] + value + seq!['"'] + rest;
    let after = seq!['"'] + rest;
    assert(s[0] == '"');
    assert(run(s, CharClass::Alphanumeric) == 0);
    assert(s.skip(1) =~= value + after);
    assert(after[0] == '"');
    assert forall|i: int| 0 <= i < value.len() implies in_class(
        #[trigger] value[i],
        CharClass::NotQuote,
    ) by {}
    lemma_run_exact(value, after, CharClass::NotQuote);
    assert(s.subrange(1, 1 + value.len() as int) =~= value);
    assert(s.skip(2 + value.len() as int) =~= rest);
}

proof fn lemma_comparison_is_read(
    name: Seq<char>,
    op: ComparisionOperator,
    value: Seq<char>,
    rest: Seq<char>,
)
    requires
        is_printable(QueryView::Comparison(name, op, value)),
    ensures
        spec_compare(query_text(QueryView::Comparison(name, op, value)) + rest) == Some(
            (QueryView::Comparison(name, op, value), rest),
        ),
        spec_parenthetical(query_text(QueryView::Comparison(name, op, value)) + rest) == Some(
            (QueryView::Comparison(name, op, value), rest),
        ),
{
    let s = query_text(QueryView::Comparison(name, op, value)) + rest;
    let quoted = seq!['"'] + value + seq!['"'] + rest;
    let after_op = seq![' '] + quoted;
    let at_op = operator_text(op) + after_op;
    let after_name = seq![' '] + at_op;
    assert(s =~= name + after_name);
    assert(s[0] == name[0]);
    assert(run(s, CharClass::Space) == 0);
    assert(s.skip(0) =~= s);
    assert(after_name[0] == ' ');
    lemma_identifier_is_read(name, after_name);
    assert(at_op[0] == operator_text(op)[0]);
    lemma_skip_lead(seq![' '], at_op);
    assert(after_op[0] == ' ');
    lemma_operator_is_read(op, after_op);
    assert(quoted[0] == '"');
    lemma_skip_lead(seq![' '], quoted);
    lemma_quoted_is_read(value, rest);
}

/// Nothing is joined on behind a query that ends the input or stands before a closing
/// parenthesis.
proof fn lemma_nothing_follows(rest: Seq<char>)
    requires
        rest.len() == 0 || rest[0] == ')',
    ensures
        skip_spaces(rest) == rest,
        !starts_with_and(skip_spaces(rest)),
        !starts_with_or(skip_spaces(rest)),
{
    assert(run(rest, CharClass::Space) == 0);
    assert(rest.skip(0) =~= rest);
}

/// A query in parentheses is read as an atom, where the query itself is read.
proof fn lemma_atom_is_read(q: QueryView, lead: Seq<char>, rest: Seq<char>)
    requires
        forall|i: int| 0 <= i < lead.len() ==> in_class(#[trigger] lead[i], CharClass::Space),
        spec_condition(query_text(q) + (seq![')'] + rest)) == Some((q, seq![')'] + rest)),
    ensures
        spec_parenthetical(lead + (seq!['('] + (query_text(q) + (seq![')'] + rest)))) == Some(
            (q, rest),
        ),
        (seq!['('] + (query_text(q) + (seq![')'] + rest))).len() > rest.len() + 1,
{
    let closing = seq![')'] + rest;
    let inner = query_text(q) + closing;
    let start = seq!['('] + inner;
    let s = lead + start;
    assert(start[0] == '(');
    lemma_skip_lead(lead, start);
    assert(start.skip(1) =~= inner);
    assert(closing[0] == ')');
    lemma_nothing_follows(closing);
    assert(closing.skip(1) =~= rest);
}

proof fn lemma_single_and(s: Seq<char>, q: QueryView, rest: Seq<char>)
    requires
        spec_parenthetical(s) == Some((q, rest)),
        !starts_with_and(skip_spaces(rest)),
    ensures
        spec_and(s) == Some((q, rest)),
{
}

proof fn lemma_single_condition(s: Seq<char>, q: QueryView, rest: Seq<char>)
    requires
        spec_and(s) == Some((q, rest)),
        !starts_with_or(skip_spaces(rest)),
    ensures
        spec_condition(s) == Some((q, rest)),
{
}

proof fn lemma_joined_by_and(
    s: Seq<char>,
    left: QueryView,
    after_left: Seq<char>,
    after_word: Seq<char>,
    right: QueryView,
    rest: Seq<char>,
)
    requires
        spec_parenthetical(s) == Some((left, after_left)),
        starts_with_and(skip_spaces(after_left)),
        skip_spaces(after_left).skip(3) == after_word,
        after_word.len() < s.len(),
        spec_and(after_word) == Some((right, rest)),
    ensures
        spec_and(s) == Some(
            (QueryView::Logical(Box::new(left), LogicOperator::And, Box::new(right)), rest),
        ),
{
}

proof fn lemma_joined_by_or(
    s: Seq<char>,
    left: QueryView,
    after_left: Seq<char>,
    after_word: Seq<char>,
    right: QueryView,
    rest: Seq<char>,
)
    requires
        spec_and(s) == Some((left, after_left)),
        starts_with_or(skip_spaces(after_left)),
        skip_spaces(after_left).skip(2) == after_word,
        after_word.len() < s.len(),
        spec_condition(after_word) == Some((right, rest)),
    ensures
        spec_condition(s) == Some(
            (QueryView::Logical(Box::new(left), LogicOperator::Or, Box::new(right)), rest),
        ),
{
}

/// The keyword is found behind the first atom.
proof fn lemma_keyword_is_read(op: LogicOperator, after_word: Seq<char>)
    requires
        after_word.len() > 0,
        after_word[0] == ' ',
    ensures
        skip_spaces(seq![' '] + (keyword_text(op) + after_word)) == keyword_text(op) + after_word,
        op == LogicOperator::And ==> starts_with_and(keyword_text(op) + after_word)
            && (keyword_text(op) + after_word).skip(3) == after_word,
        op == LogicOperator::Or ==> starts_with_or(keyword_text(op) + after_word)
            && !starts_with_and(keyword_text(op) + after_word)
            && (keyword_text(op) + after_word).skip(2) == after_word,
{
    let word = keyword_text(op);
    let at_word = word + after_word;
    assert(at_word[0] == word[0]);
    assert(at_word[1] == word[1]);
    lemma_skip_lead(seq![' '], at_word);
    match op {
        LogicOperator::And => {
            assert(at_word[2] == word[2]);
            assert(at_word.skip(3) =~= after_word);
        },
        LogicOperator::Or => {
            assert(at_word.skip(2) =~= after_word);
        },
    }
}

/// The text of two joined queries, with what follows, piece by piece from the right.
proof fn lemma_text_of_joined(left: QueryView, op: LogicOperator, right: QueryView, rest: Seq<char>)
    ensures
        query_text(QueryView::Logical(Box::new(left), op, Box::new(right))) + rest
            == Seq::<char>::empty() + (seq!['('] + (query_text(left) + (seq![')'] + (seq![' '] + (
        keyword_text(op) + (seq![' '] + (seq!['('] + (query_text(right) + (seq![')']
            + rest))))))))),
{
    let closing = seq![')'] + rest;
    let second = seq!['('] + (query_text(right) + closing);
    let after_word = seq![' '] + second;
    let at_word = keyword_text(op) + after_word;
    let after_first = seq![' '] + at_word;
    let first = seq!['('] + (query_text(left) + (seq![')'] + after_first));
    assert(query_text(QueryView::Logical(Box::new(left), op, Box::new(right))) + rest =~= Seq::<
        char,
    >::empty() + first);
}

/// A printed query is read back, whatever follows it, where what follows is the end of the
/// input or a closing parenthesis.
pub proof fn lemma_printed_is_read(q: QueryView, rest: Seq<char>)
    requires
        is_printable(q),
        rest.len() == 0 || rest[0] == ')',
    ensures
        spec_condition(query_text(q) + rest) == Some((q, rest)),
    decreases q,
{
    let s = query_text(q) + rest;
    lemma_nothing_follows(rest);
    match q {
        QueryView::Comparison(name, op, value) => {
            lemma_comparison_is_read(name, op, value, rest);
            lemma_single_and(s, q, rest);
            lemma_single_condition(s, q, rest);
        },
        QueryView::Logical(left, op, right) => {
            let none = Seq::<char>::empty();
            let closing = seq![')'] + rest;
            let second = seq!['('] + (query_text(*right) + closing);
            let after_word = seq![' '] + second;
            let at_word = keyword_text(op) + after_word;
            let after_first = seq![' '] + at_word;
            let first_close = seq![')'] + after_first;
            lemma_text_of_joined(*left, op, *right, rest);
            assert(s == none + (seq!['('] + (query_text(*left) + first_close)));
            // the first atom
            assert(first_close[0] == ')');
            lemma_printed_is_read(*left, first_close);
            lemma_atom_is_read(*left, none, after_first);
            // the second atom
            assert(closing[0] == ')');
            lemma_printed_is_read(*right, closing);
            lemma_atom_is_read(*right, seq![' '], rest);
            lemma_single_and(after_word, *right, rest);
            // the keyword between them
            assert(after_word[0] == ' ');
            lemma_keyword_is_read(op, after_word);
            assert(after_word.len() < s.len());
            match op {
                LogicOperator::And => {
                    lemma_joined_by_and(s, *left, after_first, after_word, *right, rest);
                    lemma_single_condition(s, q, rest);
                },
                LogicOperator::Or => {
                    lemma_single_and(s, *left, after_first);
                    lemma_single_condition(after_word, *right, rest);
                    lemma_joined_by_or(s, *left, after_first, after_word, *right, rest);
                },
            }
        },
    }
}

/// What the grammar reads is printable.
pub proof fn lemma_parsed_is_printable(s: Seq<char>, level: nat)
    requires
        level <= 2,
    ensures
        level == 2 ==> (spec_condition(s) matches Some((q, rest)) ==> is_printable(q)),
        level == 1 ==> (spec_and(s) matches Some((q, rest)) ==> is_printable(q)),
        level == 0 ==> (spec_parenthetical(s) matches Some((q, rest)) ==> is_printable(q)),
    decreases s.len(), level,
{
    if level == 2 {
        lemma_parsed_is_printable(s, 1);
        match spec_and(s) {
            Some((left, after_left)) => {
                let after_word = skip_spaces(after_left).skip(2);
                if starts_with_or(skip_spaces(after_left)) && after_word.len() < s.len() {
                    lemma_parsed_is_printable(after_word, 2);
                }
            },
            None => {},
        }
    } else if level == 1 {
        lemma_parsed_is_printable(s, 0);
        match spec_parenthetical(s) {
            Some((left, after_left)) => {
                let after_word = skip_spaces(after_left).skip(3);
                if starts_with_and(skip_spaces(after_left)) && after_word.len() < s.len() {
                    lemma_parsed_is_printable(after_word, 1);
                }
            },
            None => {},
        }
    } else {
        let start = skip_spaces(s);
        if starts_with_char(start, '(') {
            if start.skip(1).len() < s.len() {
                lemma_parsed_is_printable(start.skip(1), 2);
            }
        } else {
            match spec_compare(s) {
                Some((q, rest)) => {
                    let at_name = skip_spaces(s);
                    let (name, after_name) = spec_identifier(at_name)->0;
                    let (op, after_op) = spec_operator(skip_spaces(after_name))->0;
                    let at_value = skip_spaces(after_op);
                    let (value, _) = spec_literal(at_value)->0;
                    lemma_run_bounds(at_name.skip(1), CharClass::IdentifierPart);
                    assert forall|i: int| 1 <= i < name.len() implies in_class(
                        #[trigger] name[i],
                        CharClass::IdentifierPart,
                    ) by {
                        assert(name[i] == at_name.skip(1)[i - 1]);
                    }
                    assert(name[0] == at_name[0]);
                    if spec_value_literal(at_value) is Some {
                        lemma_run_bounds(at_value, CharClass::Alphanumeric);
                        assert forall|i: int| 0 <= i < value.len() implies #[trigger] value[i]
                            != '"' by {
                            assert(in_class(at_value[i], CharClass::Alphanumeric));
                        }
                    } else {
                        lemma_run_bounds(at_value.skip(1), CharClass::NotQuote);
                        assert forall|i: int| 0 <= i < value.len() implies #[trigger] value[i]
                            != '"' by {
                            assert(in_class(at_value.skip(1)[i], CharClass::NotQuote));
                        }
                    }
                },
                None => {},
            }
        }
    }
}

/// Parsing, printing and parsing again gives the tree of the first parsing: where `s` is a
/// query, the text of its tree is a query with the same tree.
pub proof fn lemma_print_then_parse(s: Seq<char>)
    requires
        spec_query(s) is Some,
    ensures
        spec_query(query_text(spec_query(s)->0)) == spec_query(s),
{
    let q = spec_query(s)->0;
    lemma_parsed_is_printable(s, 2);
    lemma_printed_is_read(q, Seq::empty());
    assert(query_text(q) + Seq::<char>::empty() =~= query_text(q));
    lemma_nothing_follows(Seq::empty());
}

fn operator_str(op: ComparisionOperator) -> (s: &'static str)
    ensures
        s@ == operator_text(op),
{
    proof {
        reveal_strlit("==");
        reveal_strlit("!=");
        reveal_strlit(">=");
        reveal_strlit("<=");
        reveal_strlit("<");
        reveal_strlit(">");
        reveal_strlit("~=");
        assert("=="@ =~= seq!['=', '=']);
        assert("!="@ =~= seq!['!', '=']);
        assert(">="@ =~= seq!['>', '=']);
        assert("<="@ =~= seq!['<', '=']);
        assert("<"@ =~= seq!['<']);
        assert(">"@ =~= seq!['>']);
        assert("~="@ =~= seq!['~', '=']);
    }
    match op {
        ComparisionOperator::Equal => "==",
        ComparisionOperator::NotEqual => "!=",
        ComparisionOperator::GreaterOrEqual => ">=",
        ComparisionOperator::LessOrEqual => "<=",
        ComparisionOperator::Less => "<",
        ComparisionOperator::Greater => ">",
        ComparisionOperator::Match => "~=",
    }
}

fn keyword_str(op: LogicOperator) -> (s: &'static str)
    ensures
        s@ == keyword_text(op),
{
    proof {
        reveal_strlit("and");
        reveal_strlit("or");
        assert("and"@ =~= seq!['a', 'n', 'd']);
        assert("or"@ =~= seq!['o', 'r']);
    }
    match op {
        LogicOperator::And => "and",
        LogicOperator::Or => "or",
    }
}

impl QueryExpr {
    /// Writes the query as text that parses back to it: a comparison as `name op "value"`,
    /// two queries joined as `(left) and (right)` or `(left) or (right)`.
    pub fn to_query_string(&self) -> (text: String)
        ensures
            text@ == query_text(self@),
        decreases self,
    {
        proof {
            reveal_strlit(" ");
            reveal_strlit(" \"");
            reveal_strlit("\"");
            reveal_strlit("(");
            reveal_strlit(") ");
            reveal_strlit(" (");
            reveal_strlit(")");
            assert(" "@ =~= seq![' ']);
            assert(" \""@ =~= seq![' ', '"']);
            assert("\""@ =~= seq!['"']);
            assert("("@ =~= seq!['(']);
            assert(") "@ =~= seq![')', ' ']);
            assert(" ("@ =~= seq![' ', '(']);
            assert(")"@ =~= seq![')']);
        }
        match self {
            QueryExpr::ComparisonOp(name, op, value) => {
                let mut text = name.clone();
                text.append(" ");
                text.append(operator_str(*op));
                text.append(" \"");
                text.append(value.as_str());
                text.append("\"");
                text
            },
            QueryExpr::LogicalOp(left, op, right) => {
                let mut text = String::from_str("(");
                text.append(left.to_query_string().as_str());
                text.append(") ");
                text.append(keyword_str(*op));
                text.append(" (");
                text.append(right.to_query_string().as_str());
                text.append(")");
                text
            },
        }
    }
}

} // verus!
