use parse::{ASTNode, Location, Parser, ParserBuilder, ParserError, Pattern, PatternFunc, Token};

#[derive(Debug, Clone, PartialEq)]
enum Ast {
    Tok(String, String),
    Num(i64),
    Tag(u32),
    Empty,
}

impl ASTNode for Ast {
    fn token_node(token: Token) -> Self {
        Ast::Tok(token.name, token.symbol)
    }

    fn new_token(token: &Token) -> Self {
        Self::token_node(token.clone())
    }

    fn is_token(&self) -> bool {
        matches!(self, Ast::Tok(_, _))
    }

    fn token(&self) -> Result<&Token, String> {
        Err("tokens are not kept".to_owned())
    }
}

type Red = PatternFunc<Ast, String>;

fn tok(name: &str, symbol: &str) -> Token {
    Token { name: name.to_owned(), symbol: symbol.to_owned(), loc: Location::default() }
}

fn number(nodes: &[Ast]) -> Result<Ast, String> {
    match &nodes[0] {
        Ast::Tok(_, s) => s.parse::<i64>().map(Ast::Num).map_err(|e| e.to_string()),
        _ => Err("expected a number".to_owned()),
    }
}

fn sum(nodes: &[Ast]) -> Result<Ast, String> {
    match (&nodes[0], &nodes[2]) {
        (Ast::Tok(_, s), Ast::Num(r)) => Ok(Ast::Num(s.parse::<i64>().map_err(|e| e.to_string())? + r)),
        _ => Err("expected NUM PLUS expr".to_owned()),
    }
}

fn pass(nodes: &[Ast]) -> Result<Ast, String> {
    Ok(nodes[0].clone())
}

fn tag_one(_nodes: &[Ast]) -> Result<Ast, String> {
    Ok(Ast::Tag(1))
}

fn tag_two(_nodes: &[Ast]) -> Result<Ast, String> {
    Ok(Ast::Tag(2))
}

fn empty(_nodes: &[Ast]) -> Result<Ast, String> {
    Ok(Ast::Empty)
}

fn reject(_nodes: &[Ast]) -> Result<Ast, String> {
    Err("rejected".to_owned())
}

fn grammar(terminals: &[&str], rules: &[(&str, &str, Red)]) -> Parser<Ast, String, Red> {
    let mut b: ParserBuilder<Ast, String, Red> = ParserBuilder::new(terminals);
    b.add_patterns(rules).unwrap();
    b.build()
}

#[test]
fn arithmetic_right_recursive_sum() {
    let p = grammar(
        &["NUM", "PLUS"],
        &[("expr", "NUM PLUS expr", sum as Red), ("expr", "NUM", number as Red), ("program", "expr", pass as Red)],
    );
    let toks = vec![tok("NUM", "1"), tok("PLUS", "+"), tok("NUM", "2")];
    assert_eq!(p.parse(&toks), Ok(Ast::Num(3)));
}

#[test]
fn arithmetic_short_alternative_first_commits_to_one_token() {
    let p = grammar(
        &["NUM", "PLUS"],
        &[("expr", "NUM", number as Red), ("expr", "NUM PLUS expr", sum as Red), ("program", "expr", pass as Red)],
    );
    let toks = vec![tok("NUM", "1"), tok("PLUS", "+"), tok("NUM", "2")];
    assert_eq!(p.parse(&toks), Err(ParserError::TokenRemaining));
    assert_eq!(p.resolve(&toks, "expr"), Ok((Ast::Num(1), 1)));
}

#[test]
fn leftover_tokens_are_reported() {
    let p = grammar(&["NUM"], &[("program", "NUM", number as Red)]);
    let toks = vec![tok("NUM", "1"), tok("NUM", "2")];
    assert_eq!(p.parse(&toks), Err(ParserError::TokenRemaining));
}

#[test]
fn unknown_element_is_a_hard_failure() {
    let p = grammar(&["NUM"], &[("program", "FOO", pass as Red), ("program", "NUM", number as Red)]);
    assert_eq!(p.parse(&[]), Err(ParserError::UnknownElem("FOO".to_owned())));
    assert_eq!(p.parse(&[tok("NUM", "1")]), Err(ParserError::UnknownElem("FOO".to_owned())));
}

#[test]
fn missing_program_is_an_invalid_pattern_name() {
    let p = grammar(&["NUM"], &[("expr", "NUM", number as Red)]);
    assert_eq!(p.parse(&[tok("NUM", "1")]), Err(ParserError::InvalidPatternName("program".to_owned())));
    assert_eq!(p.resolve(&[], "stmt"), Err(ParserError::InvalidPatternName("stmt".to_owned())));
}

#[test]
fn first_matching_alternative_wins() {
    let p = grammar(&["A", "B"], &[("x", "A", tag_one as Red), ("x", "A B", tag_two as Red)]);
    let toks = vec![tok("A", "a"), tok("B", "b")];
    assert_eq!(p.resolve(&toks, "x"), Ok((Ast::Tag(1), 1)));
}

#[test]
fn later_alternative_tried_after_soft_failure() {
    let p = grammar(&["A", "B"], &[("x", "A B", tag_two as Red), ("x", "A", tag_one as Red)]);
    assert_eq!(p.resolve(&[tok("A", "a")], "x"), Ok((Ast::Tag(1), 1)));
    assert_eq!(p.resolve(&[tok("B", "b")], "x"), Err(ParserError::NotMatching("x".to_owned())));
}

#[test]
fn epsilon_alternative_consumes_nothing() {
    let p = grammar(&["A", "B"], &[("opt", "A", tag_one as Red), ("opt", "", empty as Red)]);
    assert_eq!(p.resolve(&[tok("B", "b")], "opt"), Ok((Ast::Empty, 0)));
    assert_eq!(p.resolve(&[], "opt"), Ok((Ast::Empty, 0)));
    assert_eq!(p.resolve(&[tok("A", "a")], "opt"), Ok((Ast::Tag(1), 1)));
}

#[test]
fn reducer_failure_aborts_the_parse() {
    let p = grammar(&["A"], &[("program", "A", reject as Red), ("program", "A", tag_one as Red)]);
    assert_eq!(p.parse(&[tok("A", "a")]), Err(ParserError::PatternFunc("rejected".to_owned())));
}

#[test]
fn left_recursion_is_reported() {
    let p = grammar(&["NUM", "PLUS"], &[("expr", "expr PLUS NUM", sum as Red), ("program", "expr", pass as Red)]);
    let toks = vec![tok("NUM", "1"), tok("PLUS", "+"), tok("NUM", "2")];
    assert_eq!(p.parse(&toks), Err(ParserError::LeftRecursion("expr".to_owned())));
}

#[test]
fn child_soft_failure_fails_the_parent_alternative() {
    let p = grammar(&["A", "B"], &[("y", "B", tag_two as Red), ("x", "y", pass as Red), ("x", "A", tag_one as Red)]);
    assert_eq!(p.resolve(&[tok("A", "a")], "x"), Ok((Ast::Tag(1), 1)));
}

#[test]
fn pattern_name_may_not_be_a_terminal() {
    let mut b: ParserBuilder<Ast, String, Red> = ParserBuilder::new(&["NUM"]);
    assert_eq!(b.add_pattern("NUM", "NUM", number as Red), Err("Pattern name already a token".to_owned()));
    assert_eq!(b.add_pattern("expr", "NUM", number as Red), Ok(()));
}

#[test]
fn symbols_are_split_at_any_whitespace() {
    let p = grammar(&["A", "B"], &[("program", "  A \t\n B  ", tag_two as Red)]);
    assert_eq!(p.parse(&[tok("A", "a"), tok("B", "b")]), Ok(Ast::Tag(2)));
}

#[test]
fn patterns_compare_by_name_and_symbols() {
    let a: Pattern<Ast, String, Red> = Pattern::new("x", &["A", "B"], tag_one);
    let b: Pattern<Ast, String, Red> = Pattern::new("x", &["A", "B"], tag_two);
    let c: Pattern<Ast, String, Red> = Pattern::new("x", &["A"], tag_one);
    assert!(a == b);
    assert!(a != c);
    assert_eq!(a.name(), "x");
    assert_eq!(a.elems(), &vec!["A".to_owned(), "B".to_owned()]);
}

#[test]
fn repeated_alternatives_are_collapsed() {
    let pats: Vec<Pattern<Ast, String, Red>> = vec![
        Pattern::new("program", &["A"], tag_one),
        Pattern::new("program", &["A"], tag_two),
    ];
    let p = Parser::new(&["A".to_owned()], &pats);
    assert_eq!(p.parse(&[tok("A", "a")]), Ok(Ast::Tag(1)));
}

#[test]
fn patterns_order_by_name_then_length_then_symbols() {
    let p = |name: &str, elems: &[&str]| -> Pattern<Ast, String, Red> { Pattern::new(name, elems, tag_one) };
    assert!(p("a", &["Z", "Z"]) < p("b", &[]));
    assert!(p("ab", &[]) > p("a", &["X"]));
    assert!(p("x", &["B"]) < p("x", &["A", "A"]));
    assert!(p("x", &["A", "B"]) < p("x", &["A", "C"]));
    assert!(p("x", &["é"]) > p("x", &["z"]));
    assert_eq!(p("x", &["A"]).partial_cmp(&p("x", &["A"])), Some(std::cmp::Ordering::Equal));
}

fn sum_of_three(nodes: &[Ast]) -> Result<Ast, String> {
    match (&nodes[0], &nodes[2]) {
        (Ast::Tok(_, a), Ast::Tok(_, b)) => Ok(Ast::Num(a.parse::<i64>().unwrap() + b.parse::<i64>().unwrap())),
        _ => Err("expected NUM PLUS NUM".to_owned()),
    }
}

fn pair_then_number(nodes: &[Ast]) -> Result<Ast, String> {
    match (&nodes[0], &nodes[1]) {
        (Ast::Num(a), Ast::Tok(_, b)) => Ok(Ast::Num(a * 10 + b.parse::<i64>().unwrap())),
        _ => Err("expected pair NUM".to_owned()),
    }
}

#[test]
fn children_are_read_at_the_cursor() {
    let p = grammar(
        &["NUM", "PLUS"],
        &[("pair", "NUM PLUS NUM", sum_of_three as Red), ("program", "pair NUM", pair_then_number as Red)],
    );
    let toks = vec![tok("NUM", "1"), tok("PLUS", "+"), tok("NUM", "2"), tok("NUM", "3")];
    assert_eq!(p.parse(&toks), Ok(Ast::Num(33)));
}

#[test]
fn committed_derivation_is_not_shortened() {
    let p = grammar(
        &["NUM"],
        &[("program", "xs NUM", tag_one as Red), ("xs", "NUM xs", tag_two as Red), ("xs", "", empty as Red)],
    );
    let toks = vec![tok("NUM", "1"), tok("NUM", "2")];
    assert_eq!(p.parse(&toks), Err(ParserError::NotMatching("program".to_owned())));
}
