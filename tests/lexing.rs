use parse::{Lexer, LexerBuilder, LexerError, LexerStream, Position, Rule};

fn pos(idx: usize, line: usize, col: usize) -> Position {
    Position { idx, line, col }
}

fn lexer(rules: &[(&str, &str)]) -> Lexer {
    let mut b = LexerBuilder::new();
    b.ignore_rules(&[r"^[ \r\n\t]+"]).unwrap();
    b.add_rules(rules).unwrap();
    b.build()
}

#[test]
fn whitespace_only_input_yields_no_tokens() {
    let l = lexer(&[("ID", r"^[a-z]+")]);
    assert_eq!(l.lex("  \n\t  ").unwrap().len(), 0);
    assert_eq!(l.lex("").unwrap().len(), 0);
}

#[test]
fn earlier_rule_wins_over_general_rule() {
    let l = lexer(&[("FUNC", r"^func"), ("ID", r"^[a-z]+")]);
    let toks = l.lex("func").unwrap();
    assert_eq!(toks.len(), 1);
    assert_eq!(toks[0].name, "FUNC");
    assert_eq!(toks[0].symbol, "func");

    let l = lexer(&[("ID", r"^[a-z]+"), ("FUNC", r"^func")]);
    assert_eq!(l.lex("func").unwrap()[0].name, "ID");
}

#[test]
fn positions_follow_lines_and_columns() {
    let l = lexer(&[("ID", r"^[a-z]+")]);
    let toks = l.lex("ab  cd\nef").unwrap();
    assert_eq!(toks.len(), 3);
    assert_eq!(toks[0].symbol, "ab");
    assert_eq!((toks[0].loc.start, toks[0].loc.end), (pos(0, 1, 1), pos(2, 1, 3)));
    assert_eq!((toks[1].loc.start, toks[1].loc.end), (pos(2, 1, 3), pos(6, 1, 7)));
    assert_eq!((toks[2].loc.start, toks[2].loc.end), (pos(6, 1, 7), pos(9, 2, 3)));
    for w in toks.windows(2) {
        assert!(w[1].loc.start.idx >= w[0].loc.end.idx);
        assert!(w[1].loc.end.idx > w[0].loc.end.idx);
    }
}

#[test]
fn offsets_count_characters() {
    let l = lexer(&[("WORD", r"^\w+")]);
    let toks = l.lex("héllo wörld").unwrap();
    assert_eq!(toks[0].loc.end, pos(5, 1, 6));
    assert_eq!(toks[1].loc.end, pos(11, 1, 12));
}

#[test]
fn unmatched_character_is_an_invalid_token() {
    let l = lexer(&[("ID", r"^[a-z]+")]);
    assert_eq!(l.lex("ab\n $").unwrap_err(), LexerError::InvalidToken(pos(4, 2, 2)));
    let mut s = LexerStream::new(&l, "ab $cd", None);
    assert_eq!(s.next_token().unwrap().unwrap().symbol, "ab");
    assert_eq!(s.next_token().unwrap().unwrap_err(), LexerError::InvalidToken(pos(3, 1, 4)));
    assert!(s.next_token().is_none());
}

#[test]
fn rule_must_match_at_the_cursor() {
    let l = lexer(&[("ID", r"[a-z]+")]);
    assert_eq!(l.lex("1ab").unwrap_err(), LexerError::InvalidToken(pos(0, 1, 1)));
}

#[test]
fn first_rule_wins_even_with_an_empty_match() {
    let l = lexer(&[("OPT", r"^a*"), ("B", r"^b")]);
    let mut s = LexerStream::new(&l, "b", None);
    let t = s.next_token().unwrap().unwrap();
    assert_eq!(t.name, "OPT");
    assert_eq!(t.symbol, "");
    assert_eq!((t.loc.start, t.loc.end), (pos(0, 1, 1), pos(0, 1, 1)));
    assert_eq!(l.lex("b").unwrap_err(), LexerError::EmptyToken(pos(0, 1, 1)));
    let toks = l.lex("aa").unwrap();
    assert_eq!(toks.len(), 1);
    assert_eq!(toks[0].symbol, "aa");
}

#[test]
fn empty_ignore_matches_skip_nothing() {
    let mut b = LexerBuilder::new();
    b.ignore_rules(&[r"^ *"]).unwrap();
    b.add_rules(&[("ID", r"^[a-z]+")]).unwrap();
    let toks = b.build().lex("ab  cd").unwrap();
    assert_eq!(toks.len(), 2);
    assert_eq!(toks[1].loc.end, pos(6, 1, 7));
}

#[test]
fn invalid_patterns_are_refused() {
    let e = Rule::new("X", "(").err().unwrap();
    assert!(e.starts_with("Invalid regex: "));
    assert!(e.len() > "Invalid regex: ".len());
    let r = Rule::new("X", "^x").unwrap();
    assert_eq!(r.name(), "X");
    assert_eq!(r.pattern().as_str(), "^x");
    let mut b = LexerBuilder::new();
    assert_eq!(b.add_rule("X", "("), Err(()));
    assert_eq!(b.add_rules(&[("A", "^a"), ("B", "(b")]), Err("Invalid regex '(b'".to_owned()));
    assert_eq!(b.ignore_rules(&["^ +", "["]), Err("Invalid regex '['".to_owned()));
    assert_eq!(b.ignore_rule("^\t"), Ok(()));
    let l = b.build();
    assert_eq!(l.rules().len(), 1);
    assert_eq!(l.ignore_rules().len(), 2);
}

#[test]
fn tokens_carry_the_file_name() {
    let l = lexer(&[("ID", r"^[a-z]+")]);
    let toks = l.lex_with_filename("a b", Some("f.txt".to_owned())).unwrap();
    assert_eq!(toks[1].loc.filename, Some("f.txt".to_owned()));
    assert_eq!(Position::default(), pos(0, 1, 1));
}

#[test]
fn update_pos_consumes_the_matched_text() {
    let l = lexer(&[("ID", r"^[a-z]+")]);
    let mut s = LexerStream::new(&l, "ab cd", None);
    s.update_pos(&"ab".to_owned(), " cd".to_owned());
    let t = s.next_token().unwrap().unwrap();
    assert_eq!(t.symbol, "cd");
    assert_eq!((t.loc.start, t.loc.end), (pos(2, 1, 3), pos(5, 1, 6)));
    assert!(s.next_token().is_none());
    assert!(s.next_token().is_none());
}
