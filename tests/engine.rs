use ecma_reduce::grammar::{find_rule, Children, Goal, Kind, Production};
use ecma_reduce::lexer::{scan_token, skip_blank, Keyword, LexicalError, Punct, Span, Token};
use ecma_reduce::parser::{parse, parse_traced, reduce_once, Outcome, Symbol};
use ecma_reduce::stream_parser::{self, parse_events, ParseEvent};

fn units(s: &str) -> Vec<u16> {
    s.encode_utf16().collect()
}

fn trace(s: &str, goal: Goal) -> (Vec<Production>, Outcome) {
    let mut t = Vec::new();
    let r = parse_traced(&units(s), goal, &mut t);
    (t, r)
}

fn sp(start: usize, end: usize) -> Span {
    Span { start, end }
}

fn tok(t: Token, start: usize, end: usize) -> Symbol {
    Symbol::Terminal(t, sp(start, end))
}

fn punct(p: Punct, start: usize, end: usize) -> Symbol {
    tok(Token::Punct(p), start, end)
}

fn ch(first: usize, count: usize) -> Children {
    Children { first, count }
}

fn drained(mut stack: Vec<Symbol>, next: Symbol) -> Vec<Symbol> {
    loop {
        match reduce_once(stack, next) {
            Ok(next) => stack = next,
            Err(same) => return same,
        }
    }
}

#[test]
fn empty_stack_is_handed_back() {
    assert!(reduce_once(Vec::new(), Symbol::Eof) == Err(Vec::new()));
}

#[test]
fn empty_stack_gives_no_rule_match() {
    assert!(
        stream_parser::reduce_once(Vec::new(), Symbol::Eof) == (ParseEvent::NoRuleMatch, Vec::new())
    );
}

#[test]
fn no_match_leaves_stack_unchanged() {
    let stack = vec![
        Symbol::Start(Goal::Script),
        tok(Token::Number, 0, 1),
        punct(Punct::Plus, 1, 2),
    ];
    let copy = stack.clone();
    assert_eq!(reduce_once(stack, punct(Punct::Semicolon, 2, 3)), Err(copy));
}

#[test]
fn reduce_once_is_repeatable() {
    let stack = vec![
        Symbol::Start(Goal::Script),
        tok(Token::Number, 0, 1),
        punct(Punct::Semicolon, 1, 2),
    ];
    let first = reduce_once(stack.clone(), Symbol::Eof);
    let second = reduce_once(stack, Symbol::Eof);
    assert_eq!(first, second);
    assert_eq!(
        first,
        Ok(vec![
            Symbol::Start(Goal::Script),
            Symbol::Nonterminal(Kind::ExpressionStatement, sp(0, 2), ch(1, 2))
        ])
    );
}

#[test]
fn reductions_stay_within_length_bound() {
    let mut stack = vec![
        Symbol::Start(Goal::Script),
        tok(Token::Number, 0, 1),
        punct(Punct::Plus, 1, 2),
        tok(Token::Number, 2, 3),
        punct(Punct::Star, 3, 4),
        tok(Token::Number, 4, 5),
    ];
    let n = stack.len();
    let next = punct(Punct::Semicolon, 5, 6);
    let mut count = 0;
    loop {
        match reduce_once(stack, next) {
            Ok(after) => {
                count += 1;
                stack = after;
            }
            Err(same) => {
                stack = same;
                break;
            }
        }
    }
    assert_eq!(count, 2);
    assert!(count <= n - 1);
    assert_eq!(
        stack,
        vec![Symbol::Start(Goal::Script), Symbol::Nonterminal(Kind::Expression, sp(0, 5), ch(1, 3))]
    );
}

#[test]
fn stream_protocol_reports_each_step() {
    let stack = vec![
        Symbol::Start(Goal::Module),
        tok(Token::Number, 0, 1),
        punct(Punct::Semicolon, 1, 2),
    ];
    let (e1, s1) = stream_parser::reduce_once(stack, Symbol::Eof);
    assert_eq!(e1, ParseEvent::Reduced(Production::ExpressionStatement));
    let (e2, mut s2) = stream_parser::reduce_once(s1, Symbol::Eof);
    assert_eq!(e2, ParseEvent::NoRuleMatch);
    s2.push(Symbol::Eof);
    let (e3, s3) = stream_parser::reduce_once(s2, Symbol::Eof);
    assert_eq!(e3, ParseEvent::Reduced(Production::Module));
    assert_eq!(s3, vec![Symbol::Nonterminal(Kind::Module, sp(0, 2), ch(0, 3))]);
    let (e4, s4) = stream_parser::reduce_once(s3, Symbol::Eof);
    assert_eq!(e4, ParseEvent::Accepted(Goal::Module));
    assert_eq!(s4.len(), 1);
}

#[test]
fn stream_protocol_reports_error_after_end() {
    let stack = vec![Symbol::Start(Goal::Script), punct(Punct::Plus, 0, 1), Symbol::Eof];
    let (e, s) = stream_parser::reduce_once(stack.clone(), Symbol::Eof);
    assert_eq!(e, ParseEvent::Error);
    assert_eq!(s, stack);
}

#[test]
fn events_follow_every_reduction() {
    assert_eq!(
        parse_events(&units("1+1"), Goal::Script),
        vec![
            ParseEvent::Reduced(Production::Binary),
            ParseEvent::Reduced(Production::ExpressionStatement),
            ParseEvent::Reduced(Production::Script),
            ParseEvent::Accepted(Goal::Script),
        ]
    );
}

#[test]
fn one_plus_one_is_accepted_as_script() {
    assert_eq!(parse(&units("1+1"), Goal::Script), Outcome::Accepted(Goal::Script));
    let events = parse_events(&units("1+1"), Goal::Script);
    assert_eq!(events.last(), Some(&ParseEvent::Accepted(Goal::Script)));
}

#[test]
fn dangling_plus_is_rejected_with_it_on_the_stack() {
    match parse(&units("1+"), Goal::Script) {
        Outcome::SyntaxError(at, stack) => {
            assert_eq!(at, 2);
            assert!(stack.contains(&punct(Punct::Plus, 1, 2)));
            assert_eq!(stack.last(), Some(&Symbol::Eof));
        }
        other => panic!("unexpected {:?}", other),
    }
    let events = parse_events(&units("1+"), Goal::Script);
    assert_eq!(events.last(), Some(&ParseEvent::Error));
}

#[test]
fn slash_at_line_start_opens_regex() {
    let (t, r) = trace("a=1\n/b/g.exec(a)", Goal::Script);
    assert_eq!(r, Outcome::Accepted(Goal::Script));
    assert_eq!(
        t,
        vec![
            Production::Assignment,
            Production::ExpressionStatement,
            Production::MemberAccess,
            Production::Call,
            Production::ExpressionStatement,
            Production::StatementList,
            Production::Script,
        ]
    );
}

#[test]
fn slash_after_operand_divides() {
    let (t, r) = trace("a=1/b/g", Goal::Script);
    assert_eq!(r, Outcome::Accepted(Goal::Script));
    assert_eq!(
        t,
        vec![
            Production::Binary,
            Production::Binary,
            Production::Assignment,
            Production::ExpressionStatement,
            Production::Script,
        ]
    );
}

#[test]
fn return_at_line_end_takes_a_semicolon() {
    let (t, r) = trace("return\na", Goal::Script);
    assert_eq!(r, Outcome::Accepted(Goal::Script));
    assert_eq!(
        t,
        vec![
            Production::ReturnStatement,
            Production::ExpressionStatement,
            Production::StatementList,
            Production::Script,
        ]
    );
}

#[test]
fn return_on_one_line_takes_its_value() {
    let (t, r) = trace("return a", Goal::Script);
    assert_eq!(r, Outcome::Accepted(Goal::Script));
    assert_eq!(t, vec![Production::ReturnStatement, Production::Script]);
}

#[test]
fn arrow_resolves_cover_as_parameters() {
    let (t, r) = trace("(a,b)=>a+b", Goal::Script);
    assert_eq!(r, Outcome::Accepted(Goal::Script));
    assert_eq!(
        t,
        vec![
            Production::NameList,
            Production::CoverParenthesized,
            Production::ArrowParameters,
            Production::Binary,
            Production::ArrowFunction,
            Production::ExpressionStatement,
            Production::Script,
        ]
    );
}

#[test]
fn lone_cover_resolves_as_parenthesized_expression() {
    let (t, r) = trace("(a,b)", Goal::Script);
    assert_eq!(r, Outcome::Accepted(Goal::Script));
    assert_eq!(
        t,
        vec![
            Production::NameList,
            Production::CoverParenthesized,
            Production::ParenthesizedExpression,
            Production::ExpressionStatement,
            Production::Script,
        ]
    );
}

#[test]
fn cover_symbol_is_provisional_until_lookahead() {
    let stack = vec![
        Symbol::Start(Goal::Script),
        punct(Punct::LParen, 0, 1),
        tok(Token::Identifier, 1, 2),
        punct(Punct::Comma, 2, 3),
        tok(Token::Identifier, 3, 4),
    ];
    let mut listed = drained(stack, punct(Punct::RParen, 4, 5));
    assert_eq!(listed[2], Symbol::Nonterminal(Kind::NameList, sp(1, 4), ch(2, 3)));
    listed.push(punct(Punct::RParen, 4, 5));
    let cover = Symbol::Provisional(
        Kind::ParenthesizedExpression,
        Kind::ArrowFormalParameters,
        sp(0, 5),
        ch(1, 3),
    );
    let covered = reduce_once(listed.clone(), punct(Punct::Arrow, 5, 7)).unwrap();
    assert_eq!(covered, vec![Symbol::Start(Goal::Script), cover]);
    assert_eq!(
        reduce_once(covered.clone(), punct(Punct::Arrow, 5, 7)),
        Ok(vec![
            Symbol::Start(Goal::Script),
            Symbol::Nonterminal(Kind::ArrowFormalParameters, sp(0, 5), ch(1, 1))
        ])
    );
    assert_eq!(
        reduce_once(covered, punct(Punct::Semicolon, 5, 6)),
        Ok(vec![
            Symbol::Start(Goal::Script),
            Symbol::Nonterminal(Kind::ParenthesizedExpression, sp(0, 5), ch(1, 1))
        ])
    );
}

#[test]
fn reduced_symbols_cover_their_source() {
    let stack = vec![
        Symbol::Start(Goal::Script),
        tok(Token::Identifier, 0, 1),
        punct(Punct::Dot, 1, 2),
        tok(Token::Identifier, 2, 5),
    ];
    assert_eq!(
        reduce_once(stack, Symbol::Eof),
        Ok(vec![
            Symbol::Start(Goal::Script),
            Symbol::Nonterminal(Kind::Expression, sp(0, 5), ch(1, 3))
        ])
    );
}

#[test]
fn line_break_before_block_takes_a_semicolon() {
    let (t, r) = trace("a\n{ b }", Goal::Script);
    assert_eq!(r, Outcome::Accepted(Goal::Script));
    assert_eq!(
        t,
        vec![
            Production::ExpressionStatement,
            Production::ExpressionStatement,
            Production::Block,
            Production::StatementList,
            Production::Script,
        ]
    );
}

#[test]
fn export_default_needs_module_goal() {
    assert_eq!(
        parse(&units("export default 1;"), Goal::Module),
        Outcome::Accepted(Goal::Module)
    );
    assert!(matches!(
        parse(&units("export default 1;"), Goal::Script),
        Outcome::SyntaxError(..)
    ));
    let events = parse_events(&units("export default 1;"), Goal::Script);
    assert_eq!(events, vec![ParseEvent::Error]);
}

#[test]
fn plain_script_is_a_module_too() {
    assert_eq!(parse(&units("1+1"), Goal::Module), Outcome::Accepted(Goal::Module));
}

#[test]
fn empty_input_is_accepted() {
    assert_eq!(parse(&units(""), Goal::Script), Outcome::Accepted(Goal::Script));
    assert_eq!(parse(&units(" \n "), Goal::Module), Outcome::Accepted(Goal::Module));
}

#[test]
fn precedence_and_calls() {
    let (t, r) = trace("x = f(1, 2) * 3 - y.z;", Goal::Script);
    assert_eq!(r, Outcome::Accepted(Goal::Script));
    assert_eq!(
        t,
        vec![
            Production::Comma,
            Production::Call,
            Production::Binary,
            Production::MemberAccess,
            Production::Binary,
            Production::Assignment,
            Production::ExpressionStatement,
            Production::Script,
        ]
    );
}

#[test]
fn unknown_unit_is_a_lexical_error() {
    assert_eq!(
        parse(&units("a # b"), Goal::Script),
        Outcome::LexicalError(LexicalError::UnexpectedUnit, 2)
    );
}

#[test]
fn unterminated_regex_is_a_lexical_error() {
    assert_eq!(
        parse(&units("/abc\n/"), Goal::Script),
        Outcome::LexicalError(LexicalError::UnterminatedRegex, 0)
    );
}

#[test]
fn scanner_classifies_tokens() {
    let u = units("return1 return default => = / /x/gi 42;");
    assert_eq!(scan_token(&u, 0, false), Ok((Token::Identifier, 7)));
    assert_eq!(scan_token(&u, 8, false), Ok((Token::Keyword(Keyword::Return), 14)));
    assert_eq!(scan_token(&u, 15, false), Ok((Token::Keyword(Keyword::Default), 22)));
    assert_eq!(scan_token(&u, 23, false), Ok((Token::Punct(Punct::Arrow), 25)));
    assert_eq!(scan_token(&u, 26, false), Ok((Token::Punct(Punct::Assign), 27)));
    assert_eq!(scan_token(&u, 28, false), Ok((Token::Punct(Punct::Slash), 29)));
    assert_eq!(scan_token(&u, 30, true), Ok((Token::Regex, 35)));
    assert_eq!(scan_token(&u, 36, false), Ok((Token::Number, 38)));
    assert_eq!(scan_token(&u, 38, false), Ok((Token::Punct(Punct::Semicolon), 39)));
}

#[test]
fn blank_skipping_reports_line_terminators() {
    let u = units("a  \t b\n\r c");
    assert_eq!(skip_blank(&u, 1), (5, false));
    assert_eq!(skip_blank(&u, 6), (9, true));
    assert_eq!(skip_blank(&u, 10), (10, false));
}

#[test]
fn table_lookup_picks_longest_rule() {
    let stack = vec![
        Symbol::Start(Goal::Module),
        tok(Token::Keyword(Keyword::Export), 0, 6),
        tok(Token::Keyword(Keyword::Default), 7, 14),
        tok(Token::Number, 15, 16),
        punct(Punct::Semicolon, 16, 17),
    ];
    let r = find_rule(&stack, Symbol::Eof).unwrap();
    assert_eq!(r.production, Production::ExportDefault);
    assert_eq!(r.start, 1);
    assert_eq!(r.result, Symbol::Nonterminal(Kind::ExportDeclaration, sp(0, 17), ch(1, 4)));
}

#[test]
fn block_closes_open_statement() {
    let (t, r) = trace("{ a }", Goal::Script);
    assert_eq!(r, Outcome::Accepted(Goal::Script));
    assert_eq!(t, vec![Production::ExpressionStatement, Production::Block, Production::Script]);
}

#[test]
fn arrow_with_block_body() {
    let (t, r) = trace("f = (a) => { return a }", Goal::Script);
    assert_eq!(r, Outcome::Accepted(Goal::Script));
    assert_eq!(
        t,
        vec![
            Production::CoverParenthesized,
            Production::ArrowParameters,
            Production::ReturnStatement,
            Production::Block,
            Production::ArrowFunction,
            Production::Assignment,
            Production::ExpressionStatement,
            Production::Script,
        ]
    );
}

#[test]
fn empty_block_and_statement_list() {
    let (t, r) = trace("{}\n{ }", Goal::Module);
    assert_eq!(r, Outcome::Accepted(Goal::Module));
    assert_eq!(
        t,
        vec![Production::Block, Production::Block, Production::StatementList, Production::Module]
    );
}

#[test]
fn unclosed_block_is_rejected() {
    assert!(matches!(parse(&units("{ 1 + 2"), Goal::Script), Outcome::SyntaxError(..)));
    assert!(matches!(parse(&units("1 + }"), Goal::Script), Outcome::SyntaxError(..)));
}

#[test]
fn template_with_substitutions() {
    let (t, r) = trace("`a${1+2}b${x}c`", Goal::Script);
    assert_eq!(r, Outcome::Accepted(Goal::Script));
    assert_eq!(
        t,
        vec![
            Production::Binary,
            Production::TemplateSpan,
            Production::TemplateLiteral,
            Production::ExpressionStatement,
            Production::Script,
        ]
    );
}

#[test]
fn nested_templates() {
    let (t, r) = trace("`${ `${a}` }`", Goal::Script);
    assert_eq!(r, Outcome::Accepted(Goal::Script));
    assert_eq!(
        t,
        vec![
            Production::TemplateLiteral,
            Production::TemplateLiteral,
            Production::ExpressionStatement,
            Production::Script,
        ]
    );
}

#[test]
fn braces_inside_substitution_do_not_close_it() {
    let (t, r) = trace("`${ (() => { return 1 })() }`", Goal::Script);
    assert_eq!(r, Outcome::Accepted(Goal::Script));
    assert_eq!(t.iter().filter(|p| **p == Production::TemplateLiteral).count(), 1);
    assert!(t.contains(&Production::Block));
}

#[test]
fn plain_template_is_an_operand() {
    let (t, r) = trace("x = `plain` + `\\`q`", Goal::Script);
    assert_eq!(r, Outcome::Accepted(Goal::Script));
    assert_eq!(
        t,
        vec![
            Production::Binary,
            Production::Assignment,
            Production::ExpressionStatement,
            Production::Script,
        ]
    );
}

#[test]
fn unterminated_template_is_a_lexical_error() {
    assert_eq!(
        parse(&units("a;\n`abc${1}"), Goal::Script),
        Outcome::LexicalError(LexicalError::UnterminatedTemplate, 10)
    );
}

#[test]
fn legacy_octal_is_tagged() {
    let u = units("017 0 0.5 12.25 7.x");
    assert_eq!(scan_token(&u, 0, false), Ok((Token::LegacyOctalNumber, 3)));
    assert_eq!(scan_token(&u, 4, false), Ok((Token::Number, 5)));
    assert_eq!(scan_token(&u, 6, false), Ok((Token::Number, 9)));
    assert_eq!(scan_token(&u, 10, false), Ok((Token::Number, 15)));
    assert_eq!(scan_token(&u, 16, false), Ok((Token::Number, 17)));
}

#[test]
fn legacy_octal_only_in_sloppy_code() {
    assert_eq!(parse(&units("x = 017 + 1.5"), Goal::Script), Outcome::Accepted(Goal::Script));
    assert!(matches!(parse(&units("x = 017 + 1.5"), Goal::Module), Outcome::SyntaxError(..)));
    assert_eq!(parse(&units("x = 0 + 1.5"), Goal::Module), Outcome::Accepted(Goal::Module));
}

#[test]
fn empty_statements_are_absorbed() {
    let (t, r) = trace("a;;", Goal::Script);
    assert_eq!(r, Outcome::Accepted(Goal::Script));
    assert_eq!(
        t,
        vec![
            Production::ExpressionStatement,
            Production::EmptyStatement,
            Production::StatementList,
            Production::Script,
        ]
    );
    let (t, r) = trace(";{;}", Goal::Module);
    assert_eq!(r, Outcome::Accepted(Goal::Module));
    assert_eq!(
        t,
        vec![
            Production::EmptyStatement,
            Production::EmptyStatement,
            Production::Block,
            Production::StatementList,
            Production::Module,
        ]
    );
}

#[test]
fn longer_rule_wins_over_cover() {
    let stack = vec![
        Symbol::Start(Goal::Script),
        tok(Token::Identifier, 0, 1),
        punct(Punct::LParen, 1, 2),
        tok(Token::Identifier, 2, 3),
        punct(Punct::RParen, 3, 4),
    ];
    let r = find_rule(&stack, Symbol::Eof).unwrap();
    assert_eq!(r.production, Production::Call);
    assert_eq!(r.start, 1);
    assert_eq!(r.result, Symbol::Nonterminal(Kind::Expression, sp(0, 4), ch(1, 4)));
}

#[test]
fn span_is_union_of_replaced_sources() {
    let stack = vec![
        Symbol::Start(Goal::Script),
        tok(Token::Number, 5, 6),
        punct(Punct::Plus, 6, 7),
        tok(Token::Number, 0, 1),
    ];
    assert_eq!(
        reduce_once(stack, Symbol::Eof),
        Ok(vec![
            Symbol::Start(Goal::Script),
            Symbol::Nonterminal(Kind::Expression, sp(0, 7), ch(1, 3))
        ])
    );
}

#[test]
fn goal_span_leaves_markers_out() {
    let stack = vec![
        Symbol::Start(Goal::Script),
        Symbol::Nonterminal(Kind::ExpressionStatement, sp(2, 4), ch(1, 2)),
        Symbol::Eof,
    ];
    assert_eq!(
        reduce_once(stack, Symbol::Eof),
        Ok(vec![Symbol::Nonterminal(Kind::Script, sp(2, 4), ch(0, 3))])
    );
}

#[test]
fn stack_without_start_marker_does_not_reduce() {
    let cover = vec![Symbol::Provisional(
        Kind::ParenthesizedExpression,
        Kind::ArrowFormalParameters,
        sp(0, 5),
        ch(1, 3),
    )];
    assert_eq!(reduce_once(cover.clone(), Symbol::Eof), Err(cover));
    let statement = vec![
        Symbol::Nonterminal(Kind::ExpressionStatement, sp(0, 2), ch(1, 2)),
        punct(Punct::Semicolon, 2, 3),
    ];
    assert_eq!(reduce_once(statement.clone(), Symbol::Eof), Err(statement));
}
