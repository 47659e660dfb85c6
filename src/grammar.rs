//! The grammar table: which reduction applies to the top of a symbol stack.
use vstd::prelude::*;
use crate::lexer::{Keyword, Punct, Span, Token};
use crate::parser::Symbol;

verus! {

/// The goal symbol that a complete parse must reduce to.
#[derive(Clone, Copy, Debug, PartialEq, Eq, Structural)]
pub enum Goal {
    Script,
    Module,
}

/// Grammar categories of reduced symbols.
#[derive(Clone, Copy, Debug, PartialEq, Eq, Structural)]
pub enum Kind {
    Expression,
    ParenthesizedExpression,
    ArrowFormalParameters,
    /// A parenthesised list of names, before it is known to be a comma
    /// expression or formal parameters.
    NameList,
    ExpressionStatement,
    ReturnStatement,
    ExportDeclaration,
    EmptyStatement,
    Block,
    /// A template literal whose last substitution is not yet closed.
    TemplateSpans,
    StatementList,
    Script,
    Module,
}

/// The grammar productions, each the name of one reduction rule.
#[derive(Clone, Copy, Debug, PartialEq, Eq, Structural)]
pub enum Production {
    MemberAccess,
    Call,
    Binary,
    Assignment,
    Comma,
    NameList,
    CoverParenthesized,
    ParenthesizedExpression,
    ArrowParameters,
    ArrowFunction,
    ExpressionStatement,
    ReturnStatement,
    ExportDefault,
    EmptyStatement,
    Block,
    TemplateSpan,
    TemplateLiteral,
    StatementList,
    Script,
    Module,
}

/// The symbols that a reduction replaced: the `count` stack positions from
/// `first` on, as they stood when it was applied.
#[derive(Clone, Copy, Debug, PartialEq, Eq, Structural)]
pub struct Children {
    pub first: usize,
    pub count: usize,
}

/// One reduction: the symbols from `start` up to the top are replaced by
/// `result`.
#[derive(Clone, Copy, Debug, PartialEq, Eq, Structural)]
pub struct Reduction {
    pub production: Production,
    pub start: usize,
    pub result: Symbol,
}

pub open spec fn goal_kind(g: Goal) -> Kind {
    match g {
        Goal::Script => Kind::Script,
        Goal::Module => Kind::Module,
    }
}

pub open spec fn goal_production(g: Goal) -> Production {
    match g {
        Goal::Script => Production::Script,
        Goal::Module => Production::Module,
    }
}

pub open spec fn is_token(x: Symbol, t: Token) -> bool {
    x is Terminal && x->Terminal_0 == t
}

pub open spec fn is_punct(x: Symbol, p: Punct) -> bool {
    is_token(x, Token::Punct(p))
}

pub open spec fn is_keyword(x: Symbol, k: Keyword) -> bool {
    is_token(x, Token::Keyword(k))
}

pub open spec fn is_kind(x: Symbol, k: Kind) -> bool {
    x is Nonterminal && x->Nonterminal_0 == k
}

/// A complete operand of an operator: a primary token or a reduced expression.
pub open spec fn is_operand(x: Symbol) -> bool {
    match x {
        Symbol::Terminal(Token::Identifier, _) => true,
        Symbol::Terminal(Token::Number, _) => true,
        Symbol::Terminal(Token::LegacyOctalNumber, _) => true,
        Symbol::Terminal(Token::Regex, _) => true,
        Symbol::Terminal(Token::NoSubstitutionTemplate, _) => true,
        Symbol::Nonterminal(Kind::Expression, _, _) => true,
        Symbol::Nonterminal(Kind::ParenthesizedExpression, _, _) => true,
        _ => false,
    }
}

/// A template literal waiting for the expression of a substitution.
pub open spec fn is_template_open(x: Symbol) -> bool {
    is_token(x, Token::TemplateHead) || is_kind(x, Kind::TemplateSpans)
}

/// An operand under the goal's mode: strict code, which the `Module` goal
/// always is, has no legacy octal-like numbers.
pub open spec fn is_operand_in(strict: bool, x: Symbol) -> bool {
    is_operand(x) && !(strict && is_token(x, Token::LegacyOctalNumber))
}

/// What may stand between parentheses, or left of a comma, under the goal's
/// mode.
pub open spec fn is_argument_in(strict: bool, x: Symbol) -> bool {
    is_operand_in(strict, x) || is_kind(x, Kind::NameList)
}

/// The cover symbol: a parenthesised list of names, read either as a
/// parenthesised expression or as arrow-function parameters.
pub open spec fn is_cover(x: Symbol) -> bool {
    x is Provisional && x->Provisional_0 == Kind::ParenthesizedExpression && x->Provisional_1
        == Kind::ArrowFormalParameters
}

/// What may stand between the parentheses of a cover symbol.
pub open spec fn is_name_list(x: Symbol) -> bool {
    is_token(x, Token::Identifier) || is_kind(x, Kind::NameList)
}

/// What may stand before the `=>` of an arrow function.
pub open spec fn is_arrow_head(x: Symbol) -> bool {
    is_token(x, Token::Identifier) || is_kind(x, Kind::ArrowFormalParameters)
}

pub open spec fn is_statement(x: Symbol) -> bool {
    is_kind(x, Kind::ExpressionStatement) || is_kind(x, Kind::ReturnStatement) || is_kind(
        x,
        Kind::ExportDeclaration,
    ) || is_kind(x, Kind::EmptyStatement) || is_kind(x, Kind::Block)
}

pub open spec fn is_statements(x: Symbol) -> bool {
    is_statement(x) || is_kind(x, Kind::StatementList)
}

/// A symbol after which a new statement may begin.
pub open spec fn is_statement_context(x: Symbol) -> bool {
    x is Start || is_statements(x) || is_punct(x, Punct::LBrace)
}

/// Binding strength of a binary operator; zero for anything else.
pub open spec fn binary_prec(p: Punct) -> u8 {
    match p {
        Punct::Plus => 4,
        Punct::Minus => 4,
        Punct::Star => 5,
        Punct::Slash => 5,
        _ => 0,
    }
}

/// Binding strength of the next symbol: an operand before it is claimed by
/// an operator of at least this strength only.
pub open spec fn lookahead_prec(x: Symbol) -> u8 {
    match x {
        Symbol::Terminal(Token::Punct(p), _) => match p {
            Punct::Comma => 1,
            Punct::Assign => 2,
            Punct::Dot => 10,
            Punct::LParen => 10,
            Punct::Arrow => 10,
            _ => binary_prec(p),
        },
        _ => 0,
    }
}

/// The stack was opened for the `Module` goal.
pub open spec fn module_goal(s: Seq<Symbol>) -> bool {
    s.len() > 0 && s[0] == Symbol::Start(Goal::Module)
}

/// The source range of a symbol; the markers cover nothing.
pub open spec fn span_of(x: Symbol) -> Span {
    match x {
        Symbol::Terminal(_, sp) => sp,
        Symbol::Nonterminal(_, sp, _) => sp,
        Symbol::Provisional(_, _, sp, _) => sp,
        _ => Span { start: 0, end: 0 },
    }
}

/// The symbols that a nonterminal or cover symbol replaced.
pub open spec fn children_of(x: Symbol) -> Children {
    match x {
        Symbol::Nonterminal(_, _, c) => c,
        Symbol::Provisional(_, _, _, c) => c,
        _ => Children { first: 0, count: 0 },
    }
}

/// The source range of a symbol that covers source; the markers cover none.
pub open spec fn source_of(x: Symbol) -> Option<Span> {
    match x {
        Symbol::Terminal(_, sp) => Some(sp),
        Symbol::Nonterminal(_, sp, _) => Some(sp),
        Symbol::Provisional(_, _, sp, _) => Some(sp),
        _ => None,
    }
}

/// The smallest range holding both ranges, where there are any.
pub open spec fn join(a: Option<Span>, b: Option<Span>) -> Option<Span> {
    match (a, b) {
        (None, _) => b,
        (Some(x), None) => a,
        (Some(x), Some(y)) => Some(
            Span {
                start: if x.start <= y.start {
                    x.start
                } else {
                    y.start
                },
                end: if x.end >= y.end {
                    x.end
                } else {
                    y.end
                },
            },
        ),
    }
}

/// The smallest range holding the source of every symbol of `s` from `i` up
/// to `end`, where any of them covers source.
pub open spec fn hull(s: Seq<Symbol>, i: int, end: int) -> Option<Span>
    decreases end - i,
{
    if i >= end {
        None
    } else {
        join(source_of(s[i]), hull(s, i + 1, end))
    }
}

/// The span of the symbol that replaces the symbols of `s` from `first` up
/// to `end`: the union of their source ranges, the markers left out; an
/// empty range at 0 where none covers source.
pub open spec fn covering(s: Seq<Symbol>, first: int, end: int) -> Span {
    match hull(s, first, end) {
        Some(sp) => sp,
        None => Span { start: 0, end: 0 },
    }
}

/// The symbols of `s` from `start` up to the top.
pub open spec fn children_from(s: Seq<Symbol>, start: int) -> Children {
    Children { first: start as usize, count: (s.len() - start) as usize }
}

/// The reduction of `s` from `start` up to the top into a nonterminal of
/// kind `k`, which covers the symbols it replaces.
pub open spec fn node(s: Seq<Symbol>, p: Production, start: int, k: Kind) -> Option<Reduction> {
    Some(
        Reduction {
            production: p,
            start: start as usize,
            result: Symbol::Nonterminal(
                k,
                covering(s, start, s.len() as int),
                children_from(s, start),
            ),
        },
    )
}

/// The reduction of a finished stack to its goal.
pub open spec fn goal_node(s: Seq<Symbol>, g: Goal, start: int) -> Option<Reduction> {
    Some(
        Reduction {
            production: goal_production(g),
            start: start as usize,
            result: Symbol::Nonterminal(
                goal_kind(g),
                covering(s, start, s.len() as int),
                children_from(s, start),
            ),
        },
    )
}

/// The number of rules in the grammar table.
pub open spec fn rule_total() -> int {
    25
}

/// Rule `i` of the grammar table, in priority order: the reduction that it
/// makes of stack `s` with `next` to follow, where its pattern matches and
/// its predicate holds. Every rule asks for the start marker at the bottom,
/// and the goal rules consume the whole stack.
pub open spec fn candidate(i: int, s: Seq<Symbol>, next: Symbol) -> Option<Reduction> {
    if s.len() == 0 || !(s[0] is Start) {
        None
    } else if 0 <= i < 6 {
        rules_0(i, s, next)
    } else if 6 <= i < 12 {
        rules_1(i, s, next)
    } else if 12 <= i < 18 {
        rules_2(i, s, next)
    } else if 18 <= i < 25 {
        rules_3(i, s, next)
    } else {
        None
    }
}

/// Rules 0 to 5 of the grammar table.
#[verifier::opaque]
pub open spec fn rules_0(i: int, s: Seq<Symbol>, next: Symbol) -> Option<Reduction> {
    let n = s.len() as int;
    let top = s[n - 1];
    let strict = module_goal(s);
    if n == 0 {
        None
    } else if i == 0 {
        if top == Symbol::Eof && n == 2 && s[n - 2] is Start {
            goal_node(s, s[n - 2]->Start_0, n - 2)
        } else {
            None
        }
    } else if i == 1 {
        if top == Symbol::Eof && n == 3 && s[n - 3] is Start && is_statements(s[n - 2]) {
            goal_node(s, s[n - 3]->Start_0, n - 3)
        } else {
            None
        }
    } else if i == 2 {
        if is_cover(top) && is_punct(next, Punct::Arrow) {
            node(s, Production::ArrowParameters, n - 1, Kind::ArrowFormalParameters)
        } else {
            None
        }
    } else if i == 3 {
        if is_cover(top) && !is_punct(next, Punct::Arrow) {
            node(s, Production::ParenthesizedExpression, n - 1, Kind::ParenthesizedExpression)
        } else {
            None
        }
    } else if i == 4 {
        if n >= 4
            && is_operand_in(strict, s[n - 4])
            && is_punct(s[n - 3], Punct::LParen)
            && is_argument_in(strict, s[n - 2])
            && is_punct(top, Punct::RParen) {
            node(s, Production::Call, n - 4, Kind::Expression)
        } else {
            None
        }
    } else if i == 5 {
        if n >= 3
            && is_operand_in(strict, s[n - 3])
            && is_punct(s[n - 2], Punct::LParen)
            && is_punct(top, Punct::RParen) {
            node(s, Production::Call, n - 3, Kind::Expression)
        } else {
            None
        }
    } else {
        None
    }
}

/// Rules 6 to 11 of the grammar table.
#[verifier::opaque]
pub open spec fn rules_1(i: int, s: Seq<Symbol>, next: Symbol) -> Option<Reduction> {
    let n = s.len() as int;
    let top = s[n - 1];
    let strict = module_goal(s);
    if n == 0 {
        None
    } else if i == 6 {
        if n >= 3
            && is_punct(s[n - 3], Punct::LParen)
            && is_name_list(s[n - 2])
            && is_punct(top, Punct::RParen) {
            Some(
                Reduction {
                    production: Production::CoverParenthesized,
                    start: (n - 3) as usize,
                    result: Symbol::Provisional(
                        Kind::ParenthesizedExpression,
                        Kind::ArrowFormalParameters,
                        covering(s, n - 3, n),
                        children_from(s, n - 3),
                    ),
                },
            )
        } else {
            None
        }
    } else if i == 7 {
        if n >= 3
            && is_punct(s[n - 3], Punct::LParen)
            && is_argument_in(strict, s[n - 2])
            && is_punct(top, Punct::RParen) {
            node(s, Production::ParenthesizedExpression, n - 3, Kind::ParenthesizedExpression)
        } else {
            None
        }
    } else if i == 8 {
        if n >= 2
            && is_punct(s[n - 2], Punct::LParen)
            && is_punct(top, Punct::RParen)
            && is_punct(next, Punct::Arrow) {
            node(s, Production::ArrowParameters, n - 2, Kind::ArrowFormalParameters)
        } else {
            None
        }
    } else if i == 9 {
        if n >= 3
            && is_operand_in(strict, s[n - 3])
            && is_punct(s[n - 2], Punct::Dot)
            && is_token(top, Token::Identifier) {
            node(s, Production::MemberAccess, n - 3, Kind::Expression)
        } else {
            None
        }
    } else if i == 10 {
        if n >= 3
            && is_template_open(s[n - 3])
            && is_operand_in(strict, s[n - 2])
            && is_token(top, Token::TemplateMiddle) {
            node(s, Production::TemplateSpan, n - 3, Kind::TemplateSpans)
        } else {
            None
        }
    } else if i == 11 {
        if n >= 3
            && is_template_open(s[n - 3])
            && is_operand_in(strict, s[n - 2])
            && is_token(top, Token::TemplateTail) {
            node(s, Production::TemplateLiteral, n - 3, Kind::Expression)
        } else {
            None
        }
    } else {
        None
    }
}

/// Rules 12 to 17 of the grammar table.
#[verifier::opaque]
pub open spec fn rules_2(i: int, s: Seq<Symbol>, next: Symbol) -> Option<Reduction> {
    let n = s.len() as int;
    let top = s[n - 1];
    let strict = module_goal(s);
    if n == 0 {
        None
    } else if i == 12 {
        if n >= 4
            && is_punct(s[n - 4], Punct::LParen)
            && is_name_list(s[n - 3])
            && is_punct(s[n - 2], Punct::Comma)
            && is_token(top, Token::Identifier)
            && (is_punct(next, Punct::Comma) || is_punct(next, Punct::RParen)) {
            node(s, Production::NameList, n - 3, Kind::NameList)
        } else {
            None
        }
    } else if i == 13 {
        if n >= 3
            && is_argument_in(strict, s[n - 3])
            && is_punct(s[n - 2], Punct::Comma)
            && is_operand_in(strict, top)
            && lookahead_prec(next) <= 1 {
            node(s, Production::Comma, n - 3, Kind::Expression)
        } else {
            None
        }
    } else if i == 14 {
        if n >= 3
            && is_operand_in(strict, s[n - 3])
            && s[n - 2] is Terminal
            && s[n - 2]->Terminal_0 is Punct
            && binary_prec(s[n - 2]->Terminal_0->Punct_0) > 0
            && is_operand_in(strict, top)
            && lookahead_prec(next) <= binary_prec(s[n - 2]->Terminal_0->Punct_0) {
            node(s, Production::Binary, n - 3, Kind::Expression)
        } else {
            None
        }
    } else if i == 15 {
        if n >= 3
            && is_operand_in(strict, s[n - 3])
            && is_punct(s[n - 2], Punct::Assign)
            && is_operand_in(strict, top)
            && lookahead_prec(next) < 2 {
            node(s, Production::Assignment, n - 3, Kind::Expression)
        } else {
            None
        }
    } else if i == 16 {
        if n >= 3
            && is_arrow_head(s[n - 3])
            && is_punct(s[n - 2], Punct::Arrow)
            && ((is_operand_in(strict, top) && lookahead_prec(next) < 2) || is_kind(
                top,
                Kind::Block,
            )) {
            node(s, Production::ArrowFunction, n - 3, Kind::Expression)
        } else {
            None
        }
    } else if i == 17 {
        if n >= 2 && is_punct(s[n - 2], Punct::LBrace) && is_punct(top, Punct::RBrace) {
            node(s, Production::Block, n - 2, Kind::Block)
        } else {
            None
        }
    } else {
        None
    }
}

/// Rules 18 to 24 of the grammar table.
#[verifier::opaque]
pub open spec fn rules_3(i: int, s: Seq<Symbol>, next: Symbol) -> Option<Reduction> {
    let n = s.len() as int;
    let top = s[n - 1];
    let strict = module_goal(s);
    if n == 0 {
        None
    } else if i == 18 {
        if n >= 3
            && is_punct(s[n - 3], Punct::LBrace)
            && is_statements(s[n - 2])
            && is_punct(top, Punct::RBrace) {
            node(s, Production::Block, n - 3, Kind::Block)
        } else {
            None
        }
    } else if i == 19 {
        if n >= 5
            && is_keyword(s[n - 4], Keyword::Export)
            && is_keyword(s[n - 3], Keyword::Default)
            && is_operand_in(strict, s[n - 2])
            && is_punct(top, Punct::Semicolon)
            && is_statement_context(s[n - 5])
            && strict {
            node(s, Production::ExportDefault, n - 4, Kind::ExportDeclaration)
        } else {
            None
        }
    } else if i == 20 {
        if n >= 4
            && is_keyword(s[n - 3], Keyword::Return)
            && is_operand_in(strict, s[n - 2])
            && is_punct(top, Punct::Semicolon)
            && is_statement_context(s[n - 4]) {
            node(s, Production::ReturnStatement, n - 3, Kind::ReturnStatement)
        } else {
            None
        }
    } else if i == 21 {
        if n >= 3
            && is_keyword(s[n - 2], Keyword::Return)
            && is_punct(top, Punct::Semicolon)
            && is_statement_context(s[n - 3]) {
            node(s, Production::ReturnStatement, n - 2, Kind::ReturnStatement)
        } else {
            None
        }
    } else if i == 22 {
        if n >= 3
            && is_statement_context(s[n - 3])
            && is_operand_in(strict, s[n - 2])
            && is_punct(top, Punct::Semicolon) {
            node(s, Production::ExpressionStatement, n - 2, Kind::ExpressionStatement)
        } else {
            None
        }
    } else if i == 23 {
        if n >= 2 && is_statement_context(s[n - 2]) && is_punct(top, Punct::Semicolon) {
            node(s, Production::EmptyStatement, n - 1, Kind::EmptyStatement)
        } else {
            None
        }
    } else if i == 24 {
        if n >= 2 && is_statements(s[n - 2]) && is_statement(top) {
            node(s, Production::StatementList, n - 2, Kind::StatementList)
        } else {
            None
        }
    } else {
        None
    }
}

/// The first rule from `i` on that matches.
pub open spec fn first_match(s: Seq<Symbol>, next: Symbol, i: int) -> Option<Reduction>
    decreases rule_total() - i,
{
    if i < 0 || i >= rule_total() {
        None
    } else {
        match candidate(i, s, next) {
            Some(r) => Some(r),
            None => first_match(s, next, i + 1),
        }
    }
}

/// The grammar table: the reduction that applies to stack `s` when `next`
/// is the symbol that will follow, if any: that of the first rule that
/// matches. `next` is only looked at, never taken.
pub open spec fn rule_for(s: Seq<Symbol>, next: Symbol) -> Option<Reduction> {
    first_match(s, next, 0)
}

/// The stack after reduction `r`: the symbols below `r.start`, then the
/// new symbol.
pub open spec fn apply(s: Seq<Symbol>, r: Reduction) -> Seq<Symbol> {
    s.subrange(0, r.start as int).push(r.result)
}

/// The stack after one step of the engine with `next` to follow, or `None`
/// where no rule applies.
pub open spec fn reduce_step(s: Seq<Symbol>, next: Symbol) -> Option<Seq<Symbol>> {
    match rule_for(s, next) {
        Some(r) => Some(apply(s, r)),
        None => None,
    }
}

/// A symbol that a reduction may replace by one symbol alone: the cover
/// symbol, re-tagged, or a `;` that becomes an empty statement.
pub open spec fn single_step_top(s: Seq<Symbol>) -> bool {
    s.len() > 0 && (is_cover(s.last()) || is_punct(s.last(), Punct::Semicolon))
}

/// The shape of a reduction `r` of `s`: it replaces the top `k >= 1`
/// symbols by one new nonterminal or cover symbol, whose span is the union
/// of theirs and whose children they are; `k == 1` only for a single-step
/// top, and then the new top is neither. The stack opens with the start
/// marker, which only a goal rule replaces, with end of input on top.
pub open spec fn shaped(s: Seq<Symbol>, r: Reduction) -> bool {
    &&& r.start < s.len()
    &&& s.len() >= 2 && s[0] is Start
    &&& s.last() == Symbol::Eof ==> r.start == 0
    &&& s.last() != Symbol::Eof ==> r.start >= 1
    &&& r.result is Nonterminal || r.result is Provisional
    &&& span_of(r.result) == covering(s, r.start as int, s.len() as int)
    &&& children_of(r.result) == children_from(s, r.start as int)
    &&& r.start + 1 == s.len() ==> single_step_top(s) && !single_step_top(apply(s, r))
    &&& single_step_top(apply(s, r)) ==> r.start + 3 <= s.len()
}

/// Every rule of the table makes a reduction of that shape.
proof fn lemma_candidate_shape(i: int, s: Seq<Symbol>, next: Symbol)
    requires
        candidate(i, s, next) is Some,
        s.len() <= usize::MAX,
    ensures
        shaped(s, candidate(i, s, next)->0),
{
    reveal(rules_0);
    reveal(rules_1);
    reveal(rules_2);
    reveal(rules_3);
}

/// The first match from `i` on is the reduction of one of those rules.
proof fn lemma_first_match(s: Seq<Symbol>, next: Symbol, i: int)
    requires
        first_match(s, next, i) is Some,
    ensures
        exists|j: int|
            i <= j < rule_total() && #[trigger] candidate(j, s, next) == first_match(s, next, i),
    decreases rule_total() - i,
{
    if candidate(i, s, next) is None {
        lemma_first_match(s, next, i + 1);
    } else {
        assert(candidate(i, s, next) == first_match(s, next, i));
    }
}

/// Where no rule matches, the table gives nothing.
pub proof fn lemma_no_rule(s: Seq<Symbol>, next: Symbol, i: int)
    requires
        0 <= i,
        forall|j: int| i <= j < rule_total() ==> #[trigger] candidate(j, s, next) is None,
    ensures
        first_match(s, next, i) is None,
    decreases rule_total() - i,
{
    if i < rule_total() {
        lemma_no_rule(s, next, i + 1);
    }
}

/// The shape of every reduction: it replaces the top `k >= 1` symbols by one
/// new nonterminal or cover symbol that records them as its children and
/// covers their source.
pub proof fn lemma_rule_shape(s: Seq<Symbol>, next: Symbol)
    requires
        rule_for(s, next) is Some,
        s.len() <= usize::MAX,
    ensures
        shaped(s, rule_for(s, next)->0),
        reduce_step(s, next) is Some,
        reduce_step(s, next)->0.len() <= s.len(),
        reduce_step(s, next)->0.len() >= 1,
        reduce_step(s, next)->0.subrange(0, rule_for(s, next)->0.start as int) =~= s.subrange(
            0,
            rule_for(s, next)->0.start as int,
        ),
{
    lemma_first_match(s, next, 0);
    let j = choose|j: int|
        0 <= j < rule_total() && #[trigger] candidate(j, s, next) == first_match(s, next, 0);
    lemma_candidate_shape(j, s, next);
}

/// Selection: where two rules match the same stack, the one tried first
/// replaces at least as many symbols. The longest match wins, and between
/// matches of one length the order of the table decides.
pub proof fn lemma_longest_match(s: Seq<Symbol>, next: Symbol, i: int, j: int)
    requires
        0 <= i < j < rule_total(),
        s.len() <= usize::MAX,
        candidate(i, s, next) is Some,
        candidate(j, s, next) is Some,
    ensures
        candidate(i, s, next)->0.start <= candidate(j, s, next)->0.start,
{
    reveal(rules_0);
    reveal(rules_1);
    reveal(rules_2);
    reveal(rules_3);
}

fn token_is(x: Symbol, t: Token) -> (r: bool)
    ensures
        r == is_token(x, t),
{
    match x {
        Symbol::Terminal(u, _) => u == t,
        _ => false,
    }
}

fn punct_is(x: Symbol, p: Punct) -> (r: bool)
    ensures
        r == is_punct(x, p),
{
    token_is(x, Token::Punct(p))
}

fn keyword_is(x: Symbol, k: Keyword) -> (r: bool)
    ensures
        r == is_keyword(x, k),
{
    token_is(x, Token::Keyword(k))
}

fn kind_is(x: Symbol, k: Kind) -> (r: bool)
    ensures
        r == is_kind(x, k),
{
    match x {
        Symbol::Nonterminal(j, _, _) => j == k,
        _ => false,
    }
}

fn operand(x: Symbol) -> (r: bool)
    ensures
        r == is_operand(x),
{
    match x {
        Symbol::Terminal(Token::Identifier, _) => true,
        Symbol::Terminal(Token::Number, _) => true,
        Symbol::Terminal(Token::LegacyOctalNumber, _) => true,
        Symbol::Terminal(Token::Regex, _) => true,
        Symbol::Terminal(Token::NoSubstitutionTemplate, _) => true,
        Symbol::Nonterminal(Kind::Expression, _, _) => true,
        Symbol::Nonterminal(Kind::ParenthesizedExpression, _, _) => true,
        _ => false,
    }
}

fn template_open(x: Symbol) -> (r: bool)
    ensures
        r == is_template_open(x),
{
    token_is(x, Token::TemplateHead) || kind_is(x, Kind::TemplateSpans)
}

fn cover_is(x: Symbol) -> (r: bool)
    ensures
        r == is_cover(x),
{
    match x {
        Symbol::Provisional(a, b, _, _) => a == Kind::ParenthesizedExpression && b
            == Kind::ArrowFormalParameters,
        _ => false,
    }
}

fn operand_in(strict: bool, x: Symbol) -> (r: bool)
    ensures
        r == is_operand_in(strict, x),
{
    operand(x) && !(strict && token_is(x, Token::LegacyOctalNumber))
}

fn argument_in(strict: bool, x: Symbol) -> (r: bool)
    ensures
        r == is_argument_in(strict, x),
{
    operand_in(strict, x) || kind_is(x, Kind::NameList)
}

fn name_list(x: Symbol) -> (r: bool)
    ensures
        r == is_name_list(x),
{
    token_is(x, Token::Identifier) || kind_is(x, Kind::NameList)
}

fn arrow_head(x: Symbol) -> (r: bool)
    ensures
        r == is_arrow_head(x),
{
    token_is(x, Token::Identifier) || kind_is(x, Kind::ArrowFormalParameters)
}

fn statement(x: Symbol) -> (r: bool)
    ensures
        r == is_statement(x),
{
    kind_is(x, Kind::ExpressionStatement) || kind_is(x, Kind::ReturnStatement) || kind_is(
        x,
        Kind::ExportDeclaration,
    ) || kind_is(x, Kind::EmptyStatement) || kind_is(x, Kind::Block)
}

fn statements(x: Symbol) -> (r: bool)
    ensures
        r == is_statements(x),
{
    statement(x) || kind_is(x, Kind::StatementList)
}

fn statement_context(x: Symbol) -> (r: bool)
    ensures
        r == is_statement_context(x),
{
    matches!(x, Symbol::Start(_)) || statements(x) || punct_is(x, Punct::LBrace)
}

fn binary_strength(p: Punct) -> (r: u8)
    ensures
        r == binary_prec(p),
{
    match p {
        Punct::Plus => 4,
        Punct::Minus => 4,
        Punct::Star => 5,
        Punct::Slash => 5,
        _ => 0,
    }
}

fn lookahead_strength(x: Symbol) -> (r: u8)
    ensures
        r == lookahead_prec(x),
{
    match x {
        Symbol::Terminal(Token::Punct(p), _) => match p {
            Punct::Comma => 1,
            Punct::Assign => 2,
            Punct::Dot => 10,
            Punct::LParen => 10,
            Punct::Arrow => 10,
            _ => binary_strength(p),
        },
        _ => 0,
    }
}

fn binary_operator(x: Symbol) -> (r: bool)
    ensures
        r == (x is Terminal && x->Terminal_0 is Punct && binary_prec(x->Terminal_0->Punct_0) > 0),
{
    match x {
        Symbol::Terminal(Token::Punct(p), _) => binary_strength(p) > 0,
        _ => false,
    }
}

fn operator_strength(x: Symbol) -> (r: u8)
    requires
        x is Terminal && x->Terminal_0 is Punct,
    ensures
        r == binary_prec(x->Terminal_0->Punct_0),
{
    match x {
        Symbol::Terminal(Token::Punct(p), _) => binary_strength(p),
        _ => 0,
    }
}

fn span_at(x: Symbol) -> (r: Span)
    ensures
        r == span_of(x),
{
    match x {
        Symbol::Terminal(_, sp) => sp,
        Symbol::Nonterminal(_, sp, _) => sp,
        Symbol::Provisional(_, _, sp, _) => sp,
        _ => Span { start: 0, end: 0 },
    }
}

fn source_at(x: Symbol) -> (r: Option<Span>)
    ensures
        r == source_of(x),
{
    match x {
        Symbol::Terminal(_, sp) => Some(sp),
        Symbol::Nonterminal(_, sp, _) => Some(sp),
        Symbol::Provisional(_, _, sp, _) => Some(sp),
        _ => None,
    }
}

fn join_spans(a: Option<Span>, b: Option<Span>) -> (r: Option<Span>)
    ensures
        r == join(a, b),
{
    match (a, b) {
        (None, _) => b,
        (Some(x), None) => a,
        (Some(x), Some(y)) => Some(
            Span {
                start: if x.start <= y.start {
                    x.start
                } else {
                    y.start
                },
                end: if x.end >= y.end {
                    x.end
                } else {
                    y.end
                },
            },
        ),
    }
}

fn covering_at(stack: &Vec<Symbol>, first: usize, end: usize) -> (r: Span)
    requires
        first <= end <= stack@.len(),
    ensures
        r == covering(stack@, first as int, end as int),
{
    let mut acc: Option<Span> = None;
    let mut j: usize = end;
    while j > first
        invariant
            first <= j <= end,
            end <= stack@.len(),
            acc == hull(stack@, j as int, end as int),
        decreases j - first,
    {
        j = j - 1;
        acc = join_spans(source_at(stack[j]), acc);
    }
    match acc {
        Some(sp) => sp,
        None => Span { start: 0, end: 0 },
    }
}

fn found(stack: &Vec<Symbol>, p: Production, start: usize, k: Kind) -> (r: Option<Reduction>)
    requires
        start < stack@.len(),
    ensures
        r == node(stack@, p, start as int, k),
{
    let n = stack.len();
    Some(
        Reduction {
            production: p,
            start,
            result: Symbol::Nonterminal(
                k,
                covering_at(stack, start, n),
                Children { first: start, count: n - start },
            ),
        },
    )
}

fn found_goal(stack: &Vec<Symbol>, g: Goal, start: usize) -> (r: Option<Reduction>)
    requires
        start + 2 <= stack@.len(),
    ensures
        r == goal_node(stack@, g, start as int),
{
    let n = stack.len();
    let (production, kind) = match g {
        Goal::Script => (Production::Script, Kind::Script),
        Goal::Module => (Production::Module, Kind::Module),
    };
    Some(
        Reduction {
            production,
            start,
            result: Symbol::Nonterminal(
                kind,
                covering_at(stack, start, n),
                Children { first: start, count: n - start },
            ),
        },
    )
}

/// Rule `i` of the grammar table applied to `stack`.
fn candidate_at(stack: &Vec<Symbol>, next: Symbol, i: usize) -> (r: Option<Reduction>)
    ensures
        r == candidate(i as int, stack@, next),
{
    if stack.len() == 0 || !matches!(stack[0], Symbol::Start(_)) {
        None
    } else if 0 <= i && i < 6 {
        rules_0_at(stack, next, i)
    } else if 6 <= i && i < 12 {
        rules_1_at(stack, next, i)
    } else if 12 <= i && i < 18 {
        rules_2_at(stack, next, i)
    } else if 18 <= i && i < 25 {
        rules_3_at(stack, next, i)
    } else {
        None
    }
}

fn rules_0_at(stack: &Vec<Symbol>, next: Symbol, i: usize) -> (r: Option<Reduction>)
    ensures
        r == rules_0(i as int, stack@, next),
{
    reveal(rules_0);
    let n = stack.len();
    if n == 0 {
        return None;
    }
    let top = stack[n - 1];
    let strict = stack[0] == Symbol::Start(Goal::Module);
    let s1 = if n >= 2 { stack[n - 2] } else { Symbol::Eof };
    let s2 = if n >= 3 { stack[n - 3] } else { Symbol::Eof };
    let s3 = if n >= 4 { stack[n - 4] } else { Symbol::Eof };
    let s4 = if n >= 5 { stack[n - 5] } else { Symbol::Eof };
    if i == 0 {
        if top == Symbol::Eof && n == 2 && matches!(s1, Symbol::Start(_)) {
            match s1 {
                Symbol::Start(g) => found_goal(stack, g, n - 2),
                _ => None,
            }
        } else {
            None
        }
    } else if i == 1 {
        if top == Symbol::Eof && n == 3 && matches!(s2, Symbol::Start(_)) && statements(s1) {
            match s2 {
                Symbol::Start(g) => found_goal(stack, g, n - 3),
                _ => None,
            }
        } else {
            None
        }
    } else if i == 2 {
        if cover_is(top) && punct_is(next, Punct::Arrow) {
            found(stack, Production::ArrowParameters, n - 1, Kind::ArrowFormalParameters)
        } else {
            None
        }
    } else if i == 3 {
        if cover_is(top) && !punct_is(next, Punct::Arrow) {
            found(stack, Production::ParenthesizedExpression, n - 1, Kind::ParenthesizedExpression)
        } else {
            None
        }
    } else if i == 4 {
        if n >= 4
            && operand_in(strict, s3)
            && punct_is(s2, Punct::LParen)
            && argument_in(strict, s1)
            && punct_is(top, Punct::RParen) {
            found(stack, Production::Call, n - 4, Kind::Expression)
        } else {
            None
        }
    } else if i == 5 {
        if n >= 3
            && operand_in(strict, s2)
            && punct_is(s1, Punct::LParen)
            && punct_is(top, Punct::RParen) {
            found(stack, Production::Call, n - 3, Kind::Expression)
        } else {
            None
        }
    } else {
        None
    }
}

fn rules_1_at(stack: &Vec<Symbol>, next: Symbol, i: usize) -> (r: Option<Reduction>)
    ensures
        r == rules_1(i as int, stack@, next),
{
    reveal(rules_1);
    let n = stack.len();
    if n == 0 {
        return None;
    }
    let top = stack[n - 1];
    let strict = stack[0] == Symbol::Start(Goal::Module);
    let s1 = if n >= 2 { stack[n - 2] } else { Symbol::Eof };
    let s2 = if n >= 3 { stack[n - 3] } else { Symbol::Eof };
    let s3 = if n >= 4 { stack[n - 4] } else { Symbol::Eof };
    let s4 = if n >= 5 { stack[n - 5] } else { Symbol::Eof };
    if i == 6 {
        if n >= 3 && punct_is(s2, Punct::LParen) && name_list(s1) && punct_is(top, Punct::RParen) {
            Some(
                Reduction {
                    production: Production::CoverParenthesized,
                    start: n - 3,
                    result: Symbol::Provisional(
                        Kind::ParenthesizedExpression,
                        Kind::ArrowFormalParameters,
                        covering_at(stack, n - 3, n),
                        Children { first: n - 3, count: 3 },
                    ),
                },
            )
        } else {
            None
        }
    } else if i == 7 {
        if n >= 3
            && punct_is(s2, Punct::LParen)
            && argument_in(strict, s1)
            && punct_is(top, Punct::RParen) {
            found(stack, Production::ParenthesizedExpression, n - 3, Kind::ParenthesizedExpression)
        } else {
            None
        }
    } else if i == 8 {
        if n >= 2
            && punct_is(s1, Punct::LParen)
            && punct_is(top, Punct::RParen)
            && punct_is(next, Punct::Arrow) {
            found(stack, Production::ArrowParameters, n - 2, Kind::ArrowFormalParameters)
        } else {
            None
        }
    } else if i == 9 {
        if n >= 3
            && operand_in(strict, s2)
            && punct_is(s1, Punct::Dot)
            && token_is(top, Token::Identifier) {
            found(stack, Production::MemberAccess, n - 3, Kind::Expression)
        } else {
            None
        }
    } else if i == 10 {
        if n >= 3
            && template_open(s2)
            && operand_in(strict, s1)
            && token_is(top, Token::TemplateMiddle) {
            found(stack, Production::TemplateSpan, n - 3, Kind::TemplateSpans)
        } else {
            None
        }
    } else if i == 11 {
        if n >= 3
            && template_open(s2)
            && operand_in(strict, s1)
            && token_is(top, Token::TemplateTail) {
            found(stack, Production::TemplateLiteral, n - 3, Kind::Expression)
        } else {
            None
        }
    } else {
        None
    }
}

fn rules_2_at(stack: &Vec<Symbol>, next: Symbol, i: usize) -> (r: Option<Reduction>)
    ensures
        r == rules_2(i as int, stack@, next),
{
    reveal(rules_2);
    let n = stack.len();
    if n == 0 {
        return None;
    }
    let top = stack[n - 1];
    let strict = stack[0] == Symbol::Start(Goal::Module);
    let s1 = if n >= 2 { stack[n - 2] } else { Symbol::Eof };
    let s2 = if n >= 3 { stack[n - 3] } else { Symbol::Eof };
    let s3 = if n >= 4 { stack[n - 4] } else { Symbol::Eof };
    let s4 = if n >= 5 { stack[n - 5] } else { Symbol::Eof };
    if i == 12 {
        if n >= 4
            && punct_is(s3, Punct::LParen)
            && name_list(s2)
            && punct_is(s1, Punct::Comma)
            && token_is(top, Token::Identifier)
            && (punct_is(next, Punct::Comma) || punct_is(next, Punct::RParen)) {
            found(stack, Production::NameList, n - 3, Kind::NameList)
        } else {
            None
        }
    } else if i == 13 {
        if n >= 3
            && argument_in(strict, s2)
            && punct_is(s1, Punct::Comma)
            && operand_in(strict, top)
            && lookahead_strength(next) <= 1 {
            found(stack, Production::Comma, n - 3, Kind::Expression)
        } else {
            None
        }
    } else if i == 14 {
        if n >= 3
            && operand_in(strict, s2)
            && binary_operator(s1)
            && operand_in(strict, top)
            && lookahead_strength(next) <= operator_strength(s1) {
            found(stack, Production::Binary, n - 3, Kind::Expression)
        } else {
            None
        }
    } else if i == 15 {
        if n >= 3
            && operand_in(strict, s2)
            && punct_is(s1, Punct::Assign)
            && operand_in(strict, top)
            && lookahead_strength(next) < 2 {
            found(stack, Production::Assignment, n - 3, Kind::Expression)
        } else {
            None
        }
    } else if i == 16 {
        if n >= 3
            && arrow_head(s2)
            && punct_is(s1, Punct::Arrow)
            && ((operand_in(strict, top) && lookahead_strength(next) < 2) || kind_is(
                top,
                Kind::Block,
            )) {
            found(stack, Production::ArrowFunction, n - 3, Kind::Expression)
        } else {
            None
        }
    } else if i == 17 {
        if n >= 2 && punct_is(s1, Punct::LBrace) && punct_is(top, Punct::RBrace) {
            found(stack, Production::Block, n - 2, Kind::Block)
        } else {
            None
        }
    } else {
        None
    }
}

fn rules_3_at(stack: &Vec<Symbol>, next: Symbol, i: usize) -> (r: Option<Reduction>)
    ensures
        r == rules_3(i as int, stack@, next),
{
    reveal(rules_3);
    let n = stack.len();
    if n == 0 {
        return None;
    }
    let top = stack[n - 1];
    let strict = stack[0] == Symbol::Start(Goal::Module);
    let s1 = if n >= 2 { stack[n - 2] } else { Symbol::Eof };
    let s2 = if n >= 3 { stack[n - 3] } else { Symbol::Eof };
    let s3 = if n >= 4 { stack[n - 4] } else { Symbol::Eof };
    let s4 = if n >= 5 { stack[n - 5] } else { Symbol::Eof };
    if i == 18 {
        if n >= 3
            && punct_is(s2, Punct::LBrace)
            && statements(s1)
            && punct_is(top, Punct::RBrace) {
            found(stack, Production::Block, n - 3, Kind::Block)
        } else {
            None
        }
    } else if i == 19 {
        if n >= 5
            && keyword_is(s3, Keyword::Export)
            && keyword_is(s2, Keyword::Default)
            && operand_in(strict, s1)
            && punct_is(top, Punct::Semicolon)
            && statement_context(s4)
            && strict {
            found(stack, Production::ExportDefault, n - 4, Kind::ExportDeclaration)
        } else {
            None
        }
    } else if i == 20 {
        if n >= 4
            && keyword_is(s2, Keyword::Return)
            && operand_in(strict, s1)
            && punct_is(top, Punct::Semicolon)
            && statement_context(s3) {
            found(stack, Production::ReturnStatement, n - 3, Kind::ReturnStatement)
        } else {
            None
        }
    } else if i == 21 {
        if n >= 3
            && keyword_is(s1, Keyword::Return)
            && punct_is(top, Punct::Semicolon)
            && statement_context(s2) {
            found(stack, Production::ReturnStatement, n - 2, Kind::ReturnStatement)
        } else {
            None
        }
    } else if i == 22 {
        if n >= 3
            && statement_context(s2)
            && operand_in(strict, s1)
            && punct_is(top, Punct::Semicolon) {
            found(stack, Production::ExpressionStatement, n - 2, Kind::ExpressionStatement)
        } else {
            None
        }
    } else if i == 23 {
        if n >= 2 && statement_context(s1) && punct_is(top, Punct::Semicolon) {
            found(stack, Production::EmptyStatement, n - 1, Kind::EmptyStatement)
        } else {
            None
        }
    } else if i == 24 {
        if n >= 2 && statements(s1) && statement(top) {
            found(stack, Production::StatementList, n - 2, Kind::StatementList)
        } else {
            None
        }
    } else {
        None
    }
}

/// Looks up the grammar table for the top of `stack`, with `next` to follow.
pub fn find_rule(stack: &Vec<Symbol>, next: Symbol) -> (r: Option<Reduction>)
    ensures
        r == rule_for(stack@, next),
        stack@.len() <= usize::MAX,
{
    let n = stack.len();
    let mut i: usize = 0;
    while i < 25
        invariant
            i <= 25,
            first_match(stack@, next, 0) == first_match(stack@, next, i as int),
            n == stack@.len(),
        decreases 25 - i,
    {
        let c = candidate_at(stack, next, i);
        if c.is_some() {
            return c;
        }
        i = i + 1;
    }
    None
}

/// A well-formed stack: the start marker only at the bottom, the end-of-input
/// marker only on top.
pub open spec fn wf_stack(s: Seq<Symbol>) -> bool {
    &&& forall|i: int| 0 < i < s.len() ==> !(#[trigger] s[i] is Start)
    &&& forall|i: int| 0 <= i < s.len() - 1 ==> #[trigger] s[i] != Symbol::Eof
}

/// Reductions keep a stack well formed.
pub proof fn lemma_reduction_keeps_wf(s: Seq<Symbol>, next: Symbol)
    requires
        wf_stack(s),
        rule_for(s, next) is Some,
        s.len() <= usize::MAX,
    ensures
        wf_stack(reduce_step(s, next)->0),
{
    lemma_rule_shape(s, next);
    let r = rule_for(s, next)->0;
    let t = apply(s, r);
    assert forall|i: int| 0 < i < t.len() implies !(#[trigger] t[i] is Start) by {
        if i < r.start {
            assert(t[i] == s[i]);
        }
    }
    assert forall|i: int| 0 <= i < t.len() - 1 implies #[trigger] t[i] != Symbol::Eof by {
        assert(t[i] == s[i]);
    }
}

} // verus!
