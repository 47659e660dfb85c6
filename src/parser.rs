//! The sequential protocol: the stack passes through each call, reduced once
//! or handed back unchanged.
use vstd::prelude::*;
use crate::grammar::{
    apply, find_rule, goal_kind, is_keyword, is_kind, is_operand, is_punct, is_token, children_from,
    children_of, covering, span_of, lemma_no_rule, lemma_rule_shape, reduce_step, rule_for,
    single_step_top, candidate, rule_total, rules_0, rules_1, rules_2, rules_3, Children, Goal,
    Kind, Production, Reduction,
};
use crate::lexer::{
    is_blank, is_line_terminator, scan_spec, scan_template, scan_template_spec, scan_token,
    skip_blank, Keyword, LexicalError, Punct, Span, Token,
};

verus! {

/// Grammar symbols on the parser stack.
#[derive(Clone, Copy, Debug, PartialEq, Eq, Structural)]
pub enum Symbol {
    /// Opens every stack and names the goal that the parse must reach.
    Start(Goal),
    /// A classified lexical token and where it stands in the source.
    Terminal(Token, Span),
    /// The result of a reduction, the source range that it covers, and the
    /// symbols that it replaced.
    Nonterminal(Kind, Span, Children),
    /// A cover symbol with the two kinds it may become; a later reduction
    /// re-tags it in place as one of them.
    Provisional(Kind, Kind, Span, Children),
    /// End of input; pushed once, last.
    Eof,
}

/// How a parse ended.
#[derive(Debug, PartialEq, Eq)]
pub enum Outcome {
    /// The input reduced to exactly one symbol of the goal.
    Accepted(Goal),
    /// A code unit sequence at the given position forms no token.
    LexicalError(LexicalError, usize),
    /// The input ended at the given position without reducing to the goal;
    /// the stack as it was left.
    SyntaxError(usize, Vec<Symbol>),
}

/// The stack after `k` consecutive reductions with `next` to follow, or
/// `None` where one of them finds no rule.
pub open spec fn iterate(s: Seq<Symbol>, next: Symbol, k: nat) -> Option<Seq<Symbol>>
    decreases k,
{
    if k == 0 {
        Some(s)
    } else {
        match iterate(s, next, (k - 1) as nat) {
            Some(t) => reduce_step(t, next),
            None => None,
        }
    }
}

/// The productions of the first `k` consecutive reductions of `s`, in order.
pub open spec fn trace_of(s: Seq<Symbol>, next: Symbol, k: nat) -> Seq<Production>
    decreases k,
{
    if k == 0 {
        Seq::empty()
    } else {
        match iterate(s, next, (k - 1) as nat) {
            Some(t) => match rule_for(t, next) {
                Some(r) => trace_of(s, next, (k - 1) as nat).push(r.production),
                None => trace_of(s, next, (k - 1) as nat),
            },
            None => trace_of(s, next, (k - 1) as nat),
        }
    }
}

/// Reducing `s` with `next` to follow until no rule applies ends in `t`,
/// applying the productions `p` on the way.
pub open spec fn drains_with(
    s: Seq<Symbol>,
    next: Symbol,
    t: Seq<Symbol>,
    p: Seq<Production>,
) -> bool {
    exists|k: nat|
        iterate(s, next, k) == Some(t) && reduce_step(t, next) is None && p == trace_of(s, next, k)
}

/// A finished stack that is exactly the goal symbol.
pub open spec fn accepts(s: Seq<Symbol>, goal: Goal) -> bool {
    s.len() == 1 && is_kind(s[0], goal_kind(goal))
}

/// Applies a reduction that replaces the symbols of `stack` from `r.start` on.
pub(crate) fn apply_reduction(stack: Vec<Symbol>, r: Reduction) -> (t: Vec<Symbol>)
    requires
        r.start < stack@.len(),
    ensures
        t@ == apply(stack@, r),
{
    let mut t = stack;
    t.truncate(r.start);
    t.push(r.result);
    assert(t@ =~= apply(stack@, r));
    t
}

/// Reduces the top of `stack` once, `next` being the symbol that will follow.
/// `Ok` holds the stack with its top `k >= 1` symbols replaced by one new
/// symbol; `Err` hands back the stack unchanged where no rule applies. The
/// result is a function of the stack and `next` alone.
pub fn reduce_once(stack: Vec<Symbol>, next: Symbol) -> (r: Result<Vec<Symbol>, Vec<Symbol>>)
    ensures
        match r {
            Ok(t) => reduce_step(stack@, next) == Some(t@) && rule_for(stack@, next) is Some && t@
                == stack@.subrange(0, rule_for(stack@, next)->0.start as int).push(
                rule_for(stack@, next)->0.result,
            ),
            Err(t) => reduce_step(stack@, next) is None && t@ == stack@,
        },
        r is Ok ==> ({
            let start = rule_for(stack@, next)->0.start as int;
            let top = r->Ok_0@.last();
            &&& 0 < start < stack@.len() || (start == 0 && stack@.last() == Symbol::Eof)
            &&& top is Nonterminal || top is Provisional
            &&& span_of(top) == covering(stack@, start, stack@.len() as int)
            &&& children_of(top) == children_from(stack@, start)
        }),
{
    match find_rule(&stack, next) {
        Some(rule) => {
            proof {
                lemma_rule_shape(stack@, next);
            }
            Ok(apply_reduction(stack, rule))
        },
        None => Err(stack),
    }
}

/// The measure that every reduction lowers: the stack length, plus one
/// where the top may be replaced by a single symbol.
pub open spec fn weight(s: Seq<Symbol>) -> int {
    s.len() + if single_step_top(s) {
        1int
    } else {
        0int
    }
}

/// A reduction lowers the weight, and leaves a stack of weight at least one.
pub proof fn lemma_step_weight(s: Seq<Symbol>, next: Symbol)
    requires
        reduce_step(s, next) is Some,
        s.len() <= usize::MAX,
    ensures
        weight(reduce_step(s, next)->0) < weight(s),
        weight(reduce_step(s, next)->0) >= 1,
{
    lemma_rule_shape(s, next);
}

/// Reduces `stack` with `next` to follow until no rule applies, appending the
/// production of each reduction to `trace`.
pub fn drain(stack: Vec<Symbol>, next: Symbol, trace: &mut Vec<Production>) -> (t: Vec<Symbol>)
    ensures
        exists|p: Seq<Production>|
            drains_with(stack@, next, t@, p) && final(trace)@ == old(trace)@ + p,
{
    let mut cur = stack;
    let ghost mut k: nat = 0;
    let ghost start = trace@;
    loop
        invariant
            iterate(stack@, next, k) == Some(cur@),
            trace@ == start + trace_of(stack@, next, k),
            start == old(trace)@,
        decreases weight(cur@),
    {
        match find_rule(&cur, next) {
            Some(rule) => {
                proof {
                    lemma_rule_shape(cur@, next);
                    lemma_step_weight(cur@, next);
                }
                trace.push(rule.production);
                cur = apply_reduction(cur, rule);
                proof {
                    k = k + 1;
                    assert(trace@ =~= start + trace_of(stack@, next, k));
                }
            },
            None => {
                assert(drains_with(stack@, next, cur@, trace_of(stack@, next, k)));
                assert(trace@ == old(trace)@ + trace_of(stack@, next, k));
                return cur;
            },
        }
    }
}

/// The top symbol ends an expression: a statement may end after it.
pub open spec fn ends_expression(x: Symbol) -> bool {
    is_operand(x) || is_punct(x, Punct::RParen) || is_token(x, Token::TemplateTail)
}

/// A token that starts a new statement where it follows a complete one.
pub open spec fn starts_statement(t: Token) -> bool {
    t is Identifier || t is Number || t is LegacyOctalNumber || t is Regex || t is Keyword || t
        == Token::Punct(Punct::LBrace)
}

/// A `/` opens a regular expression literal where a value is expected, and
/// at the start of a line, where it starts a new statement.
pub open spec fn regex_position(top: Symbol, newline: bool) -> bool {
    !ends_expression(top) || newline
}

/// Automatic semicolon insertion before token `t`: before a `}` that closes
/// an open statement; after `return` at a line end; or at a line end where
/// `t` cannot continue the expression on top.
pub open spec fn semicolon_before(top: Symbol, t: Token, newline: bool) -> bool {
    if t == Token::Punct(Punct::RBrace) {
        semicolon_at_end(top)
    } else {
        newline && t != Token::Punct(Punct::Semicolon) && (is_keyword(top, Keyword::Return) || (
        ends_expression(top) && starts_statement(t)))
    }
}

/// Automatic semicolon insertion at end of input: the last statement is
/// still open.
pub open spec fn semicolon_at_end(top: Symbol) -> bool {
    ends_expression(top) || is_keyword(top, Keyword::Return)
}

fn expression_end(x: Symbol) -> (r: bool)
    ensures
        r == ends_expression(x),
{
    match x {
        Symbol::Terminal(Token::Identifier, _) => true,
        Symbol::Terminal(Token::Number, _) => true,
        Symbol::Terminal(Token::LegacyOctalNumber, _) => true,
        Symbol::Terminal(Token::Regex, _) => true,
        Symbol::Terminal(Token::NoSubstitutionTemplate, _) => true,
        Symbol::Terminal(Token::Punct(Punct::RParen), _) => true,
        Symbol::Terminal(Token::TemplateTail, _) => true,
        Symbol::Nonterminal(Kind::Expression, _, _) => true,
        Symbol::Nonterminal(Kind::ParenthesizedExpression, _, _) => true,
        _ => false,
    }
}

/// Whether a `/` after `top` opens a regular expression literal.
pub fn regex_allowed(top: Symbol, newline: bool) -> (r: bool)
    ensures
        r == regex_position(top, newline),
{
    !expression_end(top) || newline
}

/// Whether a semicolon is inserted before token `t`.
pub fn inserts_semicolon(top: Symbol, t: Token, newline: bool) -> (r: bool)
    ensures
        r == semicolon_before(top, t, newline),
{
    let statement_start = match t {
        Token::Identifier => true,
        Token::Number => true,
        Token::LegacyOctalNumber => true,
        Token::Regex => true,
        Token::Keyword(_) => true,
        Token::Punct(Punct::LBrace) => true,
        _ => false,
    };
    if t == Token::Punct(Punct::RBrace) {
        closes_at_end(top)
    } else {
        newline && t != Token::Punct(Punct::Semicolon) && (after_return(top) || (expression_end(
            top,
        ) && statement_start))
    }
}

/// Whether a semicolon is inserted at end of input.
pub fn closes_at_end(top: Symbol) -> (r: bool)
    ensures
        r == semicolon_at_end(top),
{
    expression_end(top) || after_return(top)
}

fn after_return(top: Symbol) -> (r: bool)
    ensures
        r == is_keyword(top, Keyword::Return),
{
    match top {
        Symbol::Terminal(t, _) => t == Token::Keyword(Keyword::Return),
        _ => false,
    }
}

/// Reduces `stack` with `x` to follow, then pushes `x`.
pub fn shift(stack: Vec<Symbol>, x: Symbol, trace: &mut Vec<Production>) -> (t: Vec<Symbol>)
    ensures
        exists|p: Seq<Production>| shifted(stack@, x, t@, p) && final(trace)@ == old(trace)@ + p,
{
    let ghost tr0 = trace@;
    let mut d = drain(stack, x, trace);
    proof {
        let p = choose|p: Seq<Production>| drains_with(stack@, x, d@, p) && trace@ == tr0 + p;
        assert(shifted(stack@, x, d@.push(x), p));
    }
    d.push(x);
    d
}

/// Shifting `x` onto `s` gives `t`, with the productions `p` on the way.
pub open spec fn shifted(s: Seq<Symbol>, x: Symbol, t: Seq<Symbol>, p: Seq<Production>) -> bool {
    exists|d: Seq<Symbol>| drains_with(s, x, d, p) && t == d.push(x)
}

/// Feeding token `t` to stack `s` gives `r`, with the productions `p` on the
/// way: the stack is reduced with `t` to follow; where a semicolon is
/// inserted it is shifted first, then the token is shifted.
pub open spec fn fed(
    s: Seq<Symbol>,
    t: Token,
    span: Span,
    newline: bool,
    r: Seq<Symbol>,
    p: Seq<Production>,
) -> bool {
    let tok = Symbol::Terminal(t, span);
    let semi = Symbol::Terminal(
        Token::Punct(Punct::Semicolon),
        Span { start: span.start, end: span.start },
    );
    exists|d: Seq<Symbol>, p1: Seq<Production>|
        #[trigger] drains_with(s, tok, d, p1) && d.len() >= 1 && if semicolon_before(
            d.last(),
            t,
            newline,
        ) {
            exists|m: Seq<Symbol>, p2: Seq<Production>, p3: Seq<Production>|
                #[trigger] shifted(d, semi, m, p2) && #[trigger] shifted(m, tok, r, p3) && p == p1
                    + p2 + p3
        } else {
            r == d.push(tok) && p == p1
        }
}

/// Ending the input at position `at` turns stack `s` into `r`, with the
/// productions `p` on the way: a semicolon is shifted where the last
/// statement is open, then the end-of-input marker, and the stack is reduced.
pub open spec fn finished(s: Seq<Symbol>, at: usize, r: Seq<Symbol>, p: Seq<Production>) -> bool {
    let semi = Symbol::Terminal(Token::Punct(Punct::Semicolon), Span { start: at, end: at });
    exists|d: Seq<Symbol>, p1: Seq<Production>|
        #[trigger] drains_with(s, Symbol::Eof, d, p1) && d.len() >= 1 && if semicolon_at_end(
            d.last(),
        ) {
            exists|
                m: Seq<Symbol>,
                e: Seq<Symbol>,
                p2: Seq<Production>,
                p3: Seq<Production>,
                p4: Seq<Production>,
            |
                #[trigger] shifted(d, semi, m, p2) && #[trigger] shifted(m, Symbol::Eof, e, p3)
                    && #[trigger] drains_with(e, Symbol::Eof, r, p4) && p == p1 + p2 + p3 + p4
        } else {
            exists|p4: Seq<Production>|
                #[trigger] drains_with(d.push(Symbol::Eof), Symbol::Eof, r, p4) && p == p1 + p4
        }
}

/// The units from `from` up to `to` are blank, `to` is the end of the input
/// or a unit that is not, and `newline` tells whether a line terminator is
/// among them.
pub open spec fn blank_run(units: Seq<u16>, from: int, to: int, newline: bool) -> bool {
    &&& from <= to <= units.len()
    &&& to < units.len() ==> !is_blank(units[to])
    &&& forall|k: int| from <= k < to ==> is_blank(#[trigger] units[k])
    &&& newline == exists|k: int| from <= k < to && is_line_terminator(#[trigger] units[k])
}

/// What scanning the token at `p` may give after stack `s` with brace
/// counters `b`: a `}` closing a template substitution resumes the template.
pub open spec fn token_scan(
    units: Seq<u16>,
    p: int,
    s: Seq<Symbol>,
    b: Seq<usize>,
    newline: bool,
    r: Result<(Token, usize), LexicalError>,
) -> bool {
    if closes_substitution(units, p, b) {
        scan_template_spec(units, p, false, r)
    } else {
        scan_spec(units, p, regex_position(s.last(), newline), r)
    }
}

/// A driver state: position, drained stack, brace counters, and the
/// productions applied so far.
pub type DriveState = (int, Seq<Symbol>, Seq<usize>, Seq<Production>);

/// One step of the parse driver, from state `a` to state `z`: the blanks,
/// then one token, classified and fed.
pub open spec fn drive_step(units: Seq<u16>, a: DriveState, z: DriveState) -> bool {
    exists|p: int, newline: bool, t: Token, end: usize, q: Seq<Production>|
        #[trigger] token_scan(units, p, a.1, a.2, newline, Ok((t, end))) && #[trigger] fed(
            a.1,
            t,
            Span { start: p as usize, end },
            newline,
            z.1,
            q,
        ) && blank_run(units, a.0, p, newline) && p < units.len() && z.0 == end && z.2
            == next_braces(a.2, t) && z.3 == a.3 + q
}

/// A run of the parse driver: the states after each token, from the initial
/// one on.
pub open spec fn is_run(units: Seq<u16>, goal: Goal, run: Seq<DriveState>) -> bool {
    &&& run.len() >= 1
    &&& run[0] == (
        0int,
        seq![Symbol::Start(goal)],
        Seq::<usize>::empty(),
        Seq::<Production>::empty(),
    )
    &&& forall|i: int| 0 <= i < run.len() - 1 ==> #[trigger] drive_step(units, run[i], run[i + 1])
}

/// A parse of `units` towards `goal` ends in `r`, having applied the
/// productions `trace`: from the last state of a run, either the next token
/// cannot be scanned, or only blanks remain and the finished stack is checked
/// against the goal.
pub open spec fn parse_result(
    units: Seq<u16>,
    goal: Goal,
    r: Outcome,
    trace: Seq<Production>,
) -> bool {
    exists|run: Seq<DriveState>|
        #[trigger] is_run(units, goal, run) && ending(units, goal, run.last(), r, trace)
}

/// `r` is how a parse ends from driver state `z`, with `trace` the
/// productions of the whole parse.
pub open spec fn ending(
    units: Seq<u16>,
    goal: Goal,
    z: DriveState,
    r: Outcome,
    trace: Seq<Production>,
) -> bool {
    if r is LexicalError {
        let p = r->LexicalError_1 as int;
        trace == z.3 && exists|newline: bool|
            #[trigger] blank_run(units, z.0, p, newline) && p < units.len() && token_scan(
                units,
                p,
                z.1,
                z.2,
                newline,
                Err(r->LexicalError_0),
            )
    } else {
        exists|newline: bool, fin: Seq<Symbol>, q: Seq<Production>|
            #[trigger] blank_run(units, z.0, units.len() as int, newline) && #[trigger] finished(
                z.1,
                units.len() as usize,
                fin,
                q,
            ) && trace == z.3 + q && if accepts(fin, goal) {
                r == Outcome::Accepted(goal)
            } else {
                r is SyntaxError && r->SyntaxError_0 == units.len() && r->SyntaxError_1@ == fin
            }
    }
}

/// The acceptance check on a finished stack.
pub fn outcome(stack: Vec<Symbol>, goal: Goal, at: usize) -> (r: Outcome)
    ensures
        accepts(stack@, goal) ==> r == Outcome::Accepted(goal),
        !accepts(stack@, goal) ==> r == Outcome::SyntaxError(at, stack),
{
    let kind = match goal {
        Goal::Script => Kind::Script,
        Goal::Module => Kind::Module,
    };
    let single_goal = stack.len() == 1 && match stack[0] {
        Symbol::Nonterminal(k, _, _) => k == kind,
        _ => false,
    };
    if single_goal {
        Outcome::Accepted(goal)
    } else {
        Outcome::SyntaxError(at, stack)
    }
}

/// Feeds one token: reduces with it to follow, shifts an inserted semicolon
/// where one is due, then shifts the token.
pub fn feed(
    stack: Vec<Symbol>,
    t: Token,
    span: Span,
    newline: bool,
    trace: &mut Vec<Production>,
) -> (r: Vec<Symbol>)
    requires
        stack@.len() >= 1,
    ensures
        exists|p: Seq<Production>|
            fed(stack@, t, span, newline, r@, p) && final(trace)@ == old(trace)@ + p,
        r@.len() >= 1,
{
    let tok = Symbol::Terminal(t, span);
    let ghost tr0 = trace@;
    let depth = stack.len();
    let d = drain(stack, tok, trace);
    assert(stack@.len() == depth);
    let ghost p1 = choose|p1: Seq<Production>|
        drains_with(stack@, tok, d@, p1) && trace@ == tr0 + p1;
    proof {
        lemma_drained_nonempty(stack@, tok, d@);
    }
    let top = d[d.len() - 1];
    if inserts_semicolon(top, t, newline) {
        let semi = Symbol::Terminal(
            Token::Punct(Punct::Semicolon),
            Span { start: span.start, end: span.start },
        );
        let ghost tr1 = trace@;
        let m = shift(d, semi, trace);
        let ghost tr2 = trace@;
        let r = shift(m, tok, trace);
        proof {
            let p2 = choose|p2: Seq<Production>| shifted(d@, semi, m@, p2) && tr2 == tr1 + p2;
            let p3 = choose|p3: Seq<Production>| shifted(m@, tok, r@, p3) && trace@ == tr2 + p3;
            assert(fed(stack@, t, span, newline, r@, p1 + p2 + p3));
            assert(trace@ =~= tr0 + (p1 + p2 + p3));
        }
        r
    } else {
        let mut r = d;
        r.push(tok);
        proof {
            assert(fed(stack@, t, span, newline, r@, p1));
        }
        r
    }
}

/// Ends the input at position `at`: shifts a semicolon where the last
/// statement is open, then the end-of-input marker, and reduces.
pub fn finish(stack: Vec<Symbol>, at: usize, trace: &mut Vec<Production>) -> (r: Vec<Symbol>)
    requires
        stack@.len() >= 1,
    ensures
        exists|p: Seq<Production>| finished(stack@, at, r@, p) && final(trace)@ == old(trace)@ + p,
{
    let ghost tr0 = trace@;
    let depth = stack.len();
    let d = drain(stack, Symbol::Eof, trace);
    assert(stack@.len() == depth);
    let ghost p1 = choose|p1: Seq<Production>|
        drains_with(stack@, Symbol::Eof, d@, p1) && trace@ == tr0 + p1;
    proof {
        lemma_drained_nonempty(stack@, Symbol::Eof, d@);
    }
    let top = d[d.len() - 1];
    if closes_at_end(top) {
        let semi = Symbol::Terminal(Token::Punct(Punct::Semicolon), Span { start: at, end: at });
        let ghost tr1 = trace@;
        let m = shift(d, semi, trace);
        let ghost tr2 = trace@;
        let e = shift(m, Symbol::Eof, trace);
        let ghost tr3 = trace@;
        let r = drain(e, Symbol::Eof, trace);
        proof {
            let p2 = choose|p2: Seq<Production>| shifted(d@, semi, m@, p2) && tr2 == tr1 + p2;
            let p3 = choose|p3: Seq<Production>|
                shifted(m@, Symbol::Eof, e@, p3) && tr3 == tr2 + p3;
            let p4 = choose|p4: Seq<Production>|
                drains_with(e@, Symbol::Eof, r@, p4) && trace@ == tr3 + p4;
            assert(finished(stack@, at, r@, p1 + p2 + p3 + p4));
            assert(trace@ =~= tr0 + (p1 + p2 + p3 + p4));
        }
        r
    } else {
        let mut e = d;
        e.push(Symbol::Eof);
        let ghost tr1 = trace@;
        let r = drain(e, Symbol::Eof, trace);
        proof {
            let p4 = choose|p4: Seq<Production>|
                drains_with(e@, Symbol::Eof, r@, p4) && trace@ == tr1 + p4;
            assert(finished(stack@, at, r@, p1 + p4));
            assert(trace@ =~= tr0 + (p1 + p4));
        }
        r
    }
}

/// Parses UTF-16 code units towards `goal`.
pub fn parse(units: &Vec<u16>, goal: Goal) -> (r: Outcome)
    ensures
        exists|p: Seq<Production>| parse_result(units@, goal, r, p),
        r is Accepted ==> r == Outcome::Accepted(goal),
        r is LexicalError ==> r->LexicalError_1 < units@.len(),
        (forall|k: int| 0 <= k < units@.len() ==> is_blank(#[trigger] units@[k])) ==> r
            == Outcome::Accepted(goal),
{
    let mut trace: Vec<Production> = Vec::new();
    parse_traced(units, goal, &mut trace)
}

/// Parses UTF-16 code units towards `goal`, appending the production of every
/// reduction to `trace`: each token is classified against the stack, the
/// stack is reduced with it to follow, and it is shifted after any inserted
/// semicolon; at the end the end-of-input marker is shifted and the stack is
/// reduced and checked.
pub fn parse_traced(units: &Vec<u16>, goal: Goal, trace: &mut Vec<Production>) -> (r: Outcome)
    ensures
        exists|p: Seq<Production>|
            parse_result(units@, goal, r, p) && final(trace)@ == old(trace)@ + p,
        r is Accepted ==> r == Outcome::Accepted(goal),
        r is LexicalError ==> r->LexicalError_1 < units@.len(),
        (forall|k: int| 0 <= k < units@.len() ==> is_blank(#[trigger] units@[k])) ==> r
            == Outcome::Accepted(goal),
{
    let ghost blank_input = forall|k: int| 0 <= k < units@.len() ==> is_blank(#[trigger] units@[k]);
    let ghost before = trace@;
    let mut stack: Vec<Symbol> = Vec::new();
    stack.push(Symbol::Start(goal));
    let mut pos: usize = 0;
    let mut braces: Vec<usize> = Vec::new();
    let ghost mut run: Seq<DriveState> = seq![
        (0int, seq![Symbol::Start(goal)], Seq::<usize>::empty(), Seq::<Production>::empty()),
    ];
    let ghost mut at: int = 0;
    assert(stack@ =~= seq![Symbol::Start(goal)]);
    assert(braces@ =~= Seq::<usize>::empty());
    assert(trace@ =~= before + Seq::<Production>::empty());
    while pos < units.len()
        invariant
            pos <= units@.len(),
            stack@.len() >= 1,
            forall|i: int| 0 <= i < braces@.len() ==> #[trigger] braces@[i] <= pos,
            blank_input == forall|k: int| 0 <= k < units@.len() ==> is_blank(#[trigger] units@[k]),
            blank_input ==> stack@ == seq![Symbol::Start(goal)],
            is_run(units@, goal, run),
            run.last() == (at, stack@, braces@, run.last().3),
            trace@ == before + run.last().3,
            before == old(trace)@,
            at == pos as int || (pos == units@.len() && exists|nl: bool|
                blank_run(units@, at, pos as int, nl)),
        decreases units@.len() - pos,
    {
        let (p, newline) = skip_blank(units, pos);
        assert(blank_run(units@, pos as int, p as int, newline));
        if p < units.len() {
            assert(!blank_input);
            let top = stack[stack.len() - 1];
            let scanned = if resumes_template(units, p, &braces) {
                scan_template(units, p, false)
            } else {
                scan_token(units, p, regex_allowed(top, newline))
            };
            assert(token_scan(units@, p as int, stack@, braces@, newline, scanned));
            match scanned {
                Err(e) => {
                    let r = Outcome::LexicalError(e, p);
                    proof {
                        let z = run.last();
                        assert(at == pos as int);
                        assert(r->LexicalError_1 == p && r->LexicalError_0 == e);
                        assert(blank_run(units@, z.0, p as int, newline) && token_scan(
                            units@,
                            p as int,
                            z.1,
                            z.2,
                            newline,
                            Err(e),
                        ));
                        assert(ending(units@, goal, z, r, z.3));
                        assert(parse_result(units@, goal, r, z.3));
                    }
                    return r;
                },
                Ok((t, end)) => {
                    assert(p < end) by {
                        assert(scanned is Ok);
                    }
                    let ghost a = run.last();
                    let ghost tr0 = trace@;
                    track_braces(&mut braces, t, end);
                    let next = feed(stack, t, Span { start: p, end }, newline, trace);
                    proof {
                        let q = choose|q: Seq<Production>|
                            fed(a.1, t, Span { start: p, end }, newline, next@, q) && trace@ == tr0
                                + q;
                        let z = (end as int, next@, braces@, a.3 + q);
                        assert(token_scan(units@, p as int, a.1, a.2, newline, Ok((t, end))));
                        assert(fed(a.1, t, Span { start: p as usize, end }, newline, z.1, q));
                        assert(drive_step(units@, a, z));
                        let run2 = run.push(z);
                        assert forall|i: int| 0 <= i < run2.len() - 1 implies #[trigger] drive_step(
                            units@,
                            run2[i],
                            run2[i + 1],
                        ) by {
                            if i < run.len() - 1 {
                                assert(run2[i] == run[i] && run2[i + 1] == run[i + 1]);
                            } else {
                                assert(run2[i] == a && run2[i + 1] == z);
                            }
                        }
                        run = run2;
                        at = end as int;
                        assert(trace@ =~= before + z.3);
                    }
                    stack = next;
                    pos = end;
                },
            }
        } else {
            pos = p;
        }
    }
    let ghost tr0 = trace@;
    let last = finish(stack, units.len(), trace);
    proof {
        if blank_input {
            lemma_empty_program(goal, units.len(), last@);
        }
        if at == pos as int {
            assert(blank_run(units@, at, units@.len() as int, false));
        }
    }
    let r = outcome(last, goal, units.len());
    proof {
        let z = run.last();
        let q = choose|q: Seq<Production>|
            finished(stack@, units.len(), last@, q) && trace@ == tr0 + q;
        let nl = choose|nl: bool| blank_run(units@, at, units@.len() as int, nl);
        assert(blank_run(units@, z.0, units@.len() as int, nl) && finished(
            z.1,
            units@.len() as usize,
            last@,
            q,
        ));
        assert(ending(units@, goal, z, r, z.3 + q));
        assert(parse_result(units@, goal, r, z.3 + q));
        assert(trace@ =~= before + (z.3 + q));
    }
    r
}

/// A `}` at `p` closes a template substitution: the innermost open
/// substitution has no brace of its own open.
pub open spec fn closes_substitution(units: Seq<u16>, p: int, braces: Seq<usize>) -> bool {
    units[p] == 125 && braces.len() > 0 && braces.last() == 0
}

/// Whether the `}` at `p` resumes a template literal.
pub fn resumes_template(units: &Vec<u16>, p: usize, braces: &Vec<usize>) -> (r: bool)
    requires
        p < units@.len(),
    ensures
        r == closes_substitution(units@, p as int, braces@),
{
    units[p] == 125 && braces.len() > 0 && braces[braces.len() - 1] == 0
}

/// The brace counters after token `t`, one per open template substitution,
/// innermost last: a template head opens a level and a tail closes one; a
/// `{` or `}` inside a substitution counts on its level.
pub open spec fn next_braces(b: Seq<usize>, t: Token) -> Seq<usize> {
    let n = b.len() as int;
    match t {
        Token::TemplateHead => b.push(0),
        Token::TemplateTail => if n > 0 {
            b.drop_last()
        } else {
            b
        },
        Token::Punct(Punct::LBrace) => if n > 0 {
            b.update(n - 1, (b[n - 1] + 1) as usize)
        } else {
            b
        },
        Token::Punct(Punct::RBrace) => if n > 0 && b[n - 1] > 0 {
            b.update(n - 1, (b[n - 1] - 1) as usize)
        } else {
            b
        },
        _ => b,
    }
}

/// Updates the brace counters for token `t`, which ends before `bound`.
pub fn track_braces(braces: &mut Vec<usize>, t: Token, bound: usize)
    requires
        forall|i: int| 0 <= i < old(braces)@.len() ==> #[trigger] old(braces)@[i] < bound,
    ensures
        final(braces)@ == next_braces(old(braces)@, t),
        forall|i: int| 0 <= i < final(braces)@.len() ==> #[trigger] final(braces)@[i] <= bound,
{
    let n = braces.len();
    match t {
        Token::TemplateHead => {
            braces.push(0);
        },
        Token::TemplateTail => {
            if n > 0 {
                braces.pop();
            }
        },
        Token::Punct(Punct::LBrace) => {
            if n > 0 {
                let v = braces[n - 1];
                braces.set(n - 1, v + 1);
            }
        },
        Token::Punct(Punct::RBrace) => {
            if n > 0 && braces[n - 1] > 0 {
                let v = braces[n - 1];
                braces.set(n - 1, v - 1);
            }
        },
        _ => {},
    }
    assert(braces@ =~= next_braces(old(braces)@, t));
}

/// Once a step finds no rule, no later step is taken.
proof fn lemma_iterate_stops(s: Seq<Symbol>, next: Symbol, j: nat, k: nat)
    requires
        iterate(s, next, j) is None,
        j <= k,
    ensures
        iterate(s, next, k) is None,
    decreases k - j,
{
    if j < k {
        lemma_iterate_stops(s, next, j, (k - 1) as nat);
    }
}

/// An empty program reduces to its goal.
proof fn lemma_empty_program(goal: Goal, at: usize, t: Seq<Symbol>)
    requires
        exists|p: Seq<Production>| finished(seq![Symbol::Start(goal)], at, t, p),
    ensures
        accepts(t, goal),
{
    let s = seq![Symbol::Start(goal)];
    let p = choose|p: Seq<Production>| finished(s, at, t, p);
    let (d, p1) = choose|d: Seq<Symbol>, p1: Seq<Production>|
        #[trigger] drains_with(s, Symbol::Eof, d, p1) && d.len() >= 1 && (!semicolon_at_end(
            d.last(),
        ) ==> exists|p4: Seq<Production>|
            #[trigger] drains_with(d.push(Symbol::Eof), Symbol::Eof, t, p4) && p == p1 + p4);
    assert forall|j: int| 0 <= j < rule_total() implies #[trigger] candidate(j, s, Symbol::Eof)
        is None by {
        reveal(rules_0);
        reveal(rules_1);
        reveal(rules_2);
        reveal(rules_3);
    }
    lemma_no_rule(s, Symbol::Eof, 0);
    let k = choose|k: nat|
        iterate(s, Symbol::Eof, k) == Some(d) && reduce_step(d, Symbol::Eof) is None && p1
            == trace_of(s, Symbol::Eof, k);
    if k > 0 {
        assert(iterate(s, Symbol::Eof, 0) == Some(s));
        assert(iterate(s, Symbol::Eof, 1) is None);
        lemma_iterate_stops(s, Symbol::Eof, 1, k);
    }
    assert(d == s);
    let e = s.push(Symbol::Eof);
    assert(e[e.len() - 2] is Start);
    assert(candidate(0, e, Symbol::Eof) is Some) by {
        reveal(rules_0);
        reveal(rules_1);
        reveal(rules_2);
        reveal(rules_3);
    }
    assert(rule_for(e, Symbol::Eof) == candidate(0, e, Symbol::Eof));
    let g = apply(e, rule_for(e, Symbol::Eof)->0);
    assert(g.len() == 1 && is_kind(g[0], goal_kind(goal))) by {
        reveal(rules_0);
        reveal(rules_1);
        reveal(rules_2);
        reveal(rules_3);
    }
    assert(iterate(e, Symbol::Eof, 0) == Some(e));
    assert(iterate(e, Symbol::Eof, 1) == Some(g));
    assert forall|j: int| 0 <= j < rule_total() implies #[trigger] candidate(j, g, Symbol::Eof)
        is None by {
        reveal(rules_0);
        reveal(rules_1);
        reveal(rules_2);
        reveal(rules_3);
    }
    lemma_no_rule(g, Symbol::Eof, 0);
    assert(iterate(e, Symbol::Eof, 2) is None);
    let p4 = choose|p4: Seq<Production>|
        #[trigger] drains_with(e, Symbol::Eof, t, p4) && p == p1 + p4;
    let j = choose|j: nat|
        iterate(e, Symbol::Eof, j) == Some(t) && reduce_step(t, Symbol::Eof) is None && p4
            == trace_of(e, Symbol::Eof, j);
    if j == 0 {
        assert(false);
    } else if j >= 2 {
        lemma_iterate_stops(e, Symbol::Eof, 2, j);
    }
}

/// Purity: a reduction step depends on the stack and the next symbol alone,
/// so equal inputs give equal results; where no rule applies, draining hands
/// the stack back as it is.
pub proof fn lemma_reduce_pure(s: Seq<Symbol>, t: Seq<Symbol>, next: Symbol)
    requires
        s == t,
    ensures
        reduce_step(s, next) == reduce_step(t, next),
        reduce_step(s, next) is None ==> drains_with(s, next, s, Seq::empty()),
{
    if reduce_step(s, next) is None {
        assert(iterate(s, next, 0) == Some(s));
        assert(trace_of(s, next, 0) == Seq::<Production>::empty());
    }
}

/// A stack that a non-empty one drains to is not empty.
proof fn lemma_drained_nonempty(s: Seq<Symbol>, next: Symbol, t: Seq<Symbol>)
    requires
        s.len() >= 1,
        s.len() <= usize::MAX,
        exists|p: Seq<Production>| drains_with(s, next, t, p),
    ensures
        t.len() >= 1,
{
    let p = choose|p: Seq<Production>| drains_with(s, next, t, p);
    let k = choose|k: nat|
        iterate(s, next, k) == Some(t) && reduce_step(t, next) is None && p == trace_of(s, next, k);
    lemma_iterate_bound(s, next, k);
}

/// After `k` consecutive reductions the weight has dropped by at least `k`,
/// the stack is no longer than before, and after one or more it still holds
/// a symbol.
pub proof fn lemma_iterate_bound(s: Seq<Symbol>, next: Symbol, k: nat)
    requires
        iterate(s, next, k) is Some,
        s.len() <= usize::MAX,
    ensures
        weight(iterate(s, next, k)->0) + k <= weight(s),
        iterate(s, next, k)->0.len() <= s.len(),
        k > 0 ==> iterate(s, next, k)->0.len() >= 1 && weight(iterate(s, next, k)->0) >= 1,
        k == 0 ==> iterate(s, next, k)->0 == s,
    decreases k,
{
    if k > 0 {
        let prev = iterate(s, next, (k - 1) as nat);
        assert(prev is Some);
        lemma_iterate_bound(s, next, (k - 1) as nat);
        lemma_step_weight(prev->0, next);
        lemma_rule_shape(prev->0, next);
    }
}

/// Reductions of a stack whose top is not the end-of-input marker keep the
/// start marker and one more symbol, and never put that marker on top.
proof fn lemma_iterate_open(s: Seq<Symbol>, next: Symbol, k: nat)
    requires
        iterate(s, next, k) is Some,
        k > 0,
        s.len() > 0,
        s.len() <= usize::MAX,
        s.last() != Symbol::Eof,
    ensures
        iterate(s, next, k)->0.len() >= 2,
        iterate(s, next, k)->0.last() != Symbol::Eof,
    decreases k,
{
    let prev = iterate(s, next, (k - 1) as nat);
    assert(prev is Some);
    lemma_iterate_bound(s, next, (k - 1) as nat);
    if k > 1 {
        lemma_iterate_open(s, next, (k - 1) as nat);
    }
    let p = prev->0;
    assert(reduce_step(p, next) is Some);
    lemma_rule_shape(p, next);
    let r = rule_for(p, next)->0;
    assert(apply(p, r).last() == r.result);
}

/// Termination bound: from a stack of `n` symbols, at most `n - 1`
/// consecutive reductions succeed (none from an empty stack).
pub proof fn lemma_reduction_bound(s: Seq<Symbol>, next: Symbol, k: nat)
    requires
        iterate(s, next, k) is Some,
        s.len() <= usize::MAX,
    ensures
        k == 0 || k + 1 <= s.len(),
{
    lemma_iterate_bound(s, next, k);
    if k > 0 {
        assert(iterate(s, next, 0) == Some(s));
        if iterate(s, next, 1) is None {
            lemma_iterate_stops(s, next, 1, k);
        }
        assert(reduce_step(s, next) is Some);
        lemma_rule_shape(s, next);
        if s.last() == Symbol::Eof {
            let r = rule_for(s, next)->0;
            let t = apply(s, r);
            assert(t.len() == 1);
            assert(iterate(s, next, 1) == Some(t));
            if rule_for(t, next) is Some {
                lemma_rule_shape(t, next);
                assert(false);
            }
            assert(iterate(s, next, 2) is None);
            if k >= 2 {
                lemma_iterate_stops(s, next, 2, k);
            }
        } else {
            lemma_iterate_open(s, next, k);
        }
    }
}

} // verus!
