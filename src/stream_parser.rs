//! The event protocol: each call reports what happened to the stack as a
//! parse event, for consumers that follow every derivation as it is made.
use vstd::prelude::*;
use crate::grammar::{
    find_rule, is_kind, lemma_rule_shape, reduce_step, rule_for, Goal, Kind, Production,
};
use crate::parser::{apply_reduction, parse_result, parse_traced, Outcome};

verus! {

/// The stack symbols are those of the sequential protocol: both protocols
/// share one grammar table and one reduction core.
pub type Symbol = crate::parser::Symbol;

/// What one call of the event protocol reports.
#[derive(Clone, Copy, Debug, PartialEq, Eq, Structural)]
pub enum ParseEvent {
    /// A reduction by this production was applied.
    Reduced(Production),
    /// No rule applies; more input is needed.
    NoRuleMatch,
    /// The stack is exactly the goal symbol.
    Accepted(Goal),
    /// No rule applies after end of input: the input is not in the language.
    Error,
}

/// The event that a call reports for stack `s` with `next` to follow.
pub open spec fn event_for(s: Seq<Symbol>, next: Symbol) -> ParseEvent {
    match rule_for(s, next) {
        Some(r) => ParseEvent::Reduced(r.production),
        None => if s.len() == 1 && is_kind(s[0], Kind::Script) {
            ParseEvent::Accepted(Goal::Script)
        } else if s.len() == 1 && is_kind(s[0], Kind::Module) {
            ParseEvent::Accepted(Goal::Module)
        } else if s.len() > 0 && s.last() == Symbol::Eof {
            ParseEvent::Error
        } else {
            ParseEvent::NoRuleMatch
        },
    }
}

/// Reduces the top of `stack` once, `next` being the symbol that will
/// follow, and reports the production applied; where no rule applies, the
/// stack comes back unchanged with `NoRuleMatch`, or with the verdict once
/// the input has ended.
pub fn reduce_once(stack: Vec<Symbol>, next: Symbol) -> (r: (ParseEvent, Vec<Symbol>))
    ensures
        r.0 == event_for(stack@, next),
        r.1@ == match reduce_step(stack@, next) {
            Some(t) => t,
            None => stack@,
        },
{
    match find_rule(&stack, next) {
        Some(rule) => {
            proof {
                lemma_rule_shape(stack@, next);
            }
            (ParseEvent::Reduced(rule.production), apply_reduction(stack, rule))
        },
        None => {
            let n = stack.len();
            let single = if n == 1 {
                match stack[0] {
                    Symbol::Nonterminal(k, _, _) => Some(k),
                    _ => None,
                }
            } else {
                None
            };
            if single == Some(Kind::Script) {
                (ParseEvent::Accepted(Goal::Script), stack)
            } else if single == Some(Kind::Module) {
                (ParseEvent::Accepted(Goal::Module), stack)
            } else if n > 0 && stack[n - 1] == Symbol::Eof {
                (ParseEvent::Error, stack)
            } else {
                (ParseEvent::NoRuleMatch, stack)
            }
        },
    }
}

/// The events of a whole parse of UTF-16 code units towards `goal`: one
/// `Reduced` per reduction of the parse, in order, then exactly one
/// `Accepted` or `Error`.
pub fn parse_events(units: &Vec<u16>, goal: Goal) -> (r: Vec<ParseEvent>)
    ensures
        exists|v: Outcome, p: Seq<Production>|
            #[trigger] parse_result(units@, goal, v, p) && r@.len() == p.len() + 1 && (forall|
                i: int,
            |
                0 <= i < p.len() ==> r@[i] == ParseEvent::Reduced(#[trigger] p[i])) && r@.last()
                == if v is Accepted {
                ParseEvent::Accepted(goal)
            } else {
                ParseEvent::Error
            },
{
    let mut trace: Vec<Production> = Vec::new();
    let verdict = parse_traced(units, goal, &mut trace);
    let mut events: Vec<ParseEvent> = Vec::new();
    let mut i: usize = 0;
    while i < trace.len()
        invariant
            i <= trace@.len(),
            events@.len() == i,
            forall|j: int| 0 <= j < i ==> events@[j] == ParseEvent::Reduced(trace@[j]),
        decreases trace@.len() - i,
    {
        events.push(ParseEvent::Reduced(trace[i]));
        i = i + 1;
    }
    match verdict {
        Outcome::Accepted(_) => events.push(ParseEvent::Accepted(goal)),
        _ => events.push(ParseEvent::Error),
    }
    proof {
        assert(trace@ =~= Seq::<Production>::empty() + trace@);
        assert(parse_result(units@, goal, verdict, trace@));
    }
    events
}

/// The two protocols agree: on every stack and next symbol the event
/// protocol reports a reduction exactly where the sequential one reduces, by
/// the rule that the grammar table names.
pub proof fn lemma_protocols_agree(s: Seq<Symbol>, next: Symbol)
    ensures
        event_for(s, next) is Reduced <==> reduce_step(s, next) is Some,
        event_for(s, next) is Reduced ==> event_for(s, next) == ParseEvent::Reduced(
            rule_for(s, next)->0.production,
        ),
{
}

} // verus!
