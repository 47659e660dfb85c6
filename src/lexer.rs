//! Lexical disambiguation: UTF-16 code units to terminal tokens.
use vstd::prelude::*;

verus! {

/// Reserved words recognised by the grammar.
#[derive(Clone, Copy, Debug, PartialEq, Eq, Structural)]
pub enum Keyword {
    Return,
    Export,
    Default,
}

/// Punctuators recognised by the grammar.
#[derive(Clone, Copy, Debug, PartialEq, Eq, Structural)]
pub enum Punct {
    Plus,
    Minus,
    Star,
    Slash,
    Assign,
    Arrow,
    LParen,
    RParen,
    Comma,
    Dot,
    Semicolon,
    LBrace,
    RBrace,
}

/// A classified lexical token.
#[derive(Clone, Copy, Debug, PartialEq, Eq, Structural)]
pub enum Token {
    Identifier,
    Number,
    /// A numeric literal of the legacy octal-like form: `0` and more digits.
    LegacyOctalNumber,
    Regex,
    /// A template literal without substitutions.
    NoSubstitutionTemplate,
    /// A template literal up to its first `${`.
    TemplateHead,
    /// From the `}` closing a substitution up to the next `${`.
    TemplateMiddle,
    /// From the `}` closing the last substitution up to the closing backtick.
    TemplateTail,
    Keyword(Keyword),
    Punct(Punct),
}

/// A range of code unit positions: `start` inclusive, `end` exclusive.
#[derive(Clone, Copy, Debug, PartialEq, Eq, Structural)]
pub struct Span {
    pub start: usize,
    pub end: usize,
}

/// Why a code unit sequence could not be classified.
#[derive(Clone, Copy, Debug, PartialEq, Eq, Structural)]
pub enum LexicalError {
    /// A code unit that starts no token.
    UnexpectedUnit,
    /// A regular expression literal without its closing `/` on the line.
    UnterminatedRegex,
    /// A template literal without its closing backtick.
    UnterminatedTemplate,
}

pub open spec fn is_line_terminator(c: u16) -> bool {
    c == 10 || c == 13 || c == 0x2028 || c == 0x2029
}

pub open spec fn is_blank(c: u16) -> bool {
    c == 9 || c == 11 || c == 12 || c == 32 || c == 0xA0 || c == 0xFEFF || is_line_terminator(c)
}

pub open spec fn is_digit(c: u16) -> bool {
    48 <= c <= 57
}

pub open spec fn is_id_start(c: u16) -> bool {
    (65 <= c <= 90) || (97 <= c <= 122) || c == 36 || c == 95
}

pub open spec fn is_id_part(c: u16) -> bool {
    is_id_start(c) || is_digit(c)
}

fn line_terminator(c: u16) -> (r: bool)
    ensures
        r == is_line_terminator(c),
{
    c == 10 || c == 13 || c == 0x2028 || c == 0x2029
}

fn blank(c: u16) -> (r: bool)
    ensures
        r == is_blank(c),
{
    c == 9 || c == 11 || c == 12 || c == 32 || c == 0xA0 || c == 0xFEFF || line_terminator(c)
}

fn digit(c: u16) -> (r: bool)
    ensures
        r == is_digit(c),
{
    48 <= c && c <= 57
}

fn id_start(c: u16) -> (r: bool)
    ensures
        r == is_id_start(c),
{
    (65 <= c && c <= 90) || (97 <= c && c <= 122) || c == 36 || c == 95
}

fn id_part(c: u16) -> (r: bool)
    ensures
        r == is_id_part(c),
{
    id_start(c) || digit(c)
}

/// Skips white space and line terminators from `pos`; returns where the next
/// token starts and whether a line terminator was crossed.
pub fn skip_blank(units: &Vec<u16>, pos: usize) -> (r: (usize, bool))
    requires
        pos <= units@.len(),
    ensures
        pos <= r.0 <= units@.len(),
        r.0 < units@.len() ==> !is_blank(units@[r.0 as int]),
        forall|k: int| pos <= k < r.0 ==> is_blank(#[trigger] units@[k]),
        r.1 == exists|k: int| pos <= k < r.0 && is_line_terminator(#[trigger] units@[k]),
{
    let mut p: usize = pos;
    let mut newline = false;
    while p < units.len() && blank(units[p])
        invariant
            pos <= p <= units@.len(),
            forall|k: int| pos <= k < p ==> is_blank(#[trigger] units@[k]),
            newline == exists|k: int| pos <= k < p && is_line_terminator(#[trigger] units@[k]),
        decreases units@.len() - p,
    {
        if line_terminator(units[p]) {
            newline = true;
        }
        p = p + 1;
        assert(newline == exists|k: int| pos <= k < p && is_line_terminator(#[trigger] units@[k]));
    }
    (p, newline)
}


/// The punctuator that a single code unit stands for, `=` and `/` aside.
pub open spec fn single_punct(c: u16) -> Option<Punct> {
    if c == 43 {
        Some(Punct::Plus)
    } else if c == 45 {
        Some(Punct::Minus)
    } else if c == 42 {
        Some(Punct::Star)
    } else if c == 40 {
        Some(Punct::LParen)
    } else if c == 41 {
        Some(Punct::RParen)
    } else if c == 44 {
        Some(Punct::Comma)
    } else if c == 46 {
        Some(Punct::Dot)
    } else if c == 59 {
        Some(Punct::Semicolon)
    } else if c == 123 {
        Some(Punct::LBrace)
    } else if c == 125 {
        Some(Punct::RBrace)
    } else {
        None
    }
}

/// The token that a complete identifier name stands for.
pub open spec fn word_token(w: Seq<u16>) -> Token {
    if w == seq![114u16, 101, 116, 117, 114, 110] {
        Token::Keyword(Keyword::Return)
    } else if w == seq![101u16, 120, 112, 111, 114, 116] {
        Token::Keyword(Keyword::Export)
    } else if w == seq![100u16, 101, 102, 97, 117, 108, 116] {
        Token::Keyword(Keyword::Default)
    } else {
        Token::Identifier
    }
}

fn punct_of(c: u16) -> (r: Option<Punct>)
    ensures
        r == single_punct(c),
{
    if c == 43 {
        Some(Punct::Plus)
    } else if c == 45 {
        Some(Punct::Minus)
    } else if c == 42 {
        Some(Punct::Star)
    } else if c == 40 {
        Some(Punct::LParen)
    } else if c == 41 {
        Some(Punct::RParen)
    } else if c == 44 {
        Some(Punct::Comma)
    } else if c == 46 {
        Some(Punct::Dot)
    } else if c == 59 {
        Some(Punct::Semicolon)
    } else if c == 123 {
        Some(Punct::LBrace)
    } else if c == 125 {
        Some(Punct::RBrace)
    } else {
        None
    }
}

fn word_at(units: &Vec<u16>, start: usize, end: usize) -> (r: Token)
    requires
        start <= end <= units@.len(),
    ensures
        r == word_token(units@.subrange(start as int, end as int)),
{
    let w = Ghost(units@.subrange(start as int, end as int));
    let n = end - start;
    if n == 6 && units[start] == 114 && units[start + 1] == 101 && units[start + 2] == 116
        && units[start + 3] == 117 && units[start + 4] == 114 && units[start + 5] == 110 {
        assert(w@ =~= seq![114u16, 101, 116, 117, 114, 110]);
        Token::Keyword(Keyword::Return)
    } else if n == 6 && units[start] == 101 && units[start + 1] == 120 && units[start + 2] == 112
        && units[start + 3] == 111 && units[start + 4] == 114 && units[start + 5] == 116 {
        assert(w@ =~= seq![101u16, 120, 112, 111, 114, 116]);
        Token::Keyword(Keyword::Export)
    } else if n == 7 && units[start] == 100 && units[start + 1] == 101 && units[start + 2] == 102
        && units[start + 3] == 97 && units[start + 4] == 117 && units[start + 5] == 108
        && units[start + 6] == 116 {
        assert(w@ =~= seq![100u16, 101, 102, 97, 117, 108, 116]);
        Token::Keyword(Keyword::Default)
    } else {
        assert(w@.len() == 6 ==> w@[0] == units@[start as int] && w@[1] == units@[start + 1]
            && w@[2] == units@[start + 2] && w@[3] == units@[start + 3]
            && w@[4] == units@[start + 4] && w@[5] == units@[start + 5]);
        assert(w@.len() == 7 ==> w@[0] == units@[start as int] && w@[1] == units@[start + 1]
            && w@[2] == units@[start + 2] && w@[3] == units@[start + 3]
            && w@[4] == units@[start + 4] && w@[5] == units@[start + 5]
            && w@[6] == units@[start + 6]);
        assert(w@ != seq![114u16, 101, 116, 117, 114, 110]) by {
            if w@ == seq![114u16, 101, 116, 117, 114, 110] {
                assert(w@.len() == 6);
            }
        }
        assert(w@ != seq![101u16, 120, 112, 111, 114, 116]) by {
            if w@ == seq![101u16, 120, 112, 111, 114, 116] {
                assert(w@.len() == 6);
            }
        }
        assert(w@ != seq![100u16, 101, 102, 97, 117, 108, 116]) by {
            if w@ == seq![100u16, 101, 102, 97, 117, 108, 116] {
                assert(w@.len() == 7);
            }
        }
        Token::Identifier
    }
}

/// What scanning the token at `pos` may give: see `scan_token`.
pub open spec fn scan_spec(
    units: Seq<u16>,
    pos: int,
    regex_allowed: bool,
    r: Result<(Token, usize), LexicalError>,
) -> bool {
    let c = units[pos];
    let end = r->Ok_0.1 as int;
    &&& is_id_start(c) ==> r is Ok && r->Ok_0.0 == word_token(
        units.subrange(pos, end),
    ) && (forall|k: int| pos <= k < end ==> is_id_part(#[trigger] units[k])) && (end
        == units.len() || !is_id_part(units[end]))
    &&& is_digit(c) ==> r is Ok && r->Ok_0.0 == (if c == 48 && end >= pos + 2 && is_digit(
        units[pos + 1],
    ) {
        Token::LegacyOctalNumber
    } else {
        Token::Number
    }) && (forall|k: int| pos <= k < end ==> is_digit(#[trigger] units[k]) || units[k] == 46)
        && (forall|k: int|
        pos <= k < end && #[trigger] units[k] == 46 ==> k + 1 < end && is_digit(units[k + 1])
            && r->Ok_0.0 == Token::Number && forall|j: int|
            pos <= j < k ==> is_digit(#[trigger] units[j])) && (end == units.len() || !is_digit(
        units[end],
    )) && (r->Ok_0.0 == Token::Number && (forall|k: int|
        pos <= k < end ==> #[trigger] units[k] != 46) ==> !(end + 1 < units.len() && units[end]
        == 46 && is_digit(units[end + 1])))
    &&& single_punct(c) is Some ==> r == Ok::<(Token, usize), LexicalError>(
        (Token::Punct(single_punct(c)->0), (pos + 1) as usize),
    )
    &&& c == 61 ==> r == Ok::<(Token, usize), LexicalError>(
        if pos + 1 < units.len() && units[pos + 1] == 62 {
            (Token::Punct(Punct::Arrow), (pos + 2) as usize)
        } else {
            (Token::Punct(Punct::Assign), (pos + 1) as usize)
        },
    )
    &&& c == 47 && !regex_allowed ==> r == Ok::<(Token, usize), LexicalError>(
        (Token::Punct(Punct::Slash), (pos + 1) as usize),
    )
    &&& c == 47 && regex_allowed ==> (r is Ok <==> exists|j: int|
        pos < j < units.len() && units[j] == 47 && forall|k: int|
            pos < k < j ==> !is_line_terminator(#[trigger] units[k]))
    &&& c == 47 && regex_allowed && r is Ok ==> r->Ok_0.0 == Token::Regex && exists|j: int|
        pos < j < end && units[j] == 47 && (forall|k: int|
            pos < k < j ==> units[k] != 47 && !is_line_terminator(#[trigger] units[k]))
            && (forall|k: int| j < k < end ==> is_id_part(#[trigger] units[k])) && (end
            == units.len() || !is_id_part(units[end]))
    &&& c == 47 && regex_allowed && r is Err ==> r == Err::<(Token, usize), LexicalError>(
        LexicalError::UnterminatedRegex,
    )
    &&& c == 96 ==> scan_template_spec(units, pos, true, r)
    &&& !is_id_start(c) && !is_digit(c) && single_punct(c) is None && c != 61 && c != 47
        && c != 96 ==> r == Err::<(Token, usize), LexicalError>(LexicalError::UnexpectedUnit)
}

/// Classifies the token that starts at `pos`. A `/` opens a regular
/// expression literal where `regex_allowed` holds and is the division
/// punctuator elsewhere. A regular expression body runs to the next `/` on
/// the same line, and its flags are the identifier parts that follow.
pub fn scan_token(units: &Vec<u16>, pos: usize, regex_allowed: bool) -> (r: Result<
    (Token, usize),
    LexicalError,
>)
    requires
        pos < units@.len(),
    ensures
        r is Ok ==> pos < r->Ok_0.1 <= units@.len(),
        scan_spec(units@, pos as int, regex_allowed, r),
{
    let n = units.len();
    assert(pos + 1 <= n);
    let c = units[pos];
    if id_start(c) {
        let mut end: usize = pos + 1;
        while end < units.len() && id_part(units[end])
            invariant
                pos < end <= units@.len(),
                c == units@[pos as int],
                forall|k: int| pos <= k < end ==> is_id_part(#[trigger] units@[k]),
            decreases units@.len() - end,
        {
            end = end + 1;
        }
        Ok((word_at(units, pos, end), end))
    } else if digit(c) {
        let mut end: usize = pos + 1;
        while end < units.len() && digit(units[end])
            invariant
                pos < end <= units@.len(),
                c == units@[pos as int],
                forall|k: int| pos <= k < end ==> is_digit(#[trigger] units@[k]),
            decreases units@.len() - end,
        {
            end = end + 1;
        }
        if c == 48 && end - pos >= 2 {
            return Ok((Token::LegacyOctalNumber, end));
        }
        if end < n - 1 && units[end] == 46 && digit(units[end + 1]) {
            let dot = end;
            let mut f: usize = end + 2;
            while f < n && digit(units[f])
                invariant
                    n == units@.len(),
                    dot + 2 <= f <= n,
                    pos < dot,
                    units@[dot as int] == 46,
                    is_digit(units@[dot + 1]),
                    forall|k: int| pos <= k < dot ==> is_digit(#[trigger] units@[k]),
                    forall|k: int| dot < k < f ==> is_digit(#[trigger] units@[k]),
                decreases n - f,
            {
                f = f + 1;
            }
            return Ok((Token::Number, f));
        }
        Ok((Token::Number, end))
    } else if c == 61 {
        if pos + 1 < units.len() && units[pos + 1] == 62 {
            Ok((Token::Punct(Punct::Arrow), pos + 2))
        } else {
            Ok((Token::Punct(Punct::Assign), pos + 1))
        }
    } else if c == 96 {
        scan_template(units, pos, true)
    } else if c == 47 {
        if !regex_allowed {
            return Ok((Token::Punct(Punct::Slash), pos + 1));
        }
        let mut j: usize = pos + 1;
        while j < units.len() && units[j] != 47 && !line_terminator(units[j])
            invariant
                pos < j <= units@.len(),
                forall|k: int| pos < k < j ==> units@[k] != 47 && !is_line_terminator(
                    #[trigger] units@[k],
                ),
            decreases units@.len() - j,
        {
            j = j + 1;
        }
        if j >= units.len() || units[j] != 47 {
            assert forall|i: int|
                pos < i < units@.len() && units@[i] == 47 implies exists|k: int|
                pos < k < i && is_line_terminator(#[trigger] units@[k]) by {
                assert(i >= j);
                assert(pos < j < i);
            }
            return Err(LexicalError::UnterminatedRegex);
        }
        assert(pos < j < units@.len() && units@[j as int] == 47 && forall|k: int|
            pos < k < j ==> !is_line_terminator(#[trigger] units@[k]));
        let mut end: usize = j + 1;
        while end < units.len() && id_part(units[end])
            invariant
                j < end <= units@.len(),
                forall|k: int| j < k < end ==> is_id_part(#[trigger] units@[k]),
            decreases units@.len() - end,
        {
            end = end + 1;
        }
        Ok((Token::Regex, end))
    } else {
        match punct_of(c) {
            Some(p) => Ok((Token::Punct(p), pos + 1)),
            None => Err(LexicalError::UnexpectedUnit),
        }
    }
}


/// Where a template part that continues at `j` ends: just after its closing
/// backtick (`Some((true, end))`) or just after the `${` that opens a
/// substitution (`Some((false, end))`); `None` where the input ends first. A
/// backslash escapes the unit after it.
pub open spec fn template_end(units: Seq<u16>, j: int) -> Option<(bool, int)>
    decreases units.len() - j,
{
    if j < 0 || j >= units.len() {
        None
    } else if units[j] == 92 {
        if j + 1 >= units.len() {
            None
        } else {
            template_end(units, j + 2)
        }
    } else if units[j] == 96 {
        Some((true, j + 1))
    } else if units[j] == 36 && j + 1 < units.len() && units[j + 1] == 123 {
        Some((false, j + 2))
    } else {
        template_end(units, j + 1)
    }
}

/// What a template scan from `pos` returns: the part up to the end that
/// `template_end` gives, which started the literal where `opening` holds and
/// resumed it after a substitution otherwise; or the error for a literal
/// that runs to the end of the input.
pub open spec fn scan_template_spec(
    units: Seq<u16>,
    pos: int,
    opening: bool,
    r: Result<(Token, usize), LexicalError>,
) -> bool {
    match template_end(units, pos + 1) {
        Some((closed, end)) => r == Ok::<(Token, usize), LexicalError>(
            (
                if closed && opening {
                    Token::NoSubstitutionTemplate
                } else if closed {
                    Token::TemplateTail
                } else if opening {
                    Token::TemplateHead
                } else {
                    Token::TemplateMiddle
                },
                end as usize,
            ),
        ),
        None => r == Err::<(Token, usize), LexicalError>(LexicalError::UnterminatedTemplate),
    }
}

/// Scans a template part that starts at `pos`, on its opening backtick
/// (`opening`) or on the `}` that closes a substitution.
pub fn scan_template(units: &Vec<u16>, pos: usize, opening: bool) -> (r: Result<
    (Token, usize),
    LexicalError,
>)
    requires
        pos < units@.len(),
    ensures
        scan_template_spec(units@, pos as int, opening, r),
        r is Ok ==> pos < r->Ok_0.1 <= units@.len(),
{
    let n = units.len();
    let mut j: usize = pos + 1;
    while j < n
        invariant
            n == units@.len(),
            pos < j <= n + 1,
            template_end(units@, pos + 1) == template_end(units@, j as int),
        decreases n - j,
    {
        let c = units[j];
        if c == 92 {
            if j + 1 >= n {
                return Err(LexicalError::UnterminatedTemplate);
            }
            j = j + 2;
        } else if c == 96 {
            let t = if opening {
                Token::NoSubstitutionTemplate
            } else {
                Token::TemplateTail
            };
            return Ok((t, j + 1));
        } else if c == 36 && j + 1 < n && units[j + 1] == 123 {
            let t = if opening {
                Token::TemplateHead
            } else {
                Token::TemplateMiddle
            };
            return Ok((t, j + 2));
        } else {
            j = j + 1;
        }
    }
    Err(LexicalError::UnterminatedTemplate)
}

} // verus!
