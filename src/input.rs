//! Parser of input files: bracketed sections of typed definitions.
use vstd::prelude::*;

use crate::ast::{Expression, Span, Type, SYM_MAIN};
use crate::errors::ParserError;

verus! {

/// Tokens of an input file.
#[derive(Clone, Copy, Debug, PartialEq, Eq, Structural)]
pub enum Token {
    LeftSquare,
    RightSquare,
    Colon,
    Assign,
    Semicolon,
    Const,
    Private,
    Public,
    Ident(u32),
    Int(u32),
    True,
    False,
    U32,
    Bool,
    FieldType,
    GroupType,
}

#[derive(Clone, Copy, Debug, PartialEq, Eq, Structural)]
pub struct SpannedToken {
    pub token: Token,
    pub span: Span,
}

/// `[const] [private] [public] name : type = value ;`
#[derive(Debug)]
pub struct Definition {
    pub const_: bool,
    pub private: bool,
    pub public: bool,
    pub name: u32,
    pub type_: Type,
    pub value: Expression,
    pub span: Span,
}

/// `[name]` followed by its definitions.
#[derive(Debug)]
pub struct Section {
    pub name: u32,
    pub span: Span,
    pub definitions: Vec<Definition>,
}

#[derive(Debug)]
pub struct ParsedInputFile {
    pub sections: Vec<Section>,
}

/// A token stream and the position of the next unread token.
pub struct ParserContext {
    pub tokens: Vec<SpannedToken>,
    pub pos: usize,
}

pub open spec fn token_at(toks: Seq<SpannedToken>, p: int) -> Option<Token> {
    if 0 <= p < toks.len() {
        Some(toks[p].token)
    } else {
        None
    }
}

/// The error for an unexpected token at `p`, or for the end of input.
pub open spec fn unexpected_at(toks: Seq<SpannedToken>, p: int) -> ParserError {
    if 0 <= p < toks.len() {
        ParserError::UnexpectedToken(toks[p].token, toks[p].span)
    } else {
        ParserError::UnexpectedEof
    }
}

pub open spec fn type_of_token(t: Token) -> Option<Type> {
    match t {
        Token::U32 => Some(Type::Integer),
        Token::Bool => Some(Type::Boolean),
        Token::FieldType => Some(Type::Field),
        Token::GroupType => Some(Type::Group),
        _ => None,
    }
}

pub open spec fn primary_of_token(t: Token) -> Option<Expression> {
    match t {
        Token::Int(n) => Some(Expression::Integer(n)),
        Token::True => Some(Expression::Boolean(true)),
        Token::False => Some(Expression::Boolean(false)),
        Token::Ident(s) => Some(Expression::Identifier(s)),
        _ => None,
    }
}

pub open spec fn starts_definition(t: Option<Token>) -> bool {
    match t {
        Some(Token::Const) | Some(Token::Private) | Some(Token::Public) | Some(Token::Ident(_)) => true,
        _ => false,
    }
}

/// The qualifier rule: only in `main` must exactly one qualifier be given.
pub open spec fn qualifier_error(is_main: bool, c: bool, pr: bool, pu: bool) -> Option<ParserError> {
    let n = (if c { 1int } else { 0 }) + (if pr { 1int } else { 0 }) + (if pu { 1int } else { 0 });
    if is_main && n == 0 {
        Some(ParserError::InputsNoVariableTypeSpecified)
    } else if is_main && n > 1 {
        Some(ParserError::InputsMultipleVariableTypesSpecified)
    } else {
        None
    }
}

/// One definition read from `pos`: the definition and the position after it.
pub open spec fn parse_definition_spec(toks: Seq<SpannedToken>, pos: int, is_main: bool) -> Result<
    (Definition, int),
    ParserError,
> {
    let c = token_at(toks, pos) == Some(Token::Const);
    let p0 = if c { pos + 1 } else { pos };
    let pr = token_at(toks, p0) == Some(Token::Private);
    let p1 = if pr { p0 + 1 } else { p0 };
    let pu = token_at(toks, p1) == Some(Token::Public);
    let p = if pu { p1 + 1 } else { p1 };
    if qualifier_error(is_main, c, pr, pu).is_some() {
        Err(qualifier_error(is_main, c, pr, pu).unwrap())
    } else if !(token_at(toks, p) matches Some(Token::Ident(_))) {
        Err(unexpected_at(toks, p))
    } else if token_at(toks, p + 1) != Some(Token::Colon) {
        Err(unexpected_at(toks, p + 1))
    } else if token_at(toks, p + 2).is_none() || type_of_token(toks[p + 2].token).is_none() {
        Err(unexpected_at(toks, p + 2))
    } else if token_at(toks, p + 3) != Some(Token::Assign) {
        Err(unexpected_at(toks, p + 3))
    } else if token_at(toks, p + 4).is_none() || primary_of_token(toks[p + 4].token).is_none() {
        Err(unexpected_at(toks, p + 4))
    } else if token_at(toks, p + 5) != Some(Token::Semicolon) {
        Err(unexpected_at(toks, p + 5))
    } else {
        Ok(
            (
                Definition {
                    const_: c,
                    private: pr,
                    public: pu,
                    name: toks[p].token->Ident_0,
                    type_: type_of_token(toks[p + 2].token).unwrap(),
                    value: primary_of_token(toks[p + 4].token).unwrap(),
                    span: toks[p + 2].span,
                },
                p + 6,
            ),
        )
    }
}

/// Definitions read from `pos` for as long as one starts there.
pub open spec fn parse_definitions_spec(toks: Seq<SpannedToken>, pos: int, is_main: bool) -> Result<
    (Seq<Definition>, int),
    ParserError,
>
    decreases toks.len() - pos,
{
    if pos < 0 || !starts_definition(token_at(toks, pos)) {
        Ok((seq![], pos))
    } else {
        match parse_definition_spec(toks, pos, is_main) {
            Err(e) => Err(e),
            Ok((d, q)) => if q <= pos {
                Ok((seq![], pos))
            } else {
                match parse_definitions_spec(toks, q, is_main) {
                    Err(e) => Err(e),
                    Ok((ds, r)) => Ok((seq![d].add(ds), r)),
                }
            },
        }
    }
}

/// A section read from `pos`: its name, span, definitions and the position after it.
pub open spec fn parse_section_spec(toks: Seq<SpannedToken>, pos: int) -> Result<
    (u32, Span, Seq<Definition>, int),
    ParserError,
> {
    if token_at(toks, pos) != Some(Token::LeftSquare) {
        Err(unexpected_at(toks, pos))
    } else if !(token_at(toks, pos + 1) matches Some(Token::Ident(_))) {
        Err(unexpected_at(toks, pos + 1))
    } else if token_at(toks, pos + 2) != Some(Token::RightSquare) {
        Err(unexpected_at(toks, pos + 2))
    } else {
        let name = toks[pos + 1].token->Ident_0;
        match parse_definitions_spec(toks, pos + 3, name == SYM_MAIN) {
            Err(e) => Err(e),
            Ok((ds, r)) => Ok((name, toks[pos + 1].span, ds, r)),
        }
    }
}

/// Sections read from `pos` up to the end of input.
pub open spec fn parse_sections_spec(toks: Seq<SpannedToken>, pos: int) -> Result<
    Seq<(u32, Span, Seq<Definition>)>,
    ParserError,
>
    decreases toks.len() - pos,
{
    if pos < 0 || pos >= toks.len() {
        Ok(seq![])
    } else if toks[pos].token != Token::LeftSquare {
        Err(unexpected_at(toks, pos))
    } else {
        match parse_section_spec(toks, pos) {
            Err(e) => Err(e),
            Ok((n, s, ds, q)) => if q <= pos || q > toks.len() {
                Ok(seq![])
            } else {
                match parse_sections_spec(toks, q) {
                    Err(e) => Err(e),
                    Ok(ss) => Ok(seq![(n, s, ds)].add(ss)),
                }
            },
        }
    }
}

pub open spec fn section_view(s: Section) -> (u32, Span, Seq<Definition>) {
    (s.name, s.span, s.definitions@)
}

proof fn lemma_definition_advances(toks: Seq<SpannedToken>, pos: int, is_main: bool)
    ensures
        parse_definition_spec(toks, pos, is_main) matches Ok((_, q)) ==> q > pos,
{
}

proof fn lemma_section_advances(toks: Seq<SpannedToken>, pos: int)
    ensures
        parse_section_spec(toks, pos) matches Ok((_, _, _, q)) ==> q >= pos + 3,
{
    let name = toks[pos + 1].token->Ident_0;
    lemma_definitions_advance(toks, pos + 3, name == SYM_MAIN);
}

proof fn lemma_definitions_advance(toks: Seq<SpannedToken>, pos: int, is_main: bool)
    ensures
        parse_definitions_spec(toks, pos, is_main) matches Ok((_, q)) ==> q >= pos,
    decreases toks.len() - pos,
{
    if pos >= 0 && starts_definition(token_at(toks, pos)) {
        if let Ok((_, q)) = parse_definition_spec(toks, pos, is_main) {
            if q > pos {
                lemma_definitions_advance(toks, q, is_main);
            }
        }
    }
}

/// How many of `const`, `private`, `public` lead a definition at `pos`.
pub open spec fn qualifier_count(toks: Seq<SpannedToken>, pos: int) -> int {
    let c = token_at(toks, pos) == Some(Token::Const);
    let p0 = if c { pos + 1 } else { pos };
    let pr = token_at(toks, p0) == Some(Token::Private);
    let p1 = if pr { p0 + 1 } else { p0 };
    let pu = token_at(toks, p1) == Some(Token::Public);
    (if c { 1int } else { 0 }) + (if pr { 1int } else { 0 }) + (if pu { 1int } else { 0 })
}

/// Whether `name : type = value ;` stands at `p`.
pub open spec fn well_formed_body(toks: Seq<SpannedToken>, p: int) -> bool {
    &&& token_at(toks, p) matches Some(Token::Ident(_))
    &&& token_at(toks, p + 1) == Some(Token::Colon)
    &&& token_at(toks, p + 2) is Some && type_of_token(toks[p + 2].token) is Some
    &&& token_at(toks, p + 3) == Some(Token::Assign)
    &&& token_at(toks, p + 4) is Some && primary_of_token(toks[p + 4].token) is Some
    &&& token_at(toks, p + 5) == Some(Token::Semicolon)
}

/// The qualifier rule: in `main`, no qualifier and more than one qualifier
/// each fail with their own error; elsewhere a well-formed definition with
/// no qualifier is accepted.
pub proof fn lemma_qualifier_rule(toks: Seq<SpannedToken>, pos: int)
    ensures
        qualifier_count(toks, pos) == 0 ==> parse_definition_spec(toks, pos, true) == Err::<
            (Definition, int),
            ParserError,
        >(ParserError::InputsNoVariableTypeSpecified),
        qualifier_count(toks, pos) > 1 ==> parse_definition_spec(toks, pos, true) == Err::<
            (Definition, int),
            ParserError,
        >(ParserError::InputsMultipleVariableTypesSpecified),
        qualifier_count(toks, pos) == 0 && well_formed_body(toks, pos) ==> parse_definition_spec(
            toks,
            pos,
            false,
        ) is Ok,
{
}

impl ParserContext {
    /// The position lies within the stream, and the stream leaves room for look-ahead.
    pub open spec fn wf(&self) -> bool {
        self.pos <= self.tokens.len() && self.tokens.len() + 16 < usize::MAX
    }

    pub fn new(tokens: Vec<SpannedToken>) -> (r: ParserContext)
        requires
            tokens.len() + 16 < usize::MAX,
        ensures
            r.wf(),
            r.tokens@ == tokens@,
            r.pos == 0,
    {
        ParserContext { tokens, pos: 0 }
    }

    fn token(&self, p: usize) -> (r: Option<Token>)
        ensures
            r == token_at(self.tokens@, p as int),
    {
        if p < self.tokens.len() {
            Some(self.tokens[p].token)
        } else {
            None
        }
    }

    fn at_definition(&self) -> (r: bool)
        ensures
            r == starts_definition(token_at(self.tokens@, self.pos as int)),
    {
        match self.token(self.pos) {
            Some(Token::Const) | Some(Token::Private) | Some(Token::Public) | Some(Token::Ident(_)) => true,
            _ => false,
        }
    }

    fn unexpected(&self, p: usize) -> (r: ParserError)
        ensures
            r == unexpected_at(self.tokens@, p as int),
    {
        if p < self.tokens.len() {
            ParserError::UnexpectedToken(self.tokens[p].token, self.tokens[p].span)
        } else {
            ParserError::UnexpectedEof
        }
    }

    /// Parses `[const] [private] [public] name : type = value ;` at the current
    /// position; in the `main` section exactly one qualifier is required.
    pub fn parse_input_definition(&mut self, is_main: bool) -> (r: Result<Definition, ParserError>)
        requires
            old(self).wf(),
        ensures
            final(self).wf(),
            final(self).tokens@ == old(self).tokens@,
            match parse_definition_spec(old(self).tokens@, old(self).pos as int, is_main) {
                Ok((d, q)) => r == Ok::<Definition, ParserError>(d) && final(self).pos == q,
                Err(e) => r == Err::<Definition, ParserError>(e),
            },
    {
        let pos = self.pos;
        let c = self.token(pos) == Some(Token::Const);
        let p0: usize = if c { pos + 1 } else { pos };
        let pr = self.token(p0) == Some(Token::Private);
        let p1: usize = if pr { p0 + 1 } else { p0 };
        let pu = self.token(p1) == Some(Token::Public);
        let p: usize = if pu { p1 + 1 } else { p1 };
        if is_main && !c && !pr && !pu {
            return Err(ParserError::InputsNoVariableTypeSpecified);
        }
        if is_main && !((c && !pr && !pu) || (!c && pr && !pu) || (!c && !pr && pu)) {
            return Err(ParserError::InputsMultipleVariableTypesSpecified);
        }
        let name = match self.token(p) {
            Some(Token::Ident(n)) => n,
            _ => return Err(self.unexpected(p)),
        };
        if self.token(p + 1) != Some(Token::Colon) {
            return Err(self.unexpected(p + 1));
        }
        let type_ = match self.token(p + 2) {
            Some(Token::U32) => Type::Integer,
            Some(Token::Bool) => Type::Boolean,
            Some(Token::FieldType) => Type::Field,
            Some(Token::GroupType) => Type::Group,
            _ => return Err(self.unexpected(p + 2)),
        };
        let span = self.tokens[p + 2].span;
        if self.token(p + 3) != Some(Token::Assign) {
            return Err(self.unexpected(p + 3));
        }
        let value = match self.token(p + 4) {
            Some(Token::Int(n)) => Expression::Integer(n),
            Some(Token::True) => Expression::Boolean(true),
            Some(Token::False) => Expression::Boolean(false),
            Some(Token::Ident(s)) => Expression::Identifier(s),
            _ => return Err(self.unexpected(p + 4)),
        };
        if self.token(p + 5) != Some(Token::Semicolon) {
            return Err(self.unexpected(p + 5));
        }
        assert(p + 5 < self.tokens.len());
        self.pos = p + 6;
        Ok(Definition { const_: c, private: pr, public: pu, name, type_, value, span })
    }
}


impl ParserContext {
    /// Parses `[name]` followed by definitions for as long as one starts.
    pub fn parse_section(&mut self) -> (r: Result<Section, ParserError>)
        requires
            old(self).wf(),
        ensures
            final(self).wf(),
            final(self).tokens@ == old(self).tokens@,
            match parse_section_spec(old(self).tokens@, old(self).pos as int) {
                Ok((n, sp, ds, q)) => r is Ok && section_view(r->Ok_0) == (n, sp, ds)
                    && final(self).pos == q,
                Err(e) => r == Err::<Section, ParserError>(e),
            },
    {
        let pos = self.pos;
        if self.token(pos) != Some(Token::LeftSquare) {
            return Err(self.unexpected(pos));
        }
        let name = match self.token(pos + 1) {
            Some(Token::Ident(n)) => n,
            _ => return Err(self.unexpected(pos + 1)),
        };
        let span = self.tokens[pos + 1].span;
        if self.token(pos + 2) != Some(Token::RightSquare) {
            return Err(self.unexpected(pos + 2));
        }
        self.pos = pos + 3;
        let is_main = name == SYM_MAIN;
        let ghost toks = self.tokens@;
        let mut definitions: Vec<Definition> = Vec::new();
        proof {
            if let Ok((ds, q)) = parse_definitions_spec(toks, pos + 3, is_main) {
                assert(definitions@.add(ds) =~= ds);
            }
        }
        while self.at_definition()
            invariant
                self.wf(),
                self.tokens@ == toks,
                toks == old(self).tokens@,
                pos == old(self).pos,
                name == toks[pos + 1].token->Ident_0,
                span == toks[pos + 1].span,
                is_main == (name == SYM_MAIN),
                parse_section_spec(toks, pos as int) == match parse_definitions_spec(toks, pos + 3, is_main) {
                    Err(e) => Err(e),
                    Ok((ds, q)) => Ok((name, span, ds, q)),
                },
                pos + 3 <= self.pos,
                parse_definitions_spec(toks, pos + 3, is_main) == match parse_definitions_spec(
                    toks,
                    self.pos as int,
                    is_main,
                ) {
                    Ok((ds, q)) => Ok((definitions@.add(ds), q)),
                    Err(e) => Err(e),
                },
            decreases self.tokens.len() - self.pos,
        {
            let ghost before = self.pos;
            let d = match self.parse_input_definition(is_main) {
                Ok(d) => d,
                Err(e) => {
                    assert(starts_definition(token_at(toks, before as int)));
                    assert(parse_definitions_spec(toks, before as int, is_main) == Err::<
                        (Seq<Definition>, int),
                        ParserError,
                    >(e));
                    assert(parse_definitions_spec(toks, pos + 3, is_main) == Err::<
                        (Seq<Definition>, int),
                        ParserError,
                    >(e));
                    return Err(e);
                },
            };
            proof {
                lemma_definition_advances(toks, before as int, is_main);
                let rest = parse_definitions_spec(toks, self.pos as int, is_main);
                if let Ok((ds, q)) = rest {
                    assert(definitions@.push(d).add(ds) =~= definitions@.add(seq![d].add(ds)));
                }
            }
            definitions.push(d);
        }
        assert(definitions@.add(seq![]) =~= definitions@);
        Ok(Section { name, span, definitions })
    }

    /// Parses every section up to the end of input; anything but `[` where a
    /// section should start is an unexpected token.
    pub fn parse_input(&mut self) -> (r: Result<ParsedInputFile, ParserError>)
        requires
            old(self).wf(),
        ensures
            final(self).tokens@ == old(self).tokens@,
            match parse_sections_spec(old(self).tokens@, old(self).pos as int) {
                Ok(ss) => r is Ok && r->Ok_0.sections@.map_values(|s: Section| section_view(s)) == ss,
                Err(e) => r == Err::<ParsedInputFile, ParserError>(e),
            },
    {
        let ghost toks = self.tokens@;
        let ghost start = self.pos as int;
        let mut sections: Vec<Section> = Vec::new();
        proof {
            if let Ok(ss) = parse_sections_spec(toks, start) {
                assert(sections@.map_values(|s: Section| section_view(s)).add(ss) =~= ss);
            }
        }
        while self.pos < self.tokens.len()
            invariant
                self.wf(),
                self.tokens@ == toks,
                toks == old(self).tokens@,
                start == old(self).pos,
                parse_sections_spec(toks, start) == match parse_sections_spec(toks, self.pos as int) {
                    Ok(ss) => Ok(sections@.map_values(|s: Section| section_view(s)).add(ss)),
                    Err(e) => Err(e),
                },
            decreases self.tokens.len() - self.pos,
        {
            if self.tokens[self.pos].token != Token::LeftSquare {
                return Err(self.unexpected(self.pos));
            }
            let ghost before = self.pos;
            let s = match self.parse_section() {
                Ok(s) => s,
                Err(e) => return Err(e),
            };
            proof {
                lemma_section_advances(toks, before as int);
                let rest = parse_sections_spec(toks, self.pos as int);
                if let Ok(ss) = rest {
                    assert(sections@.push(s).map_values(|s: Section| section_view(s)).add(ss)
                        =~= sections@.map_values(|s: Section| section_view(s)).add(
                        seq![section_view(s)].add(ss),
                    ));
                }
            }
            sections.push(s);
        }
        proof {
            assert(sections@.map_values(|s: Section| section_view(s)).add(seq![])
                =~= sections@.map_values(|s: Section| section_view(s)));
        }
        Ok(ParsedInputFile { sections })
    }
}

} // verus!
