use vstd::prelude::*;
use crate::token::{Token, TokenView, integer_text, token_text, token_views};
use crate::ast::{ASTNode, AstView, ast_view, ast_views};
use crate::lookahead_iterator::{LookAheadIterator, ToLookaheadIterator};

verus! {

broadcast use crate::lookahead_iterator::lemma_position_nonneg, crate::lookahead_iterator::lemma_wf_position;

/// Why syntax analysis stopped.  Every rule fails immediately and
/// unrecoverably: no partial tree is returned and no resynchronisation is
/// attempted.  Where a name or an offending token was already read, the
/// error carries it as context.
#[derive(Debug)]
pub enum ParseError {
    /// An opening delimiter was never matched by its closing counterpart
    /// before the input ended.
    UnterminatedConstruct,
    /// A construct requiring an identifier found none.
    MissingName,
    /// A required punctuation or keyword token was absent; the payload is
    /// the name of the construct being parsed, where one was already read.
    MissingDelimiter(Option<String>),
    /// A field or parameter of this name lacked its `: type` suffix.
    MissingTypeAnnotation(String),
    /// A field binding of this name lacked its `= value` suffix.
    MissingValue(String),
    /// A statement or instruction position held this token, which matches
    /// none of the allowed leading tokens.
    UnexpectedToken(String),
    /// No tokens were available where a construct was required.
    EmptyInput,
}

/// The mathematical image of a `ParseError`: identical in shape, with each
/// context payload abstracted to its character sequence.
pub enum ParseErrorView {
    UnterminatedConstruct,
    MissingName,
    MissingDelimiter(Option<Seq<char>>),
    MissingTypeAnnotation(Seq<char>),
    MissingValue(Seq<char>),
    UnexpectedToken(Seq<char>),
    EmptyInput,
}

impl View for ParseError {
    type V = ParseErrorView;

    open spec fn view(&self) -> ParseErrorView {
        match self {
            ParseError::UnterminatedConstruct => ParseErrorView::UnterminatedConstruct,
            ParseError::MissingName => ParseErrorView::MissingName,
            ParseError::MissingDelimiter(context) => ParseErrorView::MissingDelimiter(
                match context {
                    Some(name) => Some(name@),
                    None => None,
                },
            ),
            ParseError::MissingTypeAnnotation(name) => ParseErrorView::MissingTypeAnnotation(
                name@,
            ),
            ParseError::MissingValue(name) => ParseErrorView::MissingValue(name@),
            ParseError::UnexpectedToken(text) => ParseErrorView::UnexpectedToken(text@),
            ParseError::EmptyInput => ParseErrorView::EmptyInput,
        }
    }
}

impl PartialEq for ParseError {
    fn eq(&self, other: &ParseError) -> (r: bool)
    {
        match self {
            ParseError::UnterminatedConstruct => matches!(
                other,
                ParseError::UnterminatedConstruct,
            ),
            ParseError::MissingName => matches!(other, ParseError::MissingName),
            ParseError::MissingDelimiter(context) => match other {
                ParseError::MissingDelimiter(other_context) => match (context, other_context) {
                    (Some(name), Some(other_name)) => *name == *other_name,
                    (None, None) => true,
                    _ => false,
                },
                _ => false,
            },
            ParseError::MissingTypeAnnotation(name) => match other {
                ParseError::MissingTypeAnnotation(other_name) => *name == *other_name,
                _ => false,
            },
            ParseError::MissingValue(name) => match other {
                ParseError::MissingValue(other_name) => *name == *other_name,
                _ => false,
            },
            ParseError::UnexpectedToken(text) => match other {
                ParseError::UnexpectedToken(other_text) => *text == *other_text,
                _ => false,
            },
            ParseError::EmptyInput => matches!(other, ParseError::EmptyInput),
        }
    }
}

impl vstd::std_specs::cmp::PartialEqSpecImpl for ParseError {
    open spec fn obeys_eq_spec() -> bool {
        true
    }

    open spec fn eq_spec(&self, other: &ParseError) -> bool {
        self@ == other@
    }
}

/// The token at `pos`, or `None` past the end: the lookahead of the parser,
/// stated over the token sequence.
pub open spec fn token_at(toks: Seq<TokenView>, pos: int) -> Option<TokenView> {
    if 0 <= pos < toks.len() {
        Some(toks[pos])
    } else {
        None
    }
}

/// `Field := SYM ':' SYM`
pub open spec fn spec_parse_field(toks: Seq<TokenView>, pos: int) -> Result<
    (AstView, int),
    ParseErrorView,
> {
    match token_at(toks, pos) {
        Some(TokenView::Symbol(name)) => match token_at(toks, pos + 1) {
            Some(TokenView::Colon) => match token_at(toks, pos + 2) {
                Some(TokenView::Symbol(field_type)) => Ok(
                    (AstView::Field(name, field_type), pos + 3),
                ),
                _ => Err(ParseErrorView::MissingTypeAnnotation(name)),
            },
            _ => Err(ParseErrorView::MissingTypeAnnotation(name)),
        },
        _ => Err(ParseErrorView::MissingName),
    }
}

/// `Parameter := SYM ':' SYM`
pub open spec fn spec_parse_parameter(toks: Seq<TokenView>, pos: int) -> Result<
    (AstView, int),
    ParseErrorView,
> {
    match token_at(toks, pos) {
        Some(TokenView::Symbol(name)) => match token_at(toks, pos + 1) {
            Some(TokenView::Colon) => match token_at(toks, pos + 2) {
                Some(TokenView::Symbol(parameter_type)) => Ok(
                    (AstView::Parameter(name, parameter_type), pos + 3),
                ),
                _ => Err(ParseErrorView::MissingTypeAnnotation(name)),
            },
            _ => Err(ParseErrorView::MissingTypeAnnotation(name)),
        },
        _ => Err(ParseErrorView::MissingName),
    }
}

/// `FieldValue := SYM '=' SYM`
pub open spec fn spec_parse_field_value(toks: Seq<TokenView>, pos: int) -> Result<
    (AstView, int),
    ParseErrorView,
> {
    match token_at(toks, pos) {
        Some(TokenView::Symbol(name)) => match token_at(toks, pos + 1) {
            Some(TokenView::Equal) => match token_at(toks, pos + 2) {
                Some(TokenView::Symbol(value)) => Ok((AstView::FieldValue(name, value), pos + 3)),
                Some(TokenView::Integer(value)) => Ok(
                    (AstView::FieldValue(name, integer_text(value as int)), pos + 3),
                ),
                _ => Err(ParseErrorView::MissingValue(name)),
            },
            _ => Err(ParseErrorView::MissingValue(name)),
        },
        _ => Err(ParseErrorView::MissingName),
    }
}

/// `Value := SYM ('.' SYM)?` — the dotted text is kept verbatim; a `Value`
/// never fails, and consumes nothing when no symbol is present.
pub open spec fn spec_parse_value(toks: Seq<TokenView>, pos: int) -> (AstView, int) {
    match token_at(toks, pos) {
        Some(TokenView::Symbol(first)) => {
            if token_at(toks, pos + 1) == Some(TokenView::Dot) {
                match token_at(toks, pos + 2) {
                    Some(TokenView::Symbol(second)) => (
                        AstView::Value(first + seq!['.'] + second),
                        pos + 3,
                    ),
                    _ => (AstView::Value(first + seq!['.']), pos + 2),
                }
            } else {
                (AstView::Value(first), pos + 1)
            }
        },
        _ => (AstView::Value(Seq::empty()), pos),
    }
}

/// The declared extension point of the grammar: the expression language is
/// not yet specified, so one token is consumed (if any is left) and an
/// explicit placeholder node is produced.
pub open spec fn spec_parse_expression(toks: Seq<TokenView>, pos: int) -> (AstView, int) {
    (
        AstView::Expression(Box::new(AstView::Value(Seq::empty()))),
        if 0 <= pos < toks.len() {
            pos + 1
        } else {
            pos
        },
    )
}

/// The statement inside a `for` head is the same unfinished extension point
/// as an expression.
pub open spec fn spec_parse_statement(toks: Seq<TokenView>, pos: int) -> (AstView, int) {
    spec_parse_expression(toks, pos)
}

/// `LetDecl := 'let'? SYM '=' Expression`
pub open spec fn spec_parse_declaration(toks: Seq<TokenView>, pos: int) -> Result<
    (AstView, int),
    ParseErrorView,
> {
    let start = if token_at(toks, pos) == Some(TokenView::Let) {
        pos + 1
    } else {
        pos
    };
    match token_at(toks, start) {
        Some(TokenView::Symbol(variable_name)) => {
            if token_at(toks, start + 1) == Some(TokenView::Equal) {
                let (value, p2) = spec_parse_expression(toks, start + 2);
                Ok((AstView::Declaration(variable_name, Box::new(value)), p2))
            } else {
                Err(ParseErrorView::MissingDelimiter(Some(variable_name)))
            }
        },
        _ => Err(ParseErrorView::MissingName),
    }
}

/// `(Field (','? Field)*)?` up to (not consuming) the closing brace.
/// Separators are optional between elements; running out of input before
/// the closing brace is an `UnterminatedConstruct`.
pub open spec fn spec_parse_field_list(toks: Seq<TokenView>, pos: int) -> Result<
    (Seq<AstView>, int),
    ParseErrorView,
>
    decreases toks.len() - pos,
{
    match token_at(toks, pos) {
        None => Err(ParseErrorView::UnterminatedConstruct),
        Some(TokenView::RBrace) => Ok((Seq::empty(), pos)),
        Some(t) => {
            let start = if t == TokenView::Comma {
                pos + 1
            } else {
                pos
            };
            match spec_parse_field(toks, start) {
                Ok((field, p2)) => match spec_parse_field_list(toks, p2) {
                    Ok((rest, p3)) => Ok((seq![field] + rest, p3)),
                    Err(e) => Err(e),
                },
                Err(e) => Err(e),
            }
        },
    }
}

/// `(Parameter (','? Parameter)*)?` up to (not consuming) the closing
/// parenthesis.
pub open spec fn spec_parse_parameter_list(toks: Seq<TokenView>, pos: int) -> Result<
    (Seq<AstView>, int),
    ParseErrorView,
>
    decreases toks.len() - pos,
{
    match token_at(toks, pos) {
        None => Err(ParseErrorView::UnterminatedConstruct),
        Some(TokenView::RParenthesis) => Ok((Seq::empty(), pos)),
        Some(t) => {
            let start = if t == TokenView::Comma {
                pos + 1
            } else {
                pos
            };
            match spec_parse_parameter(toks, start) {
                Ok((parameter, p2)) => match spec_parse_parameter_list(toks, p2) {
                    Ok((rest, p3)) => Ok((seq![parameter] + rest, p3)),
                    Err(e) => Err(e),
                },
                Err(e) => Err(e),
            }
        },
    }
}

/// `(FieldValue (','? FieldValue)*)?` up to (not consuming) the closing
/// parenthesis.
pub open spec fn spec_parse_field_value_list(toks: Seq<TokenView>, pos: int) -> Result<
    (Seq<AstView>, int),
    ParseErrorView,
>
    decreases toks.len() - pos,
{
    match token_at(toks, pos) {
        None => Err(ParseErrorView::UnterminatedConstruct),
        Some(TokenView::RParenthesis) => Ok((Seq::empty(), pos)),
        Some(t) => {
            let start = if t == TokenView::Comma {
                pos + 1
            } else {
                pos
            };
            match spec_parse_field_value(toks, start) {
                Ok((field_value, p2)) => match spec_parse_field_value_list(toks, p2) {
                    Ok((rest, p3)) => Ok((seq![field_value] + rest, p3)),
                    Err(e) => Err(e),
                },
                Err(e) => Err(e),
            }
        },
    }
}

/// The action names of a `run` header, up to (not consuming) the closing
/// parenthesis: only `Symbol` tokens are kept, in source order, and every
/// other token there is discarded.
pub open spec fn spec_parse_action_list(toks: Seq<TokenView>, pos: int) -> Result<
    (Seq<Seq<char>>, int),
    ParseErrorView,
>
    decreases toks.len() - pos,
{
    match token_at(toks, pos) {
        None => Err(ParseErrorView::UnterminatedConstruct),
        Some(TokenView::RParenthesis) => Ok((Seq::empty(), pos)),
        Some(TokenView::Symbol(name)) => match spec_parse_action_list(toks, pos + 1) {
            Ok((rest, p2)) => Ok((seq![name] + rest, p2)),
            Err(e) => Err(e),
        },
        Some(_) => spec_parse_action_list(toks, pos + 1),
    }
}

/// The positional argument values of a `CreateInstruction`, up to (not
/// consuming) the closing parenthesis: a `Value` is parsed wherever a
/// `Symbol` stands, and every other token there is discarded.
pub open spec fn spec_parse_value_list(toks: Seq<TokenView>, pos: int) -> Result<
    (Seq<AstView>, int),
    ParseErrorView,
>
    decreases toks.len() - pos,
{
    match token_at(toks, pos) {
        None => Err(ParseErrorView::UnterminatedConstruct),
        Some(TokenView::RParenthesis) => Ok((Seq::empty(), pos)),
        Some(TokenView::Symbol(name)) => {
            let (value, p2) = spec_parse_value(toks, pos);
            match spec_parse_value_list(toks, p2) {
                Ok((rest, p3)) => Ok((seq![value] + rest, p3)),
                Err(e) => Err(e),
            }
        },
        Some(_) => spec_parse_value_list(toks, pos + 1),
    }
}

/// `DataDecl := 'data' SYM '{' (Field (','? Field)*)? '}'`, from the
/// position after the keyword.
pub open spec fn spec_parse_data(toks: Seq<TokenView>, pos: int) -> Result<
    (AstView, int),
    ParseErrorView,
> {
    match token_at(toks, pos) {
        Some(TokenView::Symbol(name)) => {
            if token_at(toks, pos + 1) == Some(TokenView::LBrace) {
                match spec_parse_field_list(toks, pos + 2) {
                    Ok((fields, p2)) => {
                        let p3 = if token_at(toks, p2) == Some(TokenView::RBrace) {
                            p2 + 1
                        } else {
                            p2
                        };
                        Ok((AstView::Data(name, fields), p3))
                    },
                    Err(e) => Err(e),
                }
            } else {
                Err(ParseErrorView::MissingDelimiter(Some(name)))
            }
        },
        _ => Err(ParseErrorView::MissingName),
    }
}

/// `GroupDecl := 'group' SYM '(' params ')' '{' instantiations '}'`, from
/// the position after the keyword.
pub open spec fn spec_parse_group(toks: Seq<TokenView>, pos: int) -> Result<
    (AstView, int),
    ParseErrorView,
> {
    match token_at(toks, pos) {
        Some(TokenView::Symbol(name)) => {
            if token_at(toks, pos + 1) == Some(TokenView::LParenthesis) {
                match spec_parse_parameter_list(toks, pos + 2) {
                    Ok((parameters, p2)) => {
                        let p3 = if token_at(toks, p2) == Some(TokenView::RParenthesis) {
                            p2 + 1
                        } else {
                            p2
                        };
                        if token_at(toks, p3) == Some(TokenView::LBrace) {
                            match spec_parse_data_instanciation_list(toks, p3 + 1) {
                                Ok((data_instanciations, p4)) => {
                                    let p5 = if token_at(toks, p4) == Some(TokenView::RBrace) {
                                        p4 + 1
                                    } else {
                                        p4
                                    };
                                    Ok((AstView::Group(name, parameters, data_instanciations), p5))
                                },
                                Err(e) => Err(e),
                            }
                        } else {
                            Err(ParseErrorView::MissingDelimiter(Some(name)))
                        }
                    },
                    Err(e) => Err(e),
                }
            } else {
                Err(ParseErrorView::MissingDelimiter(Some(name)))
            }
        },
        _ => Err(ParseErrorView::MissingName),
    }
}

/// `DataInstantiation := SYM '(' (FieldValue (','? FieldValue)*)? ')'`
pub open spec fn spec_parse_data_instanciation(toks: Seq<TokenView>, pos: int) -> Result<
    (AstView, int),
    ParseErrorView,
> {
    match token_at(toks, pos) {
        Some(TokenView::Symbol(name)) => {
            if token_at(toks, pos + 1) == Some(TokenView::LParenthesis) {
                match spec_parse_field_value_list(toks, pos + 2) {
                    Ok((field_values, p2)) => {
                        let p3 = if token_at(toks, p2) == Some(TokenView::RParenthesis) {
                            p2 + 1
                        } else {
                            p2
                        };
                        Ok((AstView::DataInstanciation(name, field_values), p3))
                    },
                    Err(e) => Err(e),
                }
            } else {
                Err(ParseErrorView::MissingDelimiter(Some(name)))
            }
        },
        _ => Err(ParseErrorView::MissingName),
    }
}

/// `(DataInstantiation (','? DataInstantiation)*)?` up to (not consuming)
/// the closing brace.
pub open spec fn spec_parse_data_instanciation_list(toks: Seq<TokenView>, pos: int) -> Result<
    (Seq<AstView>, int),
    ParseErrorView,
>
    decreases toks.len() - pos,
{
    match token_at(toks, pos) {
        None => Err(ParseErrorView::UnterminatedConstruct),
        Some(TokenView::RBrace) => Ok((Seq::empty(), pos)),
        Some(t) => {
            let start = if t == TokenView::Comma {
                pos + 1
            } else {
                pos
            };
            match spec_parse_data_instanciation(toks, start) {
                Ok((data_instanciation, p2)) => if pos < p2 <= toks.len() {
                    match spec_parse_data_instanciation_list(toks, p2) {
                        Ok((rest, p3)) => Ok((seq![data_instanciation] + rest, p3)),
                        Err(e) => Err(e),
                    }
                } else {
                    // an instantiation always consumes at least its name;
                    // this branch is unreachable
                    Err(ParseErrorView::UnexpectedToken(Seq::empty()))
                },
                Err(e) => Err(e),
            }
        },
    }
}

/// `CreateInstruction := 'create' SYM '(' Value* ')'`, from the position of
/// the keyword itself.
pub open spec fn spec_parse_create_instruction(toks: Seq<TokenView>, pos: int) -> Result<
    (AstView, int),
    ParseErrorView,
> {
    match token_at(toks, pos + 1) {
        Some(TokenView::Symbol(name)) => {
            if token_at(toks, pos + 2) == Some(TokenView::LParenthesis) {
                match spec_parse_value_list(toks, pos + 3) {
                    Ok((parameter_values, p2)) => {
                        let p3 = if token_at(toks, p2) == Some(TokenView::RParenthesis) {
                            p2 + 1
                        } else {
                            p2
                        };
                        Ok((AstView::CreateInstruction(name, parameter_values), p3))
                    },
                    Err(e) => Err(e),
                }
            } else {
                Err(ParseErrorView::MissingDelimiter(Some(name)))
            }
        },
        _ => Err(ParseErrorView::MissingName),
    }
}

/// `IfStmt := 'if' Expression '{' Instruction* '}'`, from the position of
/// the keyword itself.
pub open spec fn spec_parse_if(toks: Seq<TokenView>, pos: int) -> Result<(AstView, int), ParseErrorView>
    decreases toks.len() - pos, 0int,
{
    let (condition, p1) = spec_parse_expression(toks, pos + 1);
    if token_at(toks, p1) == Some(TokenView::LBrace) {
        match spec_parse_instruction_list(toks, p1 + 1) {
            Ok((instructions, p2)) => {
                let p3 = if token_at(toks, p2) == Some(TokenView::RBrace) {
                    p2 + 1
                } else {
                    p2
                };
                Ok((AstView::IfStatement(Box::new(condition), instructions), p3))
            },
            Err(e) => Err(e),
        }
    } else {
        Err(ParseErrorView::MissingDelimiter(None))
    }
}

/// `ForStmt := 'for' LetDecl ';' Expression ';' Statement '{' Instruction* '}'`,
/// from the position of the keyword itself.
pub open spec fn spec_parse_for(toks: Seq<TokenView>, pos: int) -> Result<
    (AstView, int),
    ParseErrorView,
>
    decreases toks.len() - pos, 0int,
{
    match spec_parse_declaration(toks, pos + 1) {
        Ok((declaration, p1)) => {
            if token_at(toks, p1) == Some(TokenView::Semicolon) {
                let (condition, p2) = spec_parse_expression(toks, p1 + 1);
                if token_at(toks, p2) == Some(TokenView::Semicolon) {
                    let (progression, p3) = spec_parse_statement(toks, p2 + 1);
                    if token_at(toks, p3) == Some(TokenView::LBrace) {
                        match spec_parse_instruction_list(toks, p3 + 1) {
                            Ok((instructions, p4)) => {
                                let p5 = if token_at(toks, p4) == Some(TokenView::RBrace) {
                                    p4 + 1
                                } else {
                                    p4
                                };
                                Ok(
                                    (
                                        AstView::ForStatement(
                                            Box::new(declaration),
                                            Box::new(condition),
                                            Box::new(progression),
                                            instructions,
                                        ),
                                        p5,
                                    ),
                                )
                            },
                            Err(e) => Err(e),
                        }
                    } else {
                        Err(ParseErrorView::MissingDelimiter(None))
                    }
                } else {
                    Err(ParseErrorView::MissingDelimiter(None))
                }
            } else {
                Err(ParseErrorView::MissingDelimiter(None))
            }
        },
        Err(e) => Err(e),
    }
}

/// `Instruction := CreateInstruction | IfStmt | ForStmt | LetDecl`,
/// dispatched on the leading keyword.
pub open spec fn spec_parse_instruction(toks: Seq<TokenView>, pos: int) -> Result<
    (AstView, int),
    ParseErrorView,
>
    decreases toks.len() - pos, 1int,
{
    match token_at(toks, pos) {
        None => Err(ParseErrorView::EmptyInput),
        Some(TokenView::CreateInstructionKeyword) => spec_parse_create_instruction(toks, pos),
        Some(TokenView::If) => spec_parse_if(toks, pos),
        Some(TokenView::For) => spec_parse_for(toks, pos),
        Some(TokenView::Let) => spec_parse_declaration(toks, pos),
        Some(TokenView::Symbol(_)) => spec_parse_declaration(toks, pos),
        Some(t) => Err(ParseErrorView::UnexpectedToken(token_text(t))),
    }
}

/// `Instruction*` up to (not consuming) the closing brace.
pub open spec fn spec_parse_instruction_list(toks: Seq<TokenView>, pos: int) -> Result<
    (Seq<AstView>, int),
    ParseErrorView,
>
    decreases toks.len() - pos, 2int,
{
    match token_at(toks, pos) {
        None => Err(ParseErrorView::UnterminatedConstruct),
        Some(TokenView::RBrace) => Ok((Seq::empty(), pos)),
        Some(_) => match spec_parse_instruction(toks, pos) {
            Ok((instruction, p2)) => if pos < p2 <= toks.len() {
                match spec_parse_instruction_list(toks, p2) {
                    Ok((rest, p3)) => Ok((seq![instruction] + rest, p3)),
                    Err(e) => Err(e),
                }
            } else {
                // an instruction always consumes at least its keyword;
                // this branch is unreachable
                Err(ParseErrorView::UnexpectedToken(Seq::empty()))
            },
            Err(e) => Err(e),
        },
    }
}

/// `Statement := DataDecl | GroupDecl | DoDecl | RunDecl`, dispatched on
/// the leading keyword, which each construct rule stands after.
pub open spec fn spec_parse_primitive_bloc(toks: Seq<TokenView>, pos: int) -> Result<
    (AstView, int),
    ParseErrorView,
>
    decreases toks.len() - pos, 0int,
{
    match token_at(toks, pos) {
        None => Err(ParseErrorView::EmptyInput),
        Some(TokenView::Data) => spec_parse_data(toks, pos + 1),
        Some(TokenView::Group) => spec_parse_group(toks, pos + 1),
        Some(TokenView::Do) => spec_parse_do(toks, pos + 1),
        Some(TokenView::Run) => spec_parse_run(toks, pos + 1),
        Some(t) => Err(ParseErrorView::UnexpectedToken(token_text(t))),
    }
}

/// `DoDecl := 'do' SYM '{' Instruction* '}'`, from the position after the
/// keyword.
pub open spec fn spec_parse_do(toks: Seq<TokenView>, pos: int) -> Result<
    (AstView, int),
    ParseErrorView,
> {
    match token_at(toks, pos) {
        Some(TokenView::Symbol(name)) => {
            if token_at(toks, pos + 1) == Some(TokenView::LBrace) {
                match spec_parse_instruction_list(toks, pos + 2) {
                    Ok((instructions, p2)) => {
                        let p3 = if token_at(toks, p2) == Some(TokenView::RBrace) {
                            p2 + 1
                        } else {
                            p2
                        };
                        Ok((AstView::Do(name, instructions), p3))
                    },
                    Err(e) => Err(e),
                }
            } else {
                Err(ParseErrorView::MissingDelimiter(Some(name)))
            }
        },
        _ => Err(ParseErrorView::MissingName),
    }
}

/// `RunDecl := 'run' '(' SYM* ')' '{' Instruction* '}'`, from the position
/// after the keyword.
pub open spec fn spec_parse_run(toks: Seq<TokenView>, pos: int) -> Result<
    (AstView, int),
    ParseErrorView,
> {
    if token_at(toks, pos) == Some(TokenView::LParenthesis) {
        match spec_parse_action_list(toks, pos + 1) {
            Ok((actions_to_do, p1)) => {
                let p2 = if token_at(toks, p1) == Some(TokenView::RParenthesis) {
                    p1 + 1
                } else {
                    p1
                };
                if token_at(toks, p2) == Some(TokenView::LBrace) {
                    match spec_parse_instruction_list(toks, p2 + 1) {
                        Ok((instructions, p3)) => {
                            let p4 = if token_at(toks, p3) == Some(TokenView::RBrace) {
                                p3 + 1
                            } else {
                                p3
                            };
                            Ok((AstView::Run(actions_to_do, instructions), p4))
                        },
                        Err(e) => Err(e),
                    }
                } else {
                    Err(ParseErrorView::MissingDelimiter(None))
                }
            },
            Err(e) => Err(e),
        }
    } else {
        Err(ParseErrorView::MissingDelimiter(None))
    }
}

/// `Program := Statement*`, to the end of the input.
pub open spec fn spec_parse_program(toks: Seq<TokenView>, pos: int) -> Result<
    (Seq<AstView>, int),
    ParseErrorView,
>
    decreases toks.len() - pos, 1int,
{
    match token_at(toks, pos) {
        None => Ok((Seq::empty(), pos)),
        Some(_) => match spec_parse_primitive_bloc(toks, pos) {
            Ok((statement, p2)) => if pos < p2 <= toks.len() {
                match spec_parse_program(toks, p2) {
                    Ok((rest, p3)) => Ok((seq![statement] + rest, p3)),
                    Err(e) => Err(e),
                }
            } else {
                // a statement always consumes at least its keyword;
                // this branch is unreachable
                Err(ParseErrorView::UnexpectedToken(Seq::empty()))
            },
            Err(e) => Err(e),
        },
    }
}

/// What `parse_ast` returns on a token sequence.
pub open spec fn spec_parse_ast(toks: Seq<TokenView>) -> Result<AstView, ParseErrorView> {
    match spec_parse_program(toks, 0) {
        Ok((statements, _)) => Ok(AstView::Program(statements)),
        Err(e) => Err(e),
    }
}

/// Whether the next token of the cursor is exactly `token`.
fn token_is(iterator: &LookAheadIterator<Token>, token: Token) -> (r: bool)
    requires
        iterator.wf(),
    ensures
        r == (token_at(token_views(iterator.elements()), iterator.position()) == Some(token@)),
{
    let r = match iterator.peek() {
        Some(t) => {
            let eq = *t == token;
            assert(eq == (t@ == token@));
            eq
        },
        None => false,
    };
    proof {
        let toks = token_views(iterator.elements());
        if 0 <= iterator.position() < iterator.elements().len() {
            assert(toks[iterator.position()] == iterator.elements()[iterator.position()]@);
        }
    }
    r
}

/// Whether a peeked token is a `Symbol`.
fn is_symbol(token: &Option<&Token>) -> (r: bool)
    ensures
        r == match token {
            Some(t) => t@ is Symbol,
            None => false,
        },
{
    match token {
        Some(Token::Symbol(_)) => true,
        _ => false,
    }
}

/// `next` on the cursor, with the consumed token pinned down to be the
/// element at the old position.
fn next_token(it: &mut LookAheadIterator<Token>) -> (r: Option<Token>)
    requires
        old(it).wf(),
    ensures
        final(it).wf(),
        final(it).elements() == old(it).elements(),
        match r {
            Some(t) => {
                &&& old(it).position() < old(it).elements().len()
                &&& t == old(it).elements()[old(it).position()]
                &&& final(it).position() == old(it).position() + 1
            },
            None => {
                &&& old(it).position() >= old(it).elements().len()
                &&& final(it).position() == old(it).position()
            },
        },
{
    let r = it.next();
    proof {
        match &r {
            Some(t) => {
                assert(vstd::pervasive::cloned(
                    old(it).elements()[old(it).position()],
                    *t,
                ));
                assert(*t == old(it).elements()[old(it).position()]);
            },
            None => {},
        }
    }
    r
}

proof fn lemma_ast_views_cons(nodes: Seq<ASTNode>, node: ASTNode)
    ensures
        ast_views(nodes.insert(0, node)) == seq![ast_view(node)] + ast_views(nodes),
{
    assert(ast_views(nodes.insert(0, node)) =~= seq![ast_view(node)] + ast_views(nodes));
}

proof fn lemma_string_views_cons(names: Seq<String>, name: String)
    ensures
        crate::ast::string_views(names.insert(0, name)) == seq![name@]
            + crate::ast::string_views(names),
{
    assert(crate::ast::string_views(names.insert(0, name)) =~= seq![name@]
        + crate::ast::string_views(names));
}

fn parse_field(it: &mut LookAheadIterator<Token>) -> (r: Result<ASTNode, ParseError>)
    requires
        old(it).wf(),
    ensures
        final(it).wf(),
        final(it).elements() == old(it).elements(),
        old(it).position() <= final(it).position(),
        ({
            let toks = token_views(old(it).elements());
            let pos = old(it).position();
            match r {
                Ok(node) => spec_parse_field(toks, pos) == Result::<(AstView, int), ParseErrorView>::Ok(
                    (node@, final(it).position()),
                ) && pos < final(it).position(),
                Err(e) => spec_parse_field(toks, pos) == Result::<(AstView, int), ParseErrorView>::Err(
                    e@,
                ),
            }
        }),
{
    match next_token(it) {
        Some(Token::Symbol(name)) => {
            if token_is(it, Token::Colon) {
                let _ = next_token(it);
            } else {
                return Err(ParseError::MissingTypeAnnotation(name));
            }
            match next_token(it) {
                Some(Token::Symbol(field_type)) => Ok(ASTNode::new_field(name, field_type)),
                _ => Err(ParseError::MissingTypeAnnotation(name)),
            }
        },
        _ => Err(ParseError::MissingName),
    }
}

fn parse_parameter(it: &mut LookAheadIterator<Token>) -> (r: Result<ASTNode, ParseError>)
    requires
        old(it).wf(),
    ensures
        final(it).wf(),
        final(it).elements() == old(it).elements(),
        old(it).position() <= final(it).position(),
        ({
            let toks = token_views(old(it).elements());
            let pos = old(it).position();
            match r {
                Ok(node) => spec_parse_parameter(toks, pos) == Result::<
                    (AstView, int),
                    ParseErrorView,
                >::Ok((node@, final(it).position())) && pos < final(it).position(),
                Err(e) => spec_parse_parameter(toks, pos) == Result::<
                    (AstView, int),
                    ParseErrorView,
                >::Err(e@),
            }
        }),
{
    match next_token(it) {
        Some(Token::Symbol(name)) => {
            if token_is(it, Token::Colon) {
                let _ = next_token(it);
            } else {
                return Err(ParseError::MissingTypeAnnotation(name));
            }
            match next_token(it) {
                Some(Token::Symbol(parameter_type)) => Ok(
                    ASTNode::new_parameter(name, parameter_type),
                ),
                _ => Err(ParseError::MissingTypeAnnotation(name)),
            }
        },
        _ => Err(ParseError::MissingName),
    }
}

fn parse_field_value(it: &mut LookAheadIterator<Token>) -> (r: Result<ASTNode, ParseError>)
    requires
        old(it).wf(),
    ensures
        final(it).wf(),
        final(it).elements() == old(it).elements(),
        old(it).position() <= final(it).position(),
        ({
            let toks = token_views(old(it).elements());
            let pos = old(it).position();
            match r {
                Ok(node) => spec_parse_field_value(toks, pos) == Result::<
                    (AstView, int),
                    ParseErrorView,
                >::Ok((node@, final(it).position())) && pos < final(it).position(),
                Err(e) => spec_parse_field_value(toks, pos) == Result::<
                    (AstView, int),
                    ParseErrorView,
                >::Err(e@),
            }
        }),
{
    match next_token(it) {
        Some(Token::Symbol(name)) => {
            if token_is(it, Token::Equal) {
                let _ = next_token(it);
            } else {
                return Err(ParseError::MissingValue(name));
            }
            match next_token(it) {
                Some(Token::Symbol(value)) => Ok(ASTNode::new_field_value(name, value)),
                Some(Token::Integer(value)) => Ok(
                    ASTNode::new_field_value(name, Token::Integer(value).get_value()),
                ),
                _ => Err(ParseError::MissingValue(name)),
            }
        },
        _ => Err(ParseError::MissingName),
    }
}

fn parse_value(it: &mut LookAheadIterator<Token>) -> (r: ASTNode)
    requires
        old(it).wf(),
    ensures
        final(it).wf(),
        final(it).elements() == old(it).elements(),
        old(it).position() <= final(it).position(),
        r@ == spec_parse_value(token_views(old(it).elements()), old(it).position()).0,
        final(it).position() == spec_parse_value(
            token_views(old(it).elements()),
            old(it).position(),
        ).1,
{
    if is_symbol(&it.peek()) {
        let mut value = match next_token(it) {
            Some(Token::Symbol(s)) => s,
            _ => String::new(),
        };
        if token_is(it, Token::Dot) {
            let dot = Token::Dot.get_value();
            value.append(dot.as_str());
            let _ = next_token(it);
            if is_symbol(&it.peek()) {
                match next_token(it) {
                    Some(Token::Symbol(second)) => {
                        value.append(second.as_str());
                    },
                    _ => {},
                }
            }
        }
        ASTNode::new_value(value)
    } else {
        ASTNode::new_value(String::new())
    }
}

fn parse_expression(it: &mut LookAheadIterator<Token>) -> (r: ASTNode)
    requires
        old(it).wf(),
    ensures
        final(it).wf(),
        final(it).elements() == old(it).elements(),
        old(it).position() <= final(it).position(),
        r@ == spec_parse_expression(token_views(old(it).elements()), old(it).position()).0,
        final(it).position() == spec_parse_expression(
            token_views(old(it).elements()),
            old(it).position(),
        ).1,
{
    let _ = next_token(it);
    let value_node = ASTNode::new_value(String::new());
    let r = ASTNode::new_expression(value_node);
    proof {
        assert(ast_view(r) == AstView::Expression(Box::new(ast_view(value_node))));
    }
    r
}

fn parse_statement(it: &mut LookAheadIterator<Token>) -> (r: ASTNode)
    requires
        old(it).wf(),
    ensures
        final(it).wf(),
        final(it).elements() == old(it).elements(),
        old(it).position() <= final(it).position(),
        r@ == spec_parse_statement(token_views(old(it).elements()), old(it).position()).0,
        final(it).position() == spec_parse_statement(
            token_views(old(it).elements()),
            old(it).position(),
        ).1,
{
    let _ = next_token(it);
    let value_node = ASTNode::new_value(String::new());
    let r = ASTNode::new_expression(value_node);
    proof {
        assert(ast_view(r) == AstView::Expression(Box::new(ast_view(value_node))));
    }
    r
}

fn parse_declaration(it: &mut LookAheadIterator<Token>) -> (r: Result<ASTNode, ParseError>)
    requires
        old(it).wf(),
    ensures
        final(it).wf(),
        final(it).elements() == old(it).elements(),
        old(it).position() <= final(it).position(),
        ({
            let toks = token_views(old(it).elements());
            let pos = old(it).position();
            match r {
                Ok(node) => spec_parse_declaration(toks, pos) == Result::<
                    (AstView, int),
                    ParseErrorView,
                >::Ok((node@, final(it).position())) && pos < final(it).position(),
                Err(e) => spec_parse_declaration(toks, pos) == Result::<
                    (AstView, int),
                    ParseErrorView,
                >::Err(e@),
            }
        }),
{
    if token_is(it, Token::Let) {
        let _ = next_token(it);
    }
    match next_token(it) {
        Some(Token::Symbol(variable_name)) => {
            if !token_is(it, Token::Equal) {
                return Err(ParseError::MissingDelimiter(Some(variable_name)));
            }
            let _ = next_token(it);
            let value = parse_expression(it);
            Ok(ASTNode::new_declaration(variable_name, value))
        },
        _ => Err(ParseError::MissingName),
    }
}

fn parse_field_list(it: &mut LookAheadIterator<Token>) -> (r: Result<Vec<ASTNode>, ParseError>)
    requires
        old(it).wf(),
    ensures
        final(it).wf(),
        final(it).elements() == old(it).elements(),
        old(it).position() <= final(it).position(),
        ({
            let toks = token_views(old(it).elements());
            let pos = old(it).position();
            match r {
                Ok(fields) => spec_parse_field_list(toks, pos) == Result::<
                    (Seq<AstView>, int),
                    ParseErrorView,
                >::Ok((ast_views(fields@), final(it).position())),
                Err(e) => spec_parse_field_list(toks, pos) == Result::<
                    (Seq<AstView>, int),
                    ParseErrorView,
                >::Err(e@),
            }
        }),
    decreases old(it).elements().len() - old(it).position(),
{
    if it.peek().is_none() {
        return Err(ParseError::UnterminatedConstruct);
    }
    if token_is(it, Token::RBrace) {
        let fields: Vec<ASTNode> = Vec::new();
        assert(ast_views(fields@) =~= Seq::<AstView>::empty());
        return Ok(fields);
    }
    if token_is(it, Token::Comma) {
        let _ = next_token(it);
    }
    let field = match parse_field(it) {
        Ok(f) => f,
        Err(e) => return Err(e),
    };
    let ghost field_snapshot = field;
    let mut fields = match parse_field_list(it) {
        Ok(v) => v,
        Err(e) => return Err(e),
    };
    let ghost rest_snapshot = fields@;
    fields.insert(0, field);
    proof {
        lemma_ast_views_cons(rest_snapshot, field_snapshot);
    }
    Ok(fields)
}

fn parse_parameter_list(it: &mut LookAheadIterator<Token>) -> (r: Result<Vec<ASTNode>, ParseError>)
    requires
        old(it).wf(),
    ensures
        final(it).wf(),
        final(it).elements() == old(it).elements(),
        old(it).position() <= final(it).position(),
        ({
            let toks = token_views(old(it).elements());
            let pos = old(it).position();
            match r {
                Ok(parameters) => spec_parse_parameter_list(toks, pos) == Result::<
                    (Seq<AstView>, int),
                    ParseErrorView,
                >::Ok((ast_views(parameters@), final(it).position())),
                Err(e) => spec_parse_parameter_list(toks, pos) == Result::<
                    (Seq<AstView>, int),
                    ParseErrorView,
                >::Err(e@),
            }
        }),
    decreases old(it).elements().len() - old(it).position(),
{
    if it.peek().is_none() {
        return Err(ParseError::UnterminatedConstruct);
    }
    if token_is(it, Token::RParenthesis) {
        let parameters: Vec<ASTNode> = Vec::new();
        assert(ast_views(parameters@) =~= Seq::<AstView>::empty());
        return Ok(parameters);
    }
    if token_is(it, Token::Comma) {
        let _ = next_token(it);
    }
    let parameter = match parse_parameter(it) {
        Ok(p) => p,
        Err(e) => return Err(e),
    };
    let ghost parameter_snapshot = parameter;
    let mut parameters = match parse_parameter_list(it) {
        Ok(v) => v,
        Err(e) => return Err(e),
    };
    let ghost rest_snapshot = parameters@;
    parameters.insert(0, parameter);
    proof {
        lemma_ast_views_cons(rest_snapshot, parameter_snapshot);
    }
    Ok(parameters)
}

fn parse_field_value_list(it: &mut LookAheadIterator<Token>) -> (r: Result<
    Vec<ASTNode>,
    ParseError,
>)
    requires
        old(it).wf(),
    ensures
        final(it).wf(),
        final(it).elements() == old(it).elements(),
        old(it).position() <= final(it).position(),
        ({
            let toks = token_views(old(it).elements());
            let pos = old(it).position();
            match r {
                Ok(field_values) => spec_parse_field_value_list(toks, pos) == Result::<
                    (Seq<AstView>, int),
                    ParseErrorView,
                >::Ok((ast_views(field_values@), final(it).position())),
                Err(e) => spec_parse_field_value_list(toks, pos) == Result::<
                    (Seq<AstView>, int),
                    ParseErrorView,
                >::Err(e@),
            }
        }),
    decreases old(it).elements().len() - old(it).position(),
{
    if it.peek().is_none() {
        return Err(ParseError::UnterminatedConstruct);
    }
    if token_is(it, Token::RParenthesis) {
        let field_values: Vec<ASTNode> = Vec::new();
        assert(ast_views(field_values@) =~= Seq::<AstView>::empty());
        return Ok(field_values);
    }
    if token_is(it, Token::Comma) {
        let _ = next_token(it);
    }
    let field_value = match parse_field_value(it) {
        Ok(fv) => fv,
        Err(e) => return Err(e),
    };
    let ghost field_value_snapshot = field_value;
    let mut field_values = match parse_field_value_list(it) {
        Ok(v) => v,
        Err(e) => return Err(e),
    };
    let ghost rest_snapshot = field_values@;
    field_values.insert(0, field_value);
    proof {
        lemma_ast_views_cons(rest_snapshot, field_value_snapshot);
    }
    Ok(field_values)
}

fn parse_action_list(it: &mut LookAheadIterator<Token>) -> (r: Result<Vec<String>, ParseError>)
    requires
        old(it).wf(),
    ensures
        final(it).wf(),
        final(it).elements() == old(it).elements(),
        old(it).position() <= final(it).position(),
        ({
            let toks = token_views(old(it).elements());
            let pos = old(it).position();
            match r {
                Ok(actions) => spec_parse_action_list(toks, pos) == Result::<
                    (Seq<Seq<char>>, int),
                    ParseErrorView,
                >::Ok((crate::ast::string_views(actions@), final(it).position())),
                Err(e) => spec_parse_action_list(toks, pos) == Result::<
                    (Seq<Seq<char>>, int),
                    ParseErrorView,
                >::Err(e@),
            }
        }),
    decreases old(it).elements().len() - old(it).position(),
{
    if it.peek().is_none() {
        return Err(ParseError::UnterminatedConstruct);
    }
    if token_is(it, Token::RParenthesis) {
        let actions: Vec<String> = Vec::new();
        assert(crate::ast::string_views(actions@) =~= Seq::<Seq<char>>::empty());
        return Ok(actions);
    }
    if is_symbol(&it.peek()) {
        let name = match next_token(it) {
            Some(Token::Symbol(s)) => s,
            _ => String::new(),
        };
        let ghost name_snapshot = name;
        let mut actions = match parse_action_list(it) {
            Ok(v) => v,
            Err(e) => return Err(e),
        };
        let ghost rest_snapshot = actions@;
        actions.insert(0, name);
        proof {
            lemma_string_views_cons(rest_snapshot, name_snapshot);
        }
        Ok(actions)
    } else {
        let _ = next_token(it);
        parse_action_list(it)
    }
}

fn parse_value_list(it: &mut LookAheadIterator<Token>) -> (r: Result<Vec<ASTNode>, ParseError>)
    requires
        old(it).wf(),
    ensures
        final(it).wf(),
        final(it).elements() == old(it).elements(),
        old(it).position() <= final(it).position(),
        ({
            let toks = token_views(old(it).elements());
            let pos = old(it).position();
            match r {
                Ok(values) => spec_parse_value_list(toks, pos) == Result::<
                    (Seq<AstView>, int),
                    ParseErrorView,
                >::Ok((ast_views(values@), final(it).position())),
                Err(e) => spec_parse_value_list(toks, pos) == Result::<
                    (Seq<AstView>, int),
                    ParseErrorView,
                >::Err(e@),
            }
        }),
    decreases old(it).elements().len() - old(it).position(),
{
    if it.peek().is_none() {
        return Err(ParseError::UnterminatedConstruct);
    }
    if token_is(it, Token::RParenthesis) {
        let values: Vec<ASTNode> = Vec::new();
        assert(ast_views(values@) =~= Seq::<AstView>::empty());
        return Ok(values);
    }
    if is_symbol(&it.peek()) {
        let value = parse_value(it);
        let ghost value_snapshot = value;
        let mut values = match parse_value_list(it) {
            Ok(v) => v,
            Err(e) => return Err(e),
        };
        let ghost rest_snapshot = values@;
        values.insert(0, value);
        proof {
            lemma_ast_views_cons(rest_snapshot, value_snapshot);
        }
        Ok(values)
    } else {
        let _ = next_token(it);
        parse_value_list(it)
    }
}

fn parse_data(it: &mut LookAheadIterator<Token>) -> (r: Result<ASTNode, ParseError>)
    requires
        old(it).wf(),
    ensures
        final(it).wf(),
        final(it).elements() == old(it).elements(),
        old(it).position() <= final(it).position(),
        ({
            let toks = token_views(old(it).elements());
            let pos = old(it).position();
            match r {
                Ok(node) => spec_parse_data(toks, pos) == Result::<(AstView, int), ParseErrorView>::Ok(
                    (node@, final(it).position()),
                ) && pos < final(it).position(),
                Err(e) => spec_parse_data(toks, pos) == Result::<(AstView, int), ParseErrorView>::Err(
                    e@,
                ),
            }
        }),
{
    if is_symbol(&it.peek()) {
        let name = match next_token(it) {
            Some(Token::Symbol(s)) => s,
            _ => String::new(),
        };
        if !token_is(it, Token::LBrace) {
            return Err(ParseError::MissingDelimiter(Some(name)));
        }
        let _ = next_token(it);
        let fields = match parse_field_list(it) {
            Ok(v) => v,
            Err(e) => return Err(e),
        };
        if token_is(it, Token::RBrace) {
            let _ = next_token(it);
        }
        Ok(ASTNode::new_data(name, fields))
    } else {
        Err(ParseError::MissingName)
    }
}

fn parse_group(it: &mut LookAheadIterator<Token>) -> (r: Result<ASTNode, ParseError>)
    requires
        old(it).wf(),
    ensures
        final(it).wf(),
        final(it).elements() == old(it).elements(),
        old(it).position() <= final(it).position(),
        ({
            let toks = token_views(old(it).elements());
            let pos = old(it).position();
            match r {
                Ok(node) => spec_parse_group(toks, pos) == Result::<(AstView, int), ParseErrorView>::Ok(
                    (node@, final(it).position()),
                ) && pos < final(it).position(),
                Err(e) => spec_parse_group(toks, pos) == Result::<(AstView, int), ParseErrorView>::Err(
                    e@,
                ),
            }
        }),
{
    if is_symbol(&it.peek()) {
        let name = match next_token(it) {
            Some(Token::Symbol(s)) => s,
            _ => String::new(),
        };
        if !token_is(it, Token::LParenthesis) {
            return Err(ParseError::MissingDelimiter(Some(name)));
        }
        let _ = next_token(it);
        let parameters = match parse_parameter_list(it) {
            Ok(v) => v,
            Err(e) => return Err(e),
        };
        if token_is(it, Token::RParenthesis) {
            let _ = next_token(it);
        }
        if !token_is(it, Token::LBrace) {
            return Err(ParseError::MissingDelimiter(Some(name)));
        }
        let _ = next_token(it);
        let data_instanciations = match parse_data_instanciation_list(it) {
            Ok(v) => v,
            Err(e) => return Err(e),
        };
        if token_is(it, Token::RBrace) {
            let _ = next_token(it);
        }
        Ok(ASTNode::new_group(name, parameters, data_instanciations))
    } else {
        Err(ParseError::MissingName)
    }
}

fn parse_data_instanciation(it: &mut LookAheadIterator<Token>) -> (r: Result<ASTNode, ParseError>)
    requires
        old(it).wf(),
    ensures
        final(it).wf(),
        final(it).elements() == old(it).elements(),
        old(it).position() <= final(it).position(),
        ({
            let toks = token_views(old(it).elements());
            let pos = old(it).position();
            match r {
                Ok(node) => spec_parse_data_instanciation(toks, pos) == Result::<
                    (AstView, int),
                    ParseErrorView,
                >::Ok((node@, final(it).position())) && pos < final(it).position(),
                Err(e) => spec_parse_data_instanciation(toks, pos) == Result::<
                    (AstView, int),
                    ParseErrorView,
                >::Err(e@),
            }
        }),
{
    if is_symbol(&it.peek()) {
        let name = match next_token(it) {
            Some(Token::Symbol(s)) => s,
            _ => String::new(),
        };
        if !token_is(it, Token::LParenthesis) {
            return Err(ParseError::MissingDelimiter(Some(name)));
        }
        let _ = next_token(it);
        let field_values = match parse_field_value_list(it) {
            Ok(v) => v,
            Err(e) => return Err(e),
        };
        if token_is(it, Token::RParenthesis) {
            let _ = next_token(it);
        }
        Ok(ASTNode::new_data_instanciation(name, field_values))
    } else {
        Err(ParseError::MissingName)
    }
}

fn parse_data_instanciation_list(it: &mut LookAheadIterator<Token>) -> (r: Result<
    Vec<ASTNode>,
    ParseError,
>)
    requires
        old(it).wf(),
    ensures
        final(it).wf(),
        final(it).elements() == old(it).elements(),
        old(it).position() <= final(it).position(),
        ({
            let toks = token_views(old(it).elements());
            let pos = old(it).position();
            match r {
                Ok(data_instanciations) => spec_parse_data_instanciation_list(toks, pos)
                    == Result::<(Seq<AstView>, int), ParseErrorView>::Ok(
                    (ast_views(data_instanciations@), final(it).position()),
                ),
                Err(e) => spec_parse_data_instanciation_list(toks, pos) == Result::<
                    (Seq<AstView>, int),
                    ParseErrorView,
                >::Err(e@),
            }
        }),
    decreases old(it).elements().len() - old(it).position(),
{
    if it.peek().is_none() {
        return Err(ParseError::UnterminatedConstruct);
    }
    if token_is(it, Token::RBrace) {
        let data_instanciations: Vec<ASTNode> = Vec::new();
        assert(ast_views(data_instanciations@) =~= Seq::<AstView>::empty());
        return Ok(data_instanciations);
    }
    if token_is(it, Token::Comma) {
        let _ = next_token(it);
    }
    let data_instanciation = match parse_data_instanciation(it) {
        Ok(d) => d,
        Err(e) => return Err(e),
    };
    let ghost data_instanciation_snapshot = data_instanciation;
    let mut data_instanciations = match parse_data_instanciation_list(it) {
        Ok(v) => v,
        Err(e) => return Err(e),
    };
    let ghost rest_snapshot = data_instanciations@;
    data_instanciations.insert(0, data_instanciation);
    proof {
        lemma_ast_views_cons(rest_snapshot, data_instanciation_snapshot);
    }
    Ok(data_instanciations)
}

fn parse_create_instruction(it: &mut LookAheadIterator<Token>) -> (r: Result<ASTNode, ParseError>)
    requires
        old(it).wf(),
    ensures
        final(it).wf(),
        final(it).elements() == old(it).elements(),
        old(it).position() <= final(it).position(),
        ({
            let toks = token_views(old(it).elements());
            let pos = old(it).position();
            match r {
                Ok(node) => spec_parse_create_instruction(toks, pos) == Result::<
                    (AstView, int),
                    ParseErrorView,
                >::Ok((node@, final(it).position())) && pos < final(it).position(),
                Err(e) => spec_parse_create_instruction(toks, pos) == Result::<
                    (AstView, int),
                    ParseErrorView,
                >::Err(e@),
            }
        }),
{
    let _ = next_token(it);
    if is_symbol(&it.peek()) {
        let name = match next_token(it) {
            Some(Token::Symbol(s)) => s,
            _ => String::new(),
        };
        if !token_is(it, Token::LParenthesis) {
            return Err(ParseError::MissingDelimiter(Some(name)));
        }
        let _ = next_token(it);
        let parameter_values = match parse_value_list(it) {
            Ok(v) => v,
            Err(e) => return Err(e),
        };
        if token_is(it, Token::RParenthesis) {
            let _ = next_token(it);
        }
        Ok(ASTNode::new_create_instruction(name, parameter_values))
    } else {
        Err(ParseError::MissingName)
    }
}

fn parse_if(it: &mut LookAheadIterator<Token>) -> (r: Result<ASTNode, ParseError>)
    requires
        old(it).wf(),
    ensures
        final(it).wf(),
        final(it).elements() == old(it).elements(),
        old(it).position() <= final(it).position(),
        ({
            let toks = token_views(old(it).elements());
            let pos = old(it).position();
            match r {
                Ok(node) => spec_parse_if(toks, pos) == Result::<(AstView, int), ParseErrorView>::Ok(
                    (node@, final(it).position()),
                ) && pos < final(it).position(),
                Err(e) => spec_parse_if(toks, pos) == Result::<(AstView, int), ParseErrorView>::Err(e@),
            }
        }),
    decreases old(it).elements().len() - old(it).position(), 0int,
{
    let _ = next_token(it);
    let condition = parse_expression(it);
    if !token_is(it, Token::LBrace) {
        return Err(ParseError::MissingDelimiter(None));
    }
    let _ = next_token(it);
    let instructions = match parse_instruction_list(it) {
        Ok(v) => v,
        Err(e) => return Err(e),
    };
    if token_is(it, Token::RBrace) {
        let _ = next_token(it);
    }
    let ghost condition_snapshot = condition;
    let node = ASTNode::new_if(condition, instructions);
    proof {
        assert(ast_view(node) == AstView::IfStatement(
            Box::new(ast_view(condition_snapshot)),
            ast_views(node->IfStatement_1@),
        ));
    }
    Ok(node)
}

fn parse_for(it: &mut LookAheadIterator<Token>) -> (r: Result<ASTNode, ParseError>)
    requires
        old(it).wf(),
    ensures
        final(it).wf(),
        final(it).elements() == old(it).elements(),
        old(it).position() <= final(it).position(),
        ({
            let toks = token_views(old(it).elements());
            let pos = old(it).position();
            match r {
                Ok(node) => spec_parse_for(toks, pos) == Result::<(AstView, int), ParseErrorView>::Ok(
                    (node@, final(it).position()),
                ) && pos < final(it).position(),
                Err(e) => spec_parse_for(toks, pos) == Result::<(AstView, int), ParseErrorView>::Err(e@),
            }
        }),
    decreases old(it).elements().len() - old(it).position(), 0int,
{
    let _ = next_token(it);
    let declaration = match parse_declaration(it) {
        Ok(d) => d,
        Err(e) => return Err(e),
    };
    if !token_is(it, Token::Semicolon) {
        return Err(ParseError::MissingDelimiter(None));
    }
    let _ = next_token(it);
    let condition = parse_expression(it);
    if !token_is(it, Token::Semicolon) {
        return Err(ParseError::MissingDelimiter(None));
    }
    let _ = next_token(it);
    let progression = parse_statement(it);
    if !token_is(it, Token::LBrace) {
        return Err(ParseError::MissingDelimiter(None));
    }
    let _ = next_token(it);
    let instructions = match parse_instruction_list(it) {
        Ok(v) => v,
        Err(e) => return Err(e),
    };
    if token_is(it, Token::RBrace) {
        let _ = next_token(it);
    }
    let ghost declaration_snapshot = declaration;
    let ghost condition_snapshot = condition;
    let ghost progression_snapshot = progression;
    let node = ASTNode::new_for(declaration, condition, progression, instructions);
    proof {
        assert(ast_view(node) == AstView::ForStatement(
            Box::new(ast_view(declaration_snapshot)),
            Box::new(ast_view(condition_snapshot)),
            Box::new(ast_view(progression_snapshot)),
            ast_views(node->ForStatement_3@),
        ));
    }
    Ok(node)
}

fn parse_instruction(it: &mut LookAheadIterator<Token>) -> (r: Result<ASTNode, ParseError>)
    requires
        old(it).wf(),
    ensures
        final(it).wf(),
        final(it).elements() == old(it).elements(),
        old(it).position() <= final(it).position(),
        ({
            let toks = token_views(old(it).elements());
            let pos = old(it).position();
            match r {
                Ok(node) => spec_parse_instruction(toks, pos) == Result::<
                    (AstView, int),
                    ParseErrorView,
                >::Ok((node@, final(it).position())) && pos < final(it).position(),
                Err(e) => spec_parse_instruction(toks, pos) == Result::<
                    (AstView, int),
                    ParseErrorView,
                >::Err(e@),
            }
        }),
    decreases old(it).elements().len() - old(it).position(), 1int,
{
    if it.peek().is_none() {
        return Err(ParseError::EmptyInput);
    }
    if token_is(it, Token::CreateInstructionKeyword) {
        parse_create_instruction(it)
    } else if token_is(it, Token::If) {
        parse_if(it)
    } else if token_is(it, Token::For) {
        parse_for(it)
    } else if token_is(it, Token::Let) || is_symbol(&it.peek()) {
        parse_declaration(it)
    } else {
        match next_token(it) {
            Some(t) => Err(ParseError::UnexpectedToken(t.get_value())),
            None => Err(ParseError::EmptyInput),
        }
    }
}

fn parse_instruction_list(it: &mut LookAheadIterator<Token>) -> (r: Result<
    Vec<ASTNode>,
    ParseError,
>)
    requires
        old(it).wf(),
    ensures
        final(it).wf(),
        final(it).elements() == old(it).elements(),
        old(it).position() <= final(it).position(),
        ({
            let toks = token_views(old(it).elements());
            let pos = old(it).position();
            match r {
                Ok(instructions) => spec_parse_instruction_list(toks, pos) == Result::<
                    (Seq<AstView>, int),
                    ParseErrorView,
                >::Ok((ast_views(instructions@), final(it).position())),
                Err(e) => spec_parse_instruction_list(toks, pos) == Result::<
                    (Seq<AstView>, int),
                    ParseErrorView,
                >::Err(e@),
            }
        }),
    decreases old(it).elements().len() - old(it).position(), 2int,
{
    if it.peek().is_none() {
        return Err(ParseError::UnterminatedConstruct);
    }
    if token_is(it, Token::RBrace) {
        let instructions: Vec<ASTNode> = Vec::new();
        assert(ast_views(instructions@) =~= Seq::<AstView>::empty());
        return Ok(instructions);
    }
    let instruction = match parse_instruction(it) {
        Ok(i) => i,
        Err(e) => return Err(e),
    };
    let ghost instruction_snapshot = instruction;
    let mut instructions = match parse_instruction_list(it) {
        Ok(v) => v,
        Err(e) => return Err(e),
    };
    let ghost rest_snapshot = instructions@;
    instructions.insert(0, instruction);
    proof {
        lemma_ast_views_cons(rest_snapshot, instruction_snapshot);
    }
    Ok(instructions)
}

fn parse_do(it: &mut LookAheadIterator<Token>) -> (r: Result<ASTNode, ParseError>)
    requires
        old(it).wf(),
    ensures
        final(it).wf(),
        final(it).elements() == old(it).elements(),
        old(it).position() <= final(it).position(),
        ({
            let toks = token_views(old(it).elements());
            let pos = old(it).position();
            match r {
                Ok(node) => spec_parse_do(toks, pos) == Result::<(AstView, int), ParseErrorView>::Ok(
                    (node@, final(it).position()),
                ) && pos < final(it).position(),
                Err(e) => spec_parse_do(toks, pos) == Result::<(AstView, int), ParseErrorView>::Err(e@),
            }
        }),
{
    if is_symbol(&it.peek()) {
        let name = match next_token(it) {
            Some(Token::Symbol(s)) => s,
            _ => String::new(),
        };
        if !token_is(it, Token::LBrace) {
            return Err(ParseError::MissingDelimiter(Some(name)));
        }
        let _ = next_token(it);
        let instructions = match parse_instruction_list(it) {
            Ok(v) => v,
            Err(e) => return Err(e),
        };
        if token_is(it, Token::RBrace) {
            let _ = next_token(it);
        }
        Ok(ASTNode::new_do(name, instructions))
    } else {
        Err(ParseError::MissingName)
    }
}

fn parse_run(it: &mut LookAheadIterator<Token>) -> (r: Result<ASTNode, ParseError>)
    requires
        old(it).wf(),
    ensures
        final(it).wf(),
        final(it).elements() == old(it).elements(),
        old(it).position() <= final(it).position(),
        ({
            let toks = token_views(old(it).elements());
            let pos = old(it).position();
            match r {
                Ok(node) => spec_parse_run(toks, pos) == Result::<(AstView, int), ParseErrorView>::Ok(
                    (node@, final(it).position()),
                ) && pos < final(it).position(),
                Err(e) => spec_parse_run(toks, pos) == Result::<(AstView, int), ParseErrorView>::Err(e@),
            }
        }),
{
    if !token_is(it, Token::LParenthesis) {
        return Err(ParseError::MissingDelimiter(None));
    }
    let _ = next_token(it);
    let actions_to_do = match parse_action_list(it) {
        Ok(v) => v,
        Err(e) => return Err(e),
    };
    if token_is(it, Token::RParenthesis) {
        let _ = next_token(it);
    }
    if !token_is(it, Token::LBrace) {
        return Err(ParseError::MissingDelimiter(None));
    }
    let _ = next_token(it);
    let instructions = match parse_instruction_list(it) {
        Ok(v) => v,
        Err(e) => return Err(e),
    };
    if token_is(it, Token::RBrace) {
        let _ = next_token(it);
    }
    Ok(ASTNode::new_run(actions_to_do, instructions))
}

fn parse_primitive_bloc(it: &mut LookAheadIterator<Token>) -> (r: Result<ASTNode, ParseError>)
    requires
        old(it).wf(),
    ensures
        final(it).wf(),
        final(it).elements() == old(it).elements(),
        old(it).position() <= final(it).position(),
        ({
            let toks = token_views(old(it).elements());
            let pos = old(it).position();
            match r {
                Ok(node) => spec_parse_primitive_bloc(toks, pos) == Result::<
                    (AstView, int),
                    ParseErrorView,
                >::Ok((node@, final(it).position())) && pos < final(it).position(),
                Err(e) => spec_parse_primitive_bloc(toks, pos) == Result::<
                    (AstView, int),
                    ParseErrorView,
                >::Err(e@),
            }
        }),
{
    match next_token(it) {
        Some(Token::Data) => parse_data(it),
        Some(Token::Group) => parse_group(it),
        Some(Token::Do) => parse_do(it),
        Some(Token::Run) => parse_run(it),
        None => Err(ParseError::EmptyInput),
        Some(t) => Err(ParseError::UnexpectedToken(t.get_value())),
    }
}

fn parse_statements(it: &mut LookAheadIterator<Token>) -> (r: Result<Vec<ASTNode>, ParseError>)
    requires
        old(it).wf(),
    ensures
        final(it).wf(),
        final(it).elements() == old(it).elements(),
        old(it).position() <= final(it).position(),
        ({
            let toks = token_views(old(it).elements());
            let pos = old(it).position();
            match r {
                Ok(statements) => spec_parse_program(toks, pos) == Result::<
                    (Seq<AstView>, int),
                    ParseErrorView,
                >::Ok((ast_views(statements@), final(it).position())),
                Err(e) => spec_parse_program(toks, pos) == Result::<
                    (Seq<AstView>, int),
                    ParseErrorView,
                >::Err(e@),
            }
        }),
    decreases old(it).elements().len() - old(it).position(),
{
    if it.peek().is_none() {
        let statements: Vec<ASTNode> = Vec::new();
        assert(ast_views(statements@) =~= Seq::<AstView>::empty());
        return Ok(statements);
    }
    let statement = match parse_primitive_bloc(it) {
        Ok(s) => s,
        Err(e) => return Err(e),
    };
    let ghost statement_snapshot = statement;
    let mut statements = match parse_statements(it) {
        Ok(v) => v,
        Err(e) => return Err(e),
    };
    let ghost rest_snapshot = statements@;
    statements.insert(0, statement);
    proof {
        lemma_ast_views_cons(rest_snapshot, statement_snapshot);
    }
    Ok(statements)
}

fn parse_program(it: &mut LookAheadIterator<Token>) -> (r: Result<ASTNode, ParseError>)
    requires
        old(it).wf(),
    ensures
        final(it).wf(),
        final(it).elements() == old(it).elements(),
        old(it).position() <= final(it).position(),
        ({
            let toks = token_views(old(it).elements());
            let pos = old(it).position();
            match r {
                Ok(node) => spec_parse_program(toks, pos) matches Ok(p) && node@
                    == AstView::Program(p.0) && final(it).position() == p.1,
                Err(e) => spec_parse_program(toks, pos) == Result::<
                    (Seq<AstView>, int),
                    ParseErrorView,
                >::Err(e@),
            }
        }),
{
    let statements = match parse_statements(it) {
        Ok(v) => v,
        Err(e) => return Err(e),
    };
    Ok(ASTNode::new_program(statements))
}

/// The payloads of the `Symbol` tokens of a sequence, in order.
pub open spec fn symbol_names(toks: Seq<TokenView>) -> Seq<Seq<char>>
    decreases toks.len(),
{
    if toks.len() == 0 {
        Seq::empty()
    } else {
        match toks[0] {
            TokenView::Symbol(name) => seq![name] + symbol_names(toks.skip(1)),
            _ => symbol_names(toks.skip(1)),
        }
    }
}

/// Parsing a two-field record declaration yields a `Data` node whose field
/// list has exactly the two fields, in source order.
pub proof fn lemma_data_preserves_field_order(
    name: Seq<char>,
    f1: Seq<char>,
    t1: Seq<char>,
    f2: Seq<char>,
    t2: Seq<char>,
)
    ensures
        spec_parse_ast(
            seq![
                TokenView::Data,
                TokenView::Symbol(name),
                TokenView::LBrace,
                TokenView::Symbol(f1),
                TokenView::Colon,
                TokenView::Symbol(t1),
                TokenView::Comma,
                TokenView::Symbol(f2),
                TokenView::Colon,
                TokenView::Symbol(t2),
                TokenView::RBrace,
            ],
        ) == Result::<AstView, ParseErrorView>::Ok(
            AstView::Program(
                seq![
                    AstView::Data(
                        name,
                        seq![AstView::Field(f1, t1), AstView::Field(f2, t2)],
                    ),
                ],
            ),
        ),
{
    let toks = seq![
        TokenView::Data,
        TokenView::Symbol(name),
        TokenView::LBrace,
        TokenView::Symbol(f1),
        TokenView::Colon,
        TokenView::Symbol(t1),
        TokenView::Comma,
        TokenView::Symbol(f2),
        TokenView::Colon,
        TokenView::Symbol(t2),
        TokenView::RBrace,
    ];
    reveal_with_fuel(spec_parse_field_list, 4);
    reveal_with_fuel(spec_parse_program, 3);
    assert(spec_parse_field(toks, 3) == Result::<(AstView, int), ParseErrorView>::Ok(
        (AstView::Field(f1, t1), 6),
    ));
    assert(spec_parse_field(toks, 7) == Result::<(AstView, int), ParseErrorView>::Ok(
        (AstView::Field(f2, t2), 10),
    ));
    assert(seq![AstView::Field(f2, t2)] + Seq::<AstView>::empty() =~= seq![
        AstView::Field(f2, t2),
    ]);
    assert(spec_parse_field_list(toks, 6) == Result::<(Seq<AstView>, int), ParseErrorView>::Ok(
        (seq![AstView::Field(f2, t2)], 10),
    ));
    assert(seq![AstView::Field(f1, t1)] + seq![AstView::Field(f2, t2)] =~= seq![
        AstView::Field(f1, t1),
        AstView::Field(f2, t2),
    ]);
    assert(spec_parse_field_list(toks, 3) == Result::<(Seq<AstView>, int), ParseErrorView>::Ok(
        (seq![AstView::Field(f1, t1), AstView::Field(f2, t2)], 10),
    ));
    assert(spec_parse_program(toks, 11) == Result::<(Seq<AstView>, int), ParseErrorView>::Ok(
        (Seq::<AstView>::empty(), 11),
    ));
    let data_node = AstView::Data(name, seq![AstView::Field(f1, t1), AstView::Field(f2, t2)]);
    assert(spec_parse_primitive_bloc(toks, 0) == Result::<(AstView, int), ParseErrorView>::Ok(
        (data_node, 11),
    ));
    assert(seq![data_node] + Seq::<AstView>::empty() =~= seq![data_node]);
    assert(spec_parse_program(toks, 0) == Result::<(Seq<AstView>, int), ParseErrorView>::Ok(
        (seq![data_node], 11),
    ));
}

/// Parsing a group declaration preserves both the parameter order and the
/// instantiation order, with each instantiation keeping its bound values;
/// an `Integer` bound value is kept as its decimal text.
pub proof fn lemma_group_preserves_order(
    g: Seq<char>,
    a: Seq<char>,
    ta: Seq<char>,
    b: Seq<char>,
    tb: Seq<char>,
    r1: Seq<char>,
    x: Seq<char>,
    v1: i64,
    r2: Seq<char>,
    y: Seq<char>,
    v2: i64,
)
    ensures
        spec_parse_ast(
            seq![
                TokenView::Group,
                TokenView::Symbol(g),
                TokenView::LParenthesis,
                TokenView::Symbol(a),
                TokenView::Colon,
                TokenView::Symbol(ta),
                TokenView::Comma,
                TokenView::Symbol(b),
                TokenView::Colon,
                TokenView::Symbol(tb),
                TokenView::RParenthesis,
                TokenView::LBrace,
                TokenView::Symbol(r1),
                TokenView::LParenthesis,
                TokenView::Symbol(x),
                TokenView::Equal,
                TokenView::Integer(v1),
                TokenView::RParenthesis,
                TokenView::Comma,
                TokenView::Symbol(r2),
                TokenView::LParenthesis,
                TokenView::Symbol(y),
                TokenView::Equal,
                TokenView::Integer(v2),
                TokenView::RParenthesis,
                TokenView::RBrace,
            ],
        ) == Result::<AstView, ParseErrorView>::Ok(
            AstView::Program(
                seq![
                    AstView::Group(
                        g,
                        seq![AstView::Parameter(a, ta), AstView::Parameter(b, tb)],
                        seq![
                            AstView::DataInstanciation(
                                r1,
                                seq![AstView::FieldValue(x, integer_text(v1 as int))],
                            ),
                            AstView::DataInstanciation(
                                r2,
                                seq![AstView::FieldValue(y, integer_text(v2 as int))],
                            ),
                        ],
                    ),
                ],
            ),
        ),
{
    let toks = seq![
        TokenView::Group,
        TokenView::Symbol(g),
        TokenView::LParenthesis,
        TokenView::Symbol(a),
        TokenView::Colon,
        TokenView::Symbol(ta),
        TokenView::Comma,
        TokenView::Symbol(b),
        TokenView::Colon,
        TokenView::Symbol(tb),
        TokenView::RParenthesis,
        TokenView::LBrace,
        TokenView::Symbol(r1),
        TokenView::LParenthesis,
        TokenView::Symbol(x),
        TokenView::Equal,
        TokenView::Integer(v1),
        TokenView::RParenthesis,
        TokenView::Comma,
        TokenView::Symbol(r2),
        TokenView::LParenthesis,
        TokenView::Symbol(y),
        TokenView::Equal,
        TokenView::Integer(v2),
        TokenView::RParenthesis,
        TokenView::RBrace,
    ];
    let value1 = integer_text(v1 as int);
    let value2 = integer_text(v2 as int);
    reveal_with_fuel(spec_parse_parameter_list, 4);
    reveal_with_fuel(spec_parse_field_value_list, 3);
    reveal_with_fuel(spec_parse_data_instanciation_list, 4);
    reveal_with_fuel(spec_parse_program, 3);
    // the parameter list
    assert(spec_parse_parameter(toks, 3) == Result::<(AstView, int), ParseErrorView>::Ok(
        (AstView::Parameter(a, ta), 6),
    ));
    assert(spec_parse_parameter(toks, 7) == Result::<(AstView, int), ParseErrorView>::Ok(
        (AstView::Parameter(b, tb), 10),
    ));
    assert(seq![AstView::Parameter(b, tb)] + Seq::<AstView>::empty() =~= seq![
        AstView::Parameter(b, tb),
    ]);
    assert(spec_parse_parameter_list(toks, 7) == Result::<
        (Seq<AstView>, int),
        ParseErrorView,
    >::Ok((seq![AstView::Parameter(b, tb)], 10)));
    assert(seq![AstView::Parameter(a, ta)] + seq![AstView::Parameter(b, tb)] =~= seq![
        AstView::Parameter(a, ta),
        AstView::Parameter(b, tb),
    ]);
    assert(spec_parse_parameter_list(toks, 3) == Result::<
        (Seq<AstView>, int),
        ParseErrorView,
    >::Ok((seq![AstView::Parameter(a, ta), AstView::Parameter(b, tb)], 10)));
    // the first instantiation, with an integer bound value
    assert(spec_parse_field_value(toks, 14) == Result::<(AstView, int), ParseErrorView>::Ok(
        (AstView::FieldValue(x, value1), 17),
    ));
    assert(seq![AstView::FieldValue(x, value1)] + Seq::<AstView>::empty() =~= seq![
        AstView::FieldValue(x, value1),
    ]);
    assert(spec_parse_field_value_list(toks, 14) == Result::<
        (Seq<AstView>, int),
        ParseErrorView,
    >::Ok((seq![AstView::FieldValue(x, value1)], 17)));
    let inst1 = AstView::DataInstanciation(r1, seq![AstView::FieldValue(x, value1)]);
    assert(spec_parse_data_instanciation(toks, 12) == Result::<
        (AstView, int),
        ParseErrorView,
    >::Ok((inst1, 18)));
    // the second instantiation, with an integer bound value
    assert(spec_parse_field_value(toks, 21) == Result::<(AstView, int), ParseErrorView>::Ok(
        (AstView::FieldValue(y, value2), 24),
    ));
    assert(seq![AstView::FieldValue(y, value2)] + Seq::<AstView>::empty() =~= seq![
        AstView::FieldValue(y, value2),
    ]);
    assert(spec_parse_field_value_list(toks, 21) == Result::<
        (Seq<AstView>, int),
        ParseErrorView,
    >::Ok((seq![AstView::FieldValue(y, value2)], 24)));
    let inst2 = AstView::DataInstanciation(r2, seq![AstView::FieldValue(y, value2)]);
    assert(spec_parse_data_instanciation(toks, 19) == Result::<
        (AstView, int),
        ParseErrorView,
    >::Ok((inst2, 25)));
    // the instantiation list
    assert(seq![inst2] + Seq::<AstView>::empty() =~= seq![inst2]);
    assert(spec_parse_data_instanciation_list(toks, 18) == Result::<
        (Seq<AstView>, int),
        ParseErrorView,
    >::Ok((seq![inst2], 25)));
    assert(seq![inst1] + seq![inst2] =~= seq![inst1, inst2]);
    assert(spec_parse_data_instanciation_list(toks, 12) == Result::<
        (Seq<AstView>, int),
        ParseErrorView,
    >::Ok((seq![inst1, inst2], 25)));
    // the whole group
    let group_node = AstView::Group(
        g,
        seq![AstView::Parameter(a, ta), AstView::Parameter(b, tb)],
        seq![inst1, inst2],
    );
    assert(spec_parse_group(toks, 1) == Result::<(AstView, int), ParseErrorView>::Ok(
        (group_node, 26),
    ));
    assert(spec_parse_program(toks, 26) == Result::<(Seq<AstView>, int), ParseErrorView>::Ok(
        (Seq::<AstView>::empty(), 26),
    ));
    assert(seq![group_node] + Seq::<AstView>::empty() =~= seq![group_node]);
    assert(spec_parse_program(toks, 0) == Result::<(Seq<AstView>, int), ParseErrorView>::Ok(
        (seq![group_node], 26),
    ));
}

proof fn lemma_action_list_on_header(toks: Seq<TokenView>, pos: int, end: int)
    requires
        0 <= pos <= end < toks.len(),
        toks[end] is RParenthesis,
        forall|i: int| pos <= i < end ==> !((#[trigger] toks[i]) is RParenthesis),
    ensures
        spec_parse_action_list(toks, pos) == Result::<(Seq<Seq<char>>, int), ParseErrorView>::Ok(
            (symbol_names(toks.subrange(pos, end)), end),
        ),
    decreases end - pos,
{
    if pos == end {
        assert(toks.subrange(pos, end) =~= Seq::<TokenView>::empty());
    } else {
        lemma_action_list_on_header(toks, pos + 1, end);
        let segment = toks.subrange(pos, end);
        assert(segment.skip(1) =~= toks.subrange(pos + 1, end));
        assert(segment[0] == toks[pos]);
        match toks[pos] {
            TokenView::Symbol(_) => {},
            _ => {},
        }
    }
}

/// A `run` block header retains exactly the `Symbol` tokens between its
/// parentheses as action names, in source order, and discards every other
/// token found there.
pub proof fn lemma_run_header_keeps_symbols(header: Seq<TokenView>)
    requires
        forall|i: int| 0 <= i < header.len() ==> !((#[trigger] header[i]) is RParenthesis),
    ensures
        spec_parse_ast(
            seq![TokenView::Run, TokenView::LParenthesis] + header + seq![
                TokenView::RParenthesis,
                TokenView::LBrace,
                TokenView::RBrace,
            ],
        ) == Result::<AstView, ParseErrorView>::Ok(
            AstView::Program(seq![AstView::Run(symbol_names(header), Seq::empty())]),
        ),
{
    let toks = seq![TokenView::Run, TokenView::LParenthesis] + header + seq![
        TokenView::RParenthesis,
        TokenView::LBrace,
        TokenView::RBrace,
    ];
    let end = 2 + header.len() as int;
    assert(toks.len() == header.len() + 5);
    assert(toks[0] == TokenView::Run);
    assert(toks[1] == TokenView::LParenthesis);
    assert(toks[end] is RParenthesis);
    assert(toks[end + 1] == TokenView::LBrace);
    assert(toks[end + 2] == TokenView::RBrace);
    assert(forall|i: int| 2 <= i < end ==> !((#[trigger] toks[i]) is RParenthesis)) by {
        assert(forall|i: int| 2 <= i < end ==> toks[i] == header[i - 2]);
    }
    lemma_action_list_on_header(toks, 2, end);
    assert(toks.subrange(2, end) =~= header);
    reveal_with_fuel(spec_parse_program, 3);
    assert(spec_parse_instruction_list(toks, end + 2) == Result::<
        (Seq<AstView>, int),
        ParseErrorView,
    >::Ok((Seq::<AstView>::empty(), end + 2)));
    let run_node = AstView::Run(symbol_names(header), Seq::<AstView>::empty());
    assert(spec_parse_run(toks, 1) == Result::<(AstView, int), ParseErrorView>::Ok(
        (run_node, end + 3),
    ));
    assert(spec_parse_program(toks, end + 3) == Result::<(Seq<AstView>, int), ParseErrorView>::Ok(
        (Seq::<AstView>::empty(), end + 3),
    ));
    assert(seq![run_node] + Seq::<AstView>::empty() =~= seq![run_node]);
    assert(spec_parse_program(toks, 0) == Result::<(Seq<AstView>, int), ParseErrorView>::Ok(
        (seq![run_node], end + 3),
    ));
}

/// An unterminated construct — the input ends before a required closing
/// delimiter — is reported as exactly that, never accepted and never looped
/// on: here for a record declaration missing its closing brace.
pub proof fn lemma_missing_brace_is_reported(
    name: Seq<char>,
    f1: Seq<char>,
    t1: Seq<char>,
)
    ensures
        spec_parse_ast(
            seq![
                TokenView::Data,
                TokenView::Symbol(name),
                TokenView::LBrace,
                TokenView::Symbol(f1),
                TokenView::Colon,
                TokenView::Symbol(t1),
            ],
        ) == Result::<AstView, ParseErrorView>::Err(ParseErrorView::UnterminatedConstruct),
{
    let toks = seq![
        TokenView::Data,
        TokenView::Symbol(name),
        TokenView::LBrace,
        TokenView::Symbol(f1),
        TokenView::Colon,
        TokenView::Symbol(t1),
    ];
    reveal_with_fuel(spec_parse_field_list, 3);
    assert(spec_parse_field(toks, 3) == Result::<(AstView, int), ParseErrorView>::Ok(
        (AstView::Field(f1, t1), 6),
    ));
    assert(spec_parse_field_list(toks, 6) == Result::<(Seq<AstView>, int), ParseErrorView>::Err(
        ParseErrorView::UnterminatedConstruct,
    ));
}

/// Builds the syntax tree of a whole token sequence, or reports the first
/// syntax error.  `spec_parse_ast` states exactly which token sequences are
/// accepted, the tree they produce, and the error kind every rejected
/// sequence produces.
pub fn parse_ast(tokens: Vec<Token>) -> (r: Result<ASTNode, ParseError>)
    ensures
        match r {
            Ok(node) => spec_parse_ast(token_views(tokens@)) == Result::<
                AstView,
                ParseErrorView,
            >::Ok(node@),
            Err(e) => spec_parse_ast(token_views(tokens@)) == Result::<
                AstView,
                ParseErrorView,
            >::Err(e@),
        },
{
    let mut iterator = tokens.to_lookahead_iter();
    match parse_program(&mut iterator) {
        Ok(node) => Ok(node),
        Err(e) => Err(e),
    }
}

} // verus!
