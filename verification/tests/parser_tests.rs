use dsl_frontend::ast::ASTNode;
use dsl_frontend::ast_parser::{parse_ast, ParseError};
use dsl_frontend::tokenizer::tokenize;

fn parse_source(source: &str) -> Result<ASTNode, ParseError> {
    parse_ast(tokenize(String::from(source)))
}

fn program_statements(node: ASTNode) -> Vec<ASTNode> {
    match node {
        ASTNode::Program(statements) => statements,
        other => panic!("expected a program, got {:?}", other),
    }
}

#[test]
fn empty_source_parses_to_empty_program() {
    let statements = program_statements(parse_source("").unwrap());
    assert!(statements.is_empty());
}

#[test]
fn data_declaration_preserves_field_order() {
    let statements = program_statements(parse_source("data Foo { a : Int, b : Str }").unwrap());
    assert_eq!(statements.len(), 1);
    match &statements[0] {
        ASTNode::Data(name, fields) => {
            assert_eq!(name, "Foo");
            assert_eq!(fields.len(), 2);
            match &fields[0] {
                ASTNode::Field(f, t) => {
                    assert_eq!(f, "a");
                    assert_eq!(t, "Int");
                }
                other => panic!("expected a field, got {:?}", other),
            }
            match &fields[1] {
                ASTNode::Field(f, t) => {
                    assert_eq!(f, "b");
                    assert_eq!(t, "Str");
                }
                other => panic!("expected a field, got {:?}", other),
            }
        }
        other => panic!("expected a data declaration, got {:?}", other),
    }
}

#[test]
fn data_declaration_commas_are_optional() {
    let with_commas = parse_source("data Foo { a : Int, b : Str }").unwrap();
    let without_commas = parse_source("data Foo { a : Int b : Str }").unwrap();
    assert_eq!(format!("{:?}", with_commas), format!("{:?}", without_commas));
}

#[test]
fn group_preserves_parameter_and_instantiation_order() {
    let statements =
        program_statements(parse_source("group G(a: T1, b: T2) { R1(x=1), R2(y=2) }").unwrap());
    assert_eq!(statements.len(), 1);
    match &statements[0] {
        ASTNode::Group(name, parameters, data_instanciations) => {
            assert_eq!(name, "G");
            assert_eq!(parameters.len(), 2);
            match &parameters[0] {
                ASTNode::Parameter(p, t) => {
                    assert_eq!(p, "a");
                    assert_eq!(t, "T1");
                }
                other => panic!("expected a parameter, got {:?}", other),
            }
            match &parameters[1] {
                ASTNode::Parameter(p, t) => {
                    assert_eq!(p, "b");
                    assert_eq!(t, "T2");
                }
                other => panic!("expected a parameter, got {:?}", other),
            }
            assert_eq!(data_instanciations.len(), 2);
            match &data_instanciations[0] {
                ASTNode::DataInstanciation(r, field_values) => {
                    assert_eq!(r, "R1");
                    assert_eq!(field_values.len(), 1);
                    match &field_values[0] {
                        ASTNode::FieldValue(f, v) => {
                            assert_eq!(f, "x");
                            assert_eq!(v, "1");
                        }
                        other => panic!("expected a field value, got {:?}", other),
                    }
                }
                other => panic!("expected an instantiation, got {:?}", other),
            }
            match &data_instanciations[1] {
                ASTNode::DataInstanciation(r, field_values) => {
                    assert_eq!(r, "R2");
                    assert_eq!(field_values.len(), 1);
                    match &field_values[0] {
                        ASTNode::FieldValue(f, v) => {
                            assert_eq!(f, "y");
                            assert_eq!(v, "2");
                        }
                        other => panic!("expected a field value, got {:?}", other),
                    }
                }
                other => panic!("expected an instantiation, got {:?}", other),
            }
        }
        other => panic!("expected a group declaration, got {:?}", other),
    }
}

#[test]
fn run_header_keeps_only_symbols_in_order() {
    let statements = program_statements(parse_source("run (alpha 12 , beta . ) { }").unwrap());
    assert_eq!(statements.len(), 1);
    match &statements[0] {
        ASTNode::Run(actions_to_do, instructions) => {
            assert_eq!(actions_to_do, &vec![String::from("alpha"), String::from("beta")]);
            assert!(instructions.is_empty());
        }
        other => panic!("expected a run block, got {:?}", other),
    }
}

#[test]
fn do_block_with_create_instruction() {
    let statements = program_statements(parse_source("do act { create G ( a b.c ) }").unwrap());
    assert_eq!(statements.len(), 1);
    match &statements[0] {
        ASTNode::Do(name, instructions) => {
            assert_eq!(name, "act");
            assert_eq!(instructions.len(), 1);
            match &instructions[0] {
                ASTNode::CreateInstruction(groupe, values) => {
                    assert_eq!(groupe, "G");
                    assert_eq!(values.len(), 2);
                    match &values[0] {
                        ASTNode::Value(v) => assert_eq!(v, "a"),
                        other => panic!("expected a value, got {:?}", other),
                    }
                    match &values[1] {
                        ASTNode::Value(v) => assert_eq!(v, "b.c"),
                        other => panic!("expected a value, got {:?}", other),
                    }
                }
                other => panic!("expected a create instruction, got {:?}", other),
            }
        }
        other => panic!("expected a do block, got {:?}", other),
    }
}

#[test]
fn if_statement_declared_shape() {
    let statements = program_statements(parse_source("do act { if c { create G ( ) } }").unwrap());
    match &statements[0] {
        ASTNode::Do(_, instructions) => {
            assert_eq!(instructions.len(), 1);
            match &instructions[0] {
                ASTNode::IfStatement(condition, body) => {
                    assert!(matches!(**condition, ASTNode::Expression(_)));
                    assert_eq!(body.len(), 1);
                    assert!(matches!(body[0], ASTNode::CreateInstruction(_, _)));
                }
                other => panic!("expected an if statement, got {:?}", other),
            }
        }
        other => panic!("expected a do block, got {:?}", other),
    }
}

#[test]
fn for_statement_declared_shape() {
    let statements =
        program_statements(parse_source("do act { for i = a ; b ; c { } }").unwrap());
    match &statements[0] {
        ASTNode::Do(_, instructions) => {
            assert_eq!(instructions.len(), 1);
            match &instructions[0] {
                ASTNode::ForStatement(declaration, condition, progression, body) => {
                    match &**declaration {
                        ASTNode::Declaration(name, value) => {
                            assert_eq!(name, "i");
                            assert!(matches!(**value, ASTNode::Expression(_)));
                        }
                        other => panic!("expected a declaration, got {:?}", other),
                    }
                    assert!(matches!(**condition, ASTNode::Expression(_)));
                    assert!(matches!(**progression, ASTNode::Expression(_)));
                    assert!(body.is_empty());
                }
                other => panic!("expected a for statement, got {:?}", other),
            }
        }
        other => panic!("expected a do block, got {:?}", other),
    }
}

#[test]
fn symbol_field_values_are_kept_verbatim() {
    let statements = program_statements(parse_source("group G() { R(x=u) }").unwrap());
    match &statements[0] {
        ASTNode::Group(_, _, data_instanciations) => match &data_instanciations[0] {
            ASTNode::DataInstanciation(_, field_values) => match &field_values[0] {
                ASTNode::FieldValue(f, v) => {
                    assert_eq!(f, "x");
                    assert_eq!(v, "u");
                }
                other => panic!("expected a field value, got {:?}", other),
            },
            other => panic!("expected an instantiation, got {:?}", other),
        },
        other => panic!("expected a group declaration, got {:?}", other),
    }
}

#[test]
fn let_less_declaration_is_an_instruction() {
    let statements = program_statements(parse_source("do act { x = y }").unwrap());
    match &statements[0] {
        ASTNode::Do(_, instructions) => {
            assert_eq!(instructions.len(), 1);
            match &instructions[0] {
                ASTNode::Declaration(name, value) => {
                    assert_eq!(name, "x");
                    assert!(matches!(**value, ASTNode::Expression(_)));
                }
                other => panic!("expected a declaration, got {:?}", other),
            }
        }
        other => panic!("expected a do block, got {:?}", other),
    }
}

#[test]
fn let_declaration_declared_shape() {
    let statements = program_statements(parse_source("do act { let x = y }").unwrap());
    match &statements[0] {
        ASTNode::Do(_, instructions) => {
            assert_eq!(instructions.len(), 1);
            match &instructions[0] {
                ASTNode::Declaration(name, value) => {
                    assert_eq!(name, "x");
                    assert!(matches!(**value, ASTNode::Expression(_)));
                }
                other => panic!("expected a declaration, got {:?}", other),
            }
        }
        other => panic!("expected a do block, got {:?}", other),
    }
}

#[test]
fn nested_if_blocks_parse() {
    let statements =
        program_statements(parse_source("do act { if a { if b { create G ( ) } } }").unwrap());
    match &statements[0] {
        ASTNode::Do(_, instructions) => match &instructions[0] {
            ASTNode::IfStatement(_, body) => match &body[0] {
                ASTNode::IfStatement(_, inner) => {
                    assert!(matches!(inner[0], ASTNode::CreateInstruction(_, _)));
                }
                other => panic!("expected a nested if, got {:?}", other),
            },
            other => panic!("expected an if statement, got {:?}", other),
        },
        other => panic!("expected a do block, got {:?}", other),
    }
}

#[test]
fn unterminated_if_block_is_reported() {
    assert_eq!(
        parse_source("do act { if a { create G ( ) ").unwrap_err(),
        ParseError::UnterminatedConstruct
    );
}

#[test]
fn several_statements_in_order() {
    let statements =
        program_statements(parse_source("data A { } data B { } do act { }").unwrap());
    assert_eq!(statements.len(), 3);
    assert!(matches!(statements[0], ASTNode::Data(_, _)));
    assert!(matches!(statements[1], ASTNode::Data(_, _)));
    assert!(matches!(statements[2], ASTNode::Do(_, _)));
}

#[test]
fn missing_closing_brace_is_unterminated() {
    assert_eq!(
        parse_source("data Foo { x : Int").unwrap_err(),
        ParseError::UnterminatedConstruct
    );
}

#[test]
fn unclosed_run_header_is_unterminated() {
    assert_eq!(
        parse_source("run ( a b").unwrap_err(),
        ParseError::UnterminatedConstruct
    );
}

#[test]
fn data_without_name_is_missing_name() {
    assert_eq!(parse_source("data { }").unwrap_err(), ParseError::MissingName);
}

#[test]
fn data_without_brace_is_missing_delimiter() {
    assert_eq!(
        parse_source("data Foo x").unwrap_err(),
        ParseError::MissingDelimiter(Some(String::from("Foo")))
    );
}

#[test]
fn field_without_colon_is_missing_type_annotation() {
    assert_eq!(
        parse_source("data Foo { x Int }").unwrap_err(),
        ParseError::MissingTypeAnnotation(String::from("x"))
    );
}

#[test]
fn field_value_without_equal_is_missing_value() {
    assert_eq!(
        parse_source("group G() { R(x 1 2) }").unwrap_err(),
        ParseError::MissingValue(String::from("x"))
    );
}

#[test]
fn stray_token_at_top_level_is_unexpected() {
    assert_eq!(
        parse_source("create G ( )").unwrap_err(),
        ParseError::UnexpectedToken(String::from("create"))
    );
}
