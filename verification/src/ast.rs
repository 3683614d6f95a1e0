use vstd::prelude::*;

verus! {

/// A node of the syntax tree.
///
/// The tree is built bottom-up, each node exclusively owning its children,
/// and every ordered list preserves source declaration order.  The
/// `Expression` node is the declared extension point of the grammar: the
/// expression language itself is not yet specified, so it merely wraps a
/// placeholder child.
#[derive(Debug)]
pub enum ASTNode {
    Program(Vec<ASTNode>),
    Data(String, Vec<ASTNode>),
    Group(String, Vec<ASTNode>, Vec<ASTNode>),
    Do(String, Vec<ASTNode>),
    Run(Vec<String>, Vec<ASTNode>),
    Parameter(String, String),
    Field(String, String),
    FieldValue(String, String),
    Value(String),
    DataInstanciation(String, Vec<ASTNode>),
    CreateInstruction(String, Vec<ASTNode>),
    Declaration(String, Box<ASTNode>),
    IfStatement(Box<ASTNode>, Vec<ASTNode>),
    ForStatement(Box<ASTNode>, Box<ASTNode>, Box<ASTNode>, Vec<ASTNode>),
    Expression(Box<ASTNode>),
}

/// The mathematical image of a syntax tree: the same shape with every name
/// abstracted to its character sequence.
#[verifier::ext_equal]
pub enum AstView {
    Program(Seq<AstView>),
    Data(Seq<char>, Seq<AstView>),
    Group(Seq<char>, Seq<AstView>, Seq<AstView>),
    Do(Seq<char>, Seq<AstView>),
    Run(Seq<Seq<char>>, Seq<AstView>),
    Parameter(Seq<char>, Seq<char>),
    Field(Seq<char>, Seq<char>),
    FieldValue(Seq<char>, Seq<char>),
    Value(Seq<char>),
    DataInstanciation(Seq<char>, Seq<AstView>),
    CreateInstruction(Seq<char>, Seq<AstView>),
    Declaration(Seq<char>, Box<AstView>),
    IfStatement(Box<AstView>, Seq<AstView>),
    ForStatement(Box<AstView>, Box<AstView>, Box<AstView>, Seq<AstView>),
    Expression(Box<AstView>),
}

/// The image of a syntax tree node.
pub open spec fn ast_view(n: ASTNode) -> AstView
    decreases n,
{
    match n {
        ASTNode::Program(statements) => AstView::Program(ast_views(statements@)),
        ASTNode::Data(name, fields) => AstView::Data(name@, ast_views(fields@)),
        ASTNode::Group(name, parameters, data_instanciations) => AstView::Group(
            name@,
            ast_views(parameters@),
            ast_views(data_instanciations@),
        ),
        ASTNode::Do(name, instructions) => AstView::Do(name@, ast_views(instructions@)),
        ASTNode::Run(actions_to_do, instructions) => AstView::Run(
            string_views(actions_to_do@),
            ast_views(instructions@),
        ),
        ASTNode::Parameter(name, parameter_type) => AstView::Parameter(name@, parameter_type@),
        ASTNode::Field(name, field_type) => AstView::Field(name@, field_type@),
        ASTNode::FieldValue(name, value) => AstView::FieldValue(name@, value@),
        ASTNode::Value(value) => AstView::Value(value@),
        ASTNode::DataInstanciation(data_name, field_values) => AstView::DataInstanciation(
            data_name@,
            ast_views(field_values@),
        ),
        ASTNode::CreateInstruction(groupe_name, parameter_values) => AstView::CreateInstruction(
            groupe_name@,
            ast_views(parameter_values@),
        ),
        ASTNode::Declaration(name, value) => AstView::Declaration(
            name@,
            Box::new(ast_view(*value)),
        ),
        ASTNode::IfStatement(condition, instructions) => AstView::IfStatement(
            Box::new(ast_view(*condition)),
            ast_views(instructions@),
        ),
        ASTNode::ForStatement(declaration, condition, progression, instructions) => {
            AstView::ForStatement(
                Box::new(ast_view(*declaration)),
                Box::new(ast_view(*condition)),
                Box::new(ast_view(*progression)),
                ast_views(instructions@),
            )
        },
        ASTNode::Expression(value) => AstView::Expression(Box::new(ast_view(*value))),
    }
}

/// The views of a list of names, in order.
pub open spec fn string_views(names: Seq<String>) -> Seq<Seq<char>> {
    Seq::new(names.len(), |i: int| names[i]@)
}

/// The images of a list of nodes, in order.
pub open spec fn ast_views(nodes: Seq<ASTNode>) -> Seq<AstView>
    decreases nodes,
{
    Seq::new(
        nodes.len(),
        |i: int|
            if 0 <= i < nodes.len() {
                ast_view(nodes[i])
            } else {
                AstView::Value(Seq::empty())
            },
    )
}

impl View for ASTNode {
    type V = AstView;

    open spec fn view(&self) -> AstView {
        ast_view(*self)
    }
}

impl DeepView for ASTNode {
    type V = AstView;

    open spec fn deep_view(&self) -> AstView {
        ast_view(*self)
    }
}

impl ASTNode {
    pub fn new_data(name: String, fields: Vec<ASTNode>) -> (r: ASTNode)
        ensures
            r == ASTNode::Data(name, fields),
    {
        ASTNode::Data(name, fields)
    }

    pub fn new_group(
        name: String,
        parameters: Vec<ASTNode>,
        data_instanciations: Vec<ASTNode>,
    ) -> (r: ASTNode)
        ensures
            r == ASTNode::Group(name, parameters, data_instanciations),
    {
        ASTNode::Group(name, parameters, data_instanciations)
    }

    pub fn new_do(name: String, instructions: Vec<ASTNode>) -> (r: ASTNode)
        ensures
            r == ASTNode::Do(name, instructions),
    {
        ASTNode::Do(name, instructions)
    }

    pub fn new_run(actions_to_do: Vec<String>, instructions: Vec<ASTNode>) -> (r: ASTNode)
        ensures
            r == ASTNode::Run(actions_to_do, instructions),
    {
        ASTNode::Run(actions_to_do, instructions)
    }

    pub fn new_create_instruction(groupe_name: String, parameter_values: Vec<ASTNode>) -> (r:
        ASTNode)
        ensures
            r == ASTNode::CreateInstruction(groupe_name, parameter_values),
    {
        ASTNode::CreateInstruction(groupe_name, parameter_values)
    }

    pub fn new_parameter(name: String, parameter_type: String) -> (r: ASTNode)
        ensures
            r == ASTNode::Parameter(name, parameter_type),
    {
        ASTNode::Parameter(name, parameter_type)
    }

    pub fn new_field(name: String, field_type: String) -> (r: ASTNode)
        ensures
            r == ASTNode::Field(name, field_type),
    {
        ASTNode::Field(name, field_type)
    }

    pub fn new_field_value(name: String, value: String) -> (r: ASTNode)
        ensures
            r == ASTNode::FieldValue(name, value),
    {
        ASTNode::FieldValue(name, value)
    }

    pub fn new_value(value: String) -> (r: ASTNode)
        ensures
            r == ASTNode::Value(value),
    {
        ASTNode::Value(value)
    }

    pub fn new_data_instanciation(data_name: String, field_values: Vec<ASTNode>) -> (r: ASTNode)
        ensures
            r == ASTNode::DataInstanciation(data_name, field_values),
    {
        ASTNode::DataInstanciation(data_name, field_values)
    }

    pub fn new_program(statements: Vec<ASTNode>) -> (r: ASTNode)
        ensures
            r == ASTNode::Program(statements),
    {
        ASTNode::Program(statements)
    }

    pub fn new_declaration(name: String, value: ASTNode) -> (r: ASTNode)
        ensures
            r == ASTNode::Declaration(name, Box::new(value)),
    {
        ASTNode::Declaration(name, Box::new(value))
    }

    pub fn new_if(condition: ASTNode, instructions: Vec<ASTNode>) -> (r: ASTNode)
        ensures
            r == ASTNode::IfStatement(Box::new(condition), instructions),
    {
        ASTNode::IfStatement(Box::new(condition), instructions)
    }

    pub fn new_for(
        declaration: ASTNode,
        condition: ASTNode,
        progression: ASTNode,
        instructions: Vec<ASTNode>,
    ) -> (r: ASTNode)
        ensures
            r == ASTNode::ForStatement(
                Box::new(declaration),
                Box::new(condition),
                Box::new(progression),
                instructions,
            ),
    {
        ASTNode::ForStatement(
            Box::new(declaration),
            Box::new(condition),
            Box::new(progression),
            instructions,
        )
    }

    pub fn new_expression(value: ASTNode) -> (r: ASTNode)
        ensures
            r == ASTNode::Expression(Box::new(value)),
    {
        ASTNode::Expression(Box::new(value))
    }
}

} // verus!
