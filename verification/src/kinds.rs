//! The vocabulary of the C and C++ grammars: node kinds and field names.

use vstd::prelude::*;
use crate::text::same;

verus! {

/// What a node is: the node kinds of the grammars that some rule looks at.
#[derive(Debug, Clone, Copy, PartialEq, Eq, Structural)]
pub enum Kind {
    /// `compound_statement`
    CompoundStatement,
    /// `empty_statement`
    EmptyStatement,
    /// `expression_statement`
    ExpressionStatement,
    /// `function_definition`
    FunctionDefinition,
    /// `declaration`
    Declaration,
    /// `comment`
    Comment,
    /// `assignment_expression`
    AssignmentExpression,
    /// `update_expression`
    UpdateExpression,
    /// `parenthesized_expression`
    ParenthesizedExpression,
    /// `if_statement`
    IfStatement,
    /// `while_statement`
    WhileStatement,
    /// `do_statement`
    DoStatement,
    /// `for_statement`
    ForStatement,
    /// `switch_statement`
    SwitchStatement,
    /// `return_statement`
    ReturnStatement,
    /// `break_statement`
    BreakStatement,
    /// `continue_statement`
    ContinueStatement,
    /// `goto_statement`
    GotoStatement,
    /// `labeled_statement`
    LabeledStatement,
    /// `case_statement`
    CaseStatement,
    /// `initializer_list`
    InitializerList,
    /// `initializer_pair`
    InitializerPair,
    /// `init_declarator`
    InitDeclarator,
    /// `identifier`
    Identifier,
    /// `function_declarator`
    FunctionDeclarator,
    /// `pointer_declarator`
    PointerDeclarator,
    /// `parenthesized_declarator`
    ParenthesizedDeclarator,
    /// `array_declarator`
    ArrayDeclarator,
    /// `gnu_asm_expression`
    GnuAsmExpression,
    /// `union_specifier`
    UnionSpecifier,
    /// `struct_specifier`
    StructSpecifier,
    /// `class_specifier`
    ClassSpecifier,
    /// `enum_specifier`
    EnumSpecifier,
    /// `type_identifier`
    TypeIdentifier,
    /// `field_declaration`
    FieldDeclaration,
    /// `storage_class_specifier`
    StorageClassSpecifier,
    /// `field_identifier`
    FieldIdentifier,
    /// `type_definition`
    TypeDefinition,
    /// `abstract_array_declarator`
    AbstractArrayDeclarator,
    /// `abstract_parenthesized_declarator`
    AbstractParenthesizedDeclarator,
    /// `abstract_pointer_declarator`
    AbstractPointerDeclarator,
    /// `abstract_function_declarator`
    AbstractFunctionDeclarator,
    /// `parameter_declaration`
    ParameterDeclaration,
    /// `comma_expression`
    CommaExpression,
    /// `number_literal`
    NumberLiteral,
    /// `string_literal`
    StringLiteral,
    /// `char_literal`
    CharLiteral,
    /// `concatenated_string`
    ConcatenatedString,
    /// `true`
    TrueLiteral,
    /// `false`
    FalseLiteral,
    /// `null`
    NullLiteral,
    /// `unary_expression`
    UnaryExpression,
    /// `binary_expression`
    BinaryExpression,
    /// `field_expression`
    FieldExpression,
    /// `pointer_expression`
    PointerExpression,
    /// `subscript_expression`
    SubscriptExpression,
    /// `call_expression`
    CallExpression,
    /// `cast_expression`
    CastExpression,
    /// `sizeof_expression`
    SizeofExpression,
    /// `alignof_expression`
    AlignofExpression,
    /// `compound_literal_expression`
    CompoundLiteralExpression,
    /// `conditional_expression`
    ConditionalExpression,
    /// `generic_expression`
    GenericExpression,
    /// `type_descriptor`
    TypeDescriptor,
    /// `argument_list`
    ArgumentList,
    /// `primitive_type`
    PrimitiveType,
    /// `qualified_identifier`
    QualifiedIdentifier,
    /// `destructor_name`
    DestructorName,
    /// `reference_declarator`
    ReferenceDeclarator,
    /// `base_class_clause`
    BaseClassClause,
    /// `field_initializer_list`
    FieldInitializerList,
    /// `field_initializer`
    FieldInitializer,
    /// `namespace_definition`
    NamespaceDefinition,
    /// `virtual`
    Virtual,
    /// `virtual_specifier`
    VirtualSpecifier,
    /// `declaration_list`
    DeclarationList,
    /// `field_declaration_list`
    FieldDeclarationList,
    /// `namespace_identifier`
    NamespaceIdentifier,
    /// `new_expression`
    NewExpression,
    /// `delete_expression`
    DeleteExpression,
    /// `type_qualifier`
    TypeQualifier,
    /// `this`
    This,
    /// `parameter_list`
    ParameterList,
    /// `;`
    Semicolon,
    /// `(`
    OpenParen,
    /// `=`
    Assign,
    /// `==`
    EqualEqual,
    /// `<=`
    LessEqual,
    /// `>=`
    GreaterEqual,
    /// `ERROR`
    Error,
    /// A kind no rule looks at.
    Other,
}

/// The kind the grammar spells `name`.
pub open spec fn kind_of(name: Seq<char>) -> Kind {
    if name == "compound_statement"@ {
        Kind::CompoundStatement
    } else if name == "empty_statement"@ {
        Kind::EmptyStatement
    } else if name == "expression_statement"@ {
        Kind::ExpressionStatement
    } else if name == "function_definition"@ {
        Kind::FunctionDefinition
    } else if name == "declaration"@ {
        Kind::Declaration
    } else if name == "comment"@ {
        Kind::Comment
    } else if name == "assignment_expression"@ {
        Kind::AssignmentExpression
    } else if name == "update_expression"@ {
        Kind::UpdateExpression
    } else if name == "parenthesized_expression"@ {
        Kind::ParenthesizedExpression
    } else if name == "if_statement"@ {
        Kind::IfStatement
    } else if name == "while_statement"@ {
        Kind::WhileStatement
    } else if name == "do_statement"@ {
        Kind::DoStatement
    } else if name == "for_statement"@ {
        Kind::ForStatement
    } else if name == "switch_statement"@ {
        Kind::SwitchStatement
    } else if name == "return_statement"@ {
        Kind::ReturnStatement
    } else if name == "break_statement"@ {
        Kind::BreakStatement
    } else if name == "continue_statement"@ {
        Kind::ContinueStatement
    } else if name == "goto_statement"@ {
        Kind::GotoStatement
    } else if name == "labeled_statement"@ {
        Kind::LabeledStatement
    } else if name == "case_statement"@ {
        Kind::CaseStatement
    } else if name == "initializer_list"@ {
        Kind::InitializerList
    } else if name == "initializer_pair"@ {
        Kind::InitializerPair
    } else if name == "init_declarator"@ {
        Kind::InitDeclarator
    } else if name == "identifier"@ {
        Kind::Identifier
    } else if name == "function_declarator"@ {
        Kind::FunctionDeclarator
    } else if name == "pointer_declarator"@ {
        Kind::PointerDeclarator
    } else if name == "parenthesized_declarator"@ {
        Kind::ParenthesizedDeclarator
    } else if name == "array_declarator"@ {
        Kind::ArrayDeclarator
    } else if name == "gnu_asm_expression"@ {
        Kind::GnuAsmExpression
    } else if name == "union_specifier"@ {
        Kind::UnionSpecifier
    } else if name == "struct_specifier"@ {
        Kind::StructSpecifier
    } else if name == "class_specifier"@ {
        Kind::ClassSpecifier
    } else if name == "enum_specifier"@ {
        Kind::EnumSpecifier
    } else if name == "type_identifier"@ {
        Kind::TypeIdentifier
    } else if name == "field_declaration"@ {
        Kind::FieldDeclaration
    } else if name == "storage_class_specifier"@ {
        Kind::StorageClassSpecifier
    } else if name == "field_identifier"@ {
        Kind::FieldIdentifier
    } else if name == "type_definition"@ {
        Kind::TypeDefinition
    } else if name == "abstract_array_declarator"@ {
        Kind::AbstractArrayDeclarator
    } else if name == "abstract_parenthesized_declarator"@ {
        Kind::AbstractParenthesizedDeclarator
    } else if name == "abstract_pointer_declarator"@ {
        Kind::AbstractPointerDeclarator
    } else if name == "abstract_function_declarator"@ {
        Kind::AbstractFunctionDeclarator
    } else if name == "parameter_declaration"@ {
        Kind::ParameterDeclaration
    } else if name == "comma_expression"@ {
        Kind::CommaExpression
    } else if name == "number_literal"@ {
        Kind::NumberLiteral
    } else if name == "string_literal"@ {
        Kind::StringLiteral
    } else if name == "char_literal"@ {
        Kind::CharLiteral
    } else if name == "concatenated_string"@ {
        Kind::ConcatenatedString
    } else if name == "true"@ {
        Kind::TrueLiteral
    } else if name == "false"@ {
        Kind::FalseLiteral
    } else if name == "null"@ {
        Kind::NullLiteral
    } else if name == "unary_expression"@ {
        Kind::UnaryExpression
    } else if name == "binary_expression"@ {
        Kind::BinaryExpression
    } else if name == "field_expression"@ {
        Kind::FieldExpression
    } else if name == "pointer_expression"@ {
        Kind::PointerExpression
    } else if name == "subscript_expression"@ {
        Kind::SubscriptExpression
    } else if name == "call_expression"@ {
        Kind::CallExpression
    } else if name == "cast_expression"@ {
        Kind::CastExpression
    } else if name == "sizeof_expression"@ {
        Kind::SizeofExpression
    } else if name == "alignof_expression"@ {
        Kind::AlignofExpression
    } else if name == "compound_literal_expression"@ {
        Kind::CompoundLiteralExpression
    } else if name == "conditional_expression"@ {
        Kind::ConditionalExpression
    } else if name == "generic_expression"@ {
        Kind::GenericExpression
    } else if name == "type_descriptor"@ {
        Kind::TypeDescriptor
    } else if name == "argument_list"@ {
        Kind::ArgumentList
    } else if name == "primitive_type"@ {
        Kind::PrimitiveType
    } else if name == "qualified_identifier"@ {
        Kind::QualifiedIdentifier
    } else if name == "destructor_name"@ {
        Kind::DestructorName
    } else if name == "reference_declarator"@ {
        Kind::ReferenceDeclarator
    } else if name == "base_class_clause"@ {
        Kind::BaseClassClause
    } else if name == "field_initializer_list"@ {
        Kind::FieldInitializerList
    } else if name == "field_initializer"@ {
        Kind::FieldInitializer
    } else if name == "namespace_definition"@ {
        Kind::NamespaceDefinition
    } else if name == "virtual"@ {
        Kind::Virtual
    } else if name == "virtual_specifier"@ {
        Kind::VirtualSpecifier
    } else if name == "declaration_list"@ {
        Kind::DeclarationList
    } else if name == "field_declaration_list"@ {
        Kind::FieldDeclarationList
    } else if name == "namespace_identifier"@ {
        Kind::NamespaceIdentifier
    } else if name == "new_expression"@ {
        Kind::NewExpression
    } else if name == "delete_expression"@ {
        Kind::DeleteExpression
    } else if name == "type_qualifier"@ {
        Kind::TypeQualifier
    } else if name == "this"@ {
        Kind::This
    } else if name == "parameter_list"@ {
        Kind::ParameterList
    } else if name == ";"@ {
        Kind::Semicolon
    } else if name == "("@ {
        Kind::OpenParen
    } else if name == "="@ {
        Kind::Assign
    } else if name == "=="@ {
        Kind::EqualEqual
    } else if name == "<="@ {
        Kind::LessEqual
    } else if name == ">="@ {
        Kind::GreaterEqual
    } else if name == "ERROR"@ {
        Kind::Error
    } else {
        Kind::Other
    }
}

/// The kind the grammar spells `name`.
pub(crate) fn read_kind(name: &str) -> (r: Kind)
    ensures
        r == kind_of(name@),
{
    if same(name, "compound_statement") {
        Kind::CompoundStatement
    } else if same(name, "empty_statement") {
        Kind::EmptyStatement
    } else if same(name, "expression_statement") {
        Kind::ExpressionStatement
    } else if same(name, "function_definition") {
        Kind::FunctionDefinition
    } else if same(name, "declaration") {
        Kind::Declaration
    } else if same(name, "comment") {
        Kind::Comment
    } else if same(name, "assignment_expression") {
        Kind::AssignmentExpression
    } else if same(name, "update_expression") {
        Kind::UpdateExpression
    } else if same(name, "parenthesized_expression") {
        Kind::ParenthesizedExpression
    } else if same(name, "if_statement") {
        Kind::IfStatement
    } else if same(name, "while_statement") {
        Kind::WhileStatement
    } else if same(name, "do_statement") {
        Kind::DoStatement
    } else if same(name, "for_statement") {
        Kind::ForStatement
    } else if same(name, "switch_statement") {
        Kind::SwitchStatement
    } else if same(name, "return_statement") {
        Kind::ReturnStatement
    } else if same(name, "break_statement") {
        Kind::BreakStatement
    } else if same(name, "continue_statement") {
        Kind::ContinueStatement
    } else if same(name, "goto_statement") {
        Kind::GotoStatement
    } else if same(name, "labeled_statement") {
        Kind::LabeledStatement
    } else if same(name, "case_statement") {
        Kind::CaseStatement
    } else if same(name, "initializer_list") {
        Kind::InitializerList
    } else if same(name, "initializer_pair") {
        Kind::InitializerPair
    } else if same(name, "init_declarator") {
        Kind::InitDeclarator
    } else if same(name, "identifier") {
        Kind::Identifier
    } else if same(name, "function_declarator") {
        Kind::FunctionDeclarator
    } else if same(name, "pointer_declarator") {
        Kind::PointerDeclarator
    } else if same(name, "parenthesized_declarator") {
        Kind::ParenthesizedDeclarator
    } else if same(name, "array_declarator") {
        Kind::ArrayDeclarator
    } else if same(name, "gnu_asm_expression") {
        Kind::GnuAsmExpression
    } else if same(name, "union_specifier") {
        Kind::UnionSpecifier
    } else if same(name, "struct_specifier") {
        Kind::StructSpecifier
    } else if same(name, "class_specifier") {
        Kind::ClassSpecifier
    } else if same(name, "enum_specifier") {
        Kind::EnumSpecifier
    } else if same(name, "type_identifier") {
        Kind::TypeIdentifier
    } else if same(name, "field_declaration") {
        Kind::FieldDeclaration
    } else if same(name, "storage_class_specifier") {
        Kind::StorageClassSpecifier
    } else if same(name, "field_identifier") {
        Kind::FieldIdentifier
    } else if same(name, "type_definition") {
        Kind::TypeDefinition
    } else if same(name, "abstract_array_declarator") {
        Kind::AbstractArrayDeclarator
    } else if same(name, "abstract_parenthesized_declarator") {
        Kind::AbstractParenthesizedDeclarator
    } else if same(name, "abstract_pointer_declarator") {
        Kind::AbstractPointerDeclarator
    } else if same(name, "abstract_function_declarator") {
        Kind::AbstractFunctionDeclarator
    } else if same(name, "parameter_declaration") {
        Kind::ParameterDeclaration
    } else if same(name, "comma_expression") {
        Kind::CommaExpression
    } else if same(name, "number_literal") {
        Kind::NumberLiteral
    } else if same(name, "string_literal") {
        Kind::StringLiteral
    } else if same(name, "char_literal") {
        Kind::CharLiteral
    } else if same(name, "concatenated_string") {
        Kind::ConcatenatedString
    } else if same(name, "true") {
        Kind::TrueLiteral
    } else if same(name, "false") {
        Kind::FalseLiteral
    } else if same(name, "null") {
        Kind::NullLiteral
    } else if same(name, "unary_expression") {
        Kind::UnaryExpression
    } else if same(name, "binary_expression") {
        Kind::BinaryExpression
    } else if same(name, "field_expression") {
        Kind::FieldExpression
    } else if same(name, "pointer_expression") {
        Kind::PointerExpression
    } else if same(name, "subscript_expression") {
        Kind::SubscriptExpression
    } else if same(name, "call_expression") {
        Kind::CallExpression
    } else if same(name, "cast_expression") {
        Kind::CastExpression
    } else if same(name, "sizeof_expression") {
        Kind::SizeofExpression
    } else if same(name, "alignof_expression") {
        Kind::AlignofExpression
    } else if same(name, "compound_literal_expression") {
        Kind::CompoundLiteralExpression
    } else if same(name, "conditional_expression") {
        Kind::ConditionalExpression
    } else if same(name, "generic_expression") {
        Kind::GenericExpression
    } else if same(name, "type_descriptor") {
        Kind::TypeDescriptor
    } else if same(name, "argument_list") {
        Kind::ArgumentList
    } else if same(name, "primitive_type") {
        Kind::PrimitiveType
    } else if same(name, "qualified_identifier") {
        Kind::QualifiedIdentifier
    } else if same(name, "destructor_name") {
        Kind::DestructorName
    } else if same(name, "reference_declarator") {
        Kind::ReferenceDeclarator
    } else if same(name, "base_class_clause") {
        Kind::BaseClassClause
    } else if same(name, "field_initializer_list") {
        Kind::FieldInitializerList
    } else if same(name, "field_initializer") {
        Kind::FieldInitializer
    } else if same(name, "namespace_definition") {
        Kind::NamespaceDefinition
    } else if same(name, "virtual") {
        Kind::Virtual
    } else if same(name, "virtual_specifier") {
        Kind::VirtualSpecifier
    } else if same(name, "declaration_list") {
        Kind::DeclarationList
    } else if same(name, "field_declaration_list") {
        Kind::FieldDeclarationList
    } else if same(name, "namespace_identifier") {
        Kind::NamespaceIdentifier
    } else if same(name, "new_expression") {
        Kind::NewExpression
    } else if same(name, "delete_expression") {
        Kind::DeleteExpression
    } else if same(name, "type_qualifier") {
        Kind::TypeQualifier
    } else if same(name, "this") {
        Kind::This
    } else if same(name, "parameter_list") {
        Kind::ParameterList
    } else if same(name, ";") {
        Kind::Semicolon
    } else if same(name, "(") {
        Kind::OpenParen
    } else if same(name, "=") {
        Kind::Assign
    } else if same(name, "==") {
        Kind::EqualEqual
    } else if same(name, "<=") {
        Kind::LessEqual
    } else if same(name, ">=") {
        Kind::GreaterEqual
    } else if same(name, "ERROR") {
        Kind::Error
    } else {
        Kind::Other
    }
}

/// The role a node has in its parent: the field names of the grammars that some rule looks at.
#[derive(Debug, Clone, Copy, PartialEq, Eq, Structural)]
pub enum Field {
    /// `declarator`
    Declarator,
    /// `type`
    Type,
    /// `name`
    Name,
    /// `body`
    Body,
    /// `parameters`
    Parameters,
    /// `value`
    Value,
    /// `designator`
    Designator,
    /// `label`
    Label,
    /// `condition`
    Condition,
    /// `consequence`
    Consequence,
    /// `alternative`
    Alternative,
    /// `initializer`
    Initializer,
    /// `update`
    Update,
    /// `left`
    Left,
    /// `right`
    Right,
    /// `operator`
    Operator,
    /// `argument`
    Argument,
    /// `field`
    Member,
    /// `index`
    Index,
    /// `function`
    Function,
    /// `arguments`
    Arguments,
    /// `output_operands`
    OutputOperands,
    /// `input_operands`
    InputOperands,
    /// `operand`
    Operand,
    /// `constraint`
    Constraint,
    /// `goto_labels`
    GotoLabels,
    /// `scope`
    Scope,
    /// `indices`
    Indices,
    /// `placement`
    Placement,
    /// No field, or one no rule looks at.
    NoField,
}

/// The field the grammar spells `name`.
pub open spec fn field_of(name: Seq<char>) -> Field {
    if name == "declarator"@ {
        Field::Declarator
    } else if name == "type"@ {
        Field::Type
    } else if name == "name"@ {
        Field::Name
    } else if name == "body"@ {
        Field::Body
    } else if name == "parameters"@ {
        Field::Parameters
    } else if name == "value"@ {
        Field::Value
    } else if name == "designator"@ {
        Field::Designator
    } else if name == "label"@ {
        Field::Label
    } else if name == "condition"@ {
        Field::Condition
    } else if name == "consequence"@ {
        Field::Consequence
    } else if name == "alternative"@ {
        Field::Alternative
    } else if name == "initializer"@ {
        Field::Initializer
    } else if name == "update"@ {
        Field::Update
    } else if name == "left"@ {
        Field::Left
    } else if name == "right"@ {
        Field::Right
    } else if name == "operator"@ {
        Field::Operator
    } else if name == "argument"@ {
        Field::Argument
    } else if name == "field"@ {
        Field::Member
    } else if name == "index"@ {
        Field::Index
    } else if name == "function"@ {
        Field::Function
    } else if name == "arguments"@ {
        Field::Arguments
    } else if name == "output_operands"@ {
        Field::OutputOperands
    } else if name == "input_operands"@ {
        Field::InputOperands
    } else if name == "operand"@ {
        Field::Operand
    } else if name == "constraint"@ {
        Field::Constraint
    } else if name == "goto_labels"@ {
        Field::GotoLabels
    } else if name == "scope"@ {
        Field::Scope
    } else if name == "indices"@ {
        Field::Indices
    } else if name == "placement"@ {
        Field::Placement
    } else {
        Field::NoField
    }
}

/// The field the grammar spells `name`.
pub(crate) fn read_field(name: &str) -> (r: Field)
    ensures
        r == field_of(name@),
{
    if same(name, "declarator") {
        Field::Declarator
    } else if same(name, "type") {
        Field::Type
    } else if same(name, "name") {
        Field::Name
    } else if same(name, "body") {
        Field::Body
    } else if same(name, "parameters") {
        Field::Parameters
    } else if same(name, "value") {
        Field::Value
    } else if same(name, "designator") {
        Field::Designator
    } else if same(name, "label") {
        Field::Label
    } else if same(name, "condition") {
        Field::Condition
    } else if same(name, "consequence") {
        Field::Consequence
    } else if same(name, "alternative") {
        Field::Alternative
    } else if same(name, "initializer") {
        Field::Initializer
    } else if same(name, "update") {
        Field::Update
    } else if same(name, "left") {
        Field::Left
    } else if same(name, "right") {
        Field::Right
    } else if same(name, "operator") {
        Field::Operator
    } else if same(name, "argument") {
        Field::Argument
    } else if same(name, "field") {
        Field::Member
    } else if same(name, "index") {
        Field::Index
    } else if same(name, "function") {
        Field::Function
    } else if same(name, "arguments") {
        Field::Arguments
    } else if same(name, "output_operands") {
        Field::OutputOperands
    } else if same(name, "input_operands") {
        Field::InputOperands
    } else if same(name, "operand") {
        Field::Operand
    } else if same(name, "constraint") {
        Field::Constraint
    } else if same(name, "goto_labels") {
        Field::GotoLabels
    } else if same(name, "scope") {
        Field::Scope
    } else if same(name, "indices") {
        Field::Indices
    } else if same(name, "placement") {
        Field::Placement
    } else {
        Field::NoField
    }
}

} // verus!
