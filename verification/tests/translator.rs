use miac2c::ast::{Field, FieldName, Node, NodeKind};
use miac2c::gen::{
    match_type, translate_block, translate_function, translate_return_statement, translate_to_c,
    translate_variable_declaration, TranslateError,
};

fn leaf(kind: NodeKind, text: &str) -> Node {
    Node { kind, text: text.to_string(), children: Vec::new(), fields: Vec::new() }
}

fn node(kind: NodeKind, children: Vec<Node>, fields: Vec<(FieldName, Node)>) -> Node {
    Node {
        kind,
        text: String::new(),
        children,
        fields: fields.into_iter().map(|(name, node)| Field { name, node }).collect(),
    }
}

fn decl(mutability: &str, ty: &str, name: &str, value: &str) -> Node {
    node(
        NodeKind::VariableDeclaration,
        vec![],
        vec![
            (FieldName::Type, leaf(NodeKind::Other, ty)),
            (FieldName::Name, leaf(NodeKind::Other, name)),
            (FieldName::MutabilitySpecifier, leaf(NodeKind::Other, mutability)),
            (FieldName::Value, leaf(NodeKind::Other, value)),
        ],
    )
}

fn param(name: &str, ty: &str) -> Node {
    node(
        NodeKind::Parameter,
        vec![],
        vec![
            (FieldName::Name, leaf(NodeKind::Other, name)),
            (FieldName::Type, leaf(NodeKind::Other, ty)),
        ],
    )
}

fn block(statements: Vec<Node>) -> Node {
    node(NodeKind::Other, statements, vec![])
}

fn function(name: &str, ret: &str, params: Vec<Node>, body: Vec<Node>) -> Node {
    let mut list = vec![leaf(NodeKind::Other, "(")];
    list.extend(params);
    list.push(leaf(NodeKind::Other, ")"));
    node(
        NodeKind::FunctionDefinition,
        vec![],
        vec![
            (FieldName::Name, leaf(NodeKind::Other, name)),
            (FieldName::ReturnType, leaf(NodeKind::Other, ret)),
            (FieldName::Parameters, node(NodeKind::ParameterList, list, vec![])),
            (FieldName::Body, block(body)),
        ],
    )
}

fn return_statement(expr: &str) -> Node {
    node(
        NodeKind::ReturnStatement,
        vec![leaf(NodeKind::Other, "return"), leaf(NodeKind::Other, expr)],
        vec![],
    )
}

fn assignment(text: &str) -> Node {
    leaf(NodeKind::AssignmentStatement, text)
}

fn while_statement(condition: &str, body: Vec<Node>) -> Node {
    node(
        NodeKind::WhileStatement,
        vec![],
        vec![
            (FieldName::Condition, leaf(NodeKind::Other, condition)),
            (FieldName::Body, block(body)),
        ],
    )
}

fn if_statement(condition: &str, body: Vec<Node>) -> Node {
    node(
        NodeKind::IfStatement,
        vec![],
        vec![
            (FieldName::Condition, leaf(NodeKind::Other, condition)),
            (FieldName::Body, block(body)),
        ],
    )
}

fn program(items: Vec<Node>) -> Node {
    node(NodeKind::Program, items, vec![])
}

#[test]
fn lowers_each_supported_type() {
    assert_eq!(match_type("i32".to_string()), "int");
    assert_eq!(match_type("f32".to_string()), "float");
    assert_eq!(match_type("string".to_string()), "char *");
    assert_eq!(match_type("bool".to_string()), "int");
}

#[test]
fn lowers_unknown_type_to_empty() {
    assert_eq!(match_type("i64".to_string()), "");
    assert_eq!(match_type("Int".to_string()), "");
    assert_eq!(match_type("".to_string()), "");
}

#[test]
fn const_declaration_translates_to_const_int() {
    let p = program(vec![decl("const", "i32", "x", "5")]);
    assert_eq!(translate_to_c(&p).unwrap(), "const int x = 5;\n");
}

#[test]
fn other_mutability_emits_no_prefix() {
    let p = program(vec![decl("mut", "i32", "x", "5")]);
    let out = translate_to_c(&p).unwrap();
    assert_eq!(out, "int x = 5;\n");
    assert!(!out.starts_with("const "));
}

#[test]
fn round_trip_add_function() {
    let p = program(vec![function(
        "add",
        "i32",
        vec![param("a", "i32"), param("b", "i32")],
        vec![return_statement("a + b")],
    )]);
    assert_eq!(translate_to_c(&p).unwrap(), "int add(int a, int b) {\nreturn a + b;\n}\n");
}

#[test]
fn empty_parameter_list_emits_empty_parentheses() {
    let p = program(vec![function("f", "bool", vec![], vec![return_statement("1")])]);
    assert_eq!(translate_to_c(&p).unwrap(), "int f() {\nreturn 1;\n}\n");
}

#[test]
fn single_parameter_has_no_separator() {
    let p = program(vec![function("g", "f32", vec![param("x", "f32")], vec![])]);
    assert_eq!(translate_to_c(&p).unwrap(), "float g(float x) {\n}\n");
}

#[test]
fn three_parameters_joined_in_order() {
    let p = program(vec![function(
        "h",
        "i32",
        vec![param("a", "i32"), param("s", "string"), param("c", "bool")],
        vec![],
    )]);
    assert_eq!(translate_to_c(&p).unwrap(), "int h(int a, char * s, int c) {\n}\n");
}

#[test]
fn non_parameter_children_are_skipped() {
    let list = node(
        NodeKind::ParameterList,
        vec![
            leaf(NodeKind::Other, "("),
            param("a", "i32"),
            leaf(NodeKind::Other, ","),
            param("b", "bool"),
            leaf(NodeKind::Other, ")"),
        ],
        vec![],
    );
    let f = node(
        NodeKind::FunctionDefinition,
        vec![],
        vec![
            (FieldName::Name, leaf(NodeKind::Other, "f")),
            (FieldName::ReturnType, leaf(NodeKind::Other, "i32")),
            (FieldName::Parameters, list),
            (FieldName::Body, block(vec![])),
        ],
    );
    assert_eq!(translate_function(&f).unwrap(), "int f(int a, int b) {\n}\n");
}

#[test]
fn statement_order_is_preserved() {
    let b = block(vec![assignment("x = 1;"), assignment("y = 2;"), return_statement("x")]);
    assert_eq!(translate_block(&b).unwrap(), "x = 1;\ny = 2;\nreturn x;\n");
}

#[test]
fn unknown_statement_kind_is_silently_dropped() {
    // The generator deliberately emits nothing for statement kinds it does
    // not recognize, rather than rejecting them.
    let b = block(vec![
        assignment("x = 1;"),
        leaf(NodeKind::Other, "weird statement"),
        assignment("y = 2;"),
    ]);
    assert_eq!(translate_block(&b).unwrap(), "x = 1;\ny = 2;\n");
}

#[test]
fn local_declaration_inside_block() {
    let b = block(vec![decl("let", "string", "s", "\"hi\"")]);
    assert_eq!(translate_block(&b).unwrap(), "char * s = \"hi\";\n");
}

#[test]
fn assignment_copied_verbatim() {
    let b = block(vec![assignment("x = x * (y + 1);")]);
    assert_eq!(translate_block(&b).unwrap(), "x = x * (y + 1);\n");
}

#[test]
fn while_with_nested_if_produces_two_brace_levels() {
    let b = block(vec![while_statement(
        "i < 10",
        vec![if_statement("i > 5", vec![assignment("i = 0;")]), assignment("i = i + 1;")],
    )]);
    let out = translate_block(&b).unwrap();
    assert_eq!(
        out,
        "while (i < 10) {\nif (i > 5) {\ni = 0;\n}\ni = i + 1;\n}\n"
    );
    let opens = out.chars().filter(|c| *c == '{').count();
    let closes = out.chars().filter(|c| *c == '}').count();
    assert_eq!(opens, 2);
    assert_eq!(opens, closes);
}

#[test]
fn while_nested_in_while_recurses() {
    let b = block(vec![while_statement(
        "a",
        vec![while_statement("b", vec![assignment("c = d;")])],
    )]);
    assert_eq!(
        translate_block(&b).unwrap(),
        "while (a) {\nwhile (b) {\nc = d;\n}\n}\n"
    );
}

#[test]
fn return_statement_emits_second_child() {
    let r = return_statement("n * 2");
    assert_eq!(translate_return_statement(&r).unwrap(), "return n * 2;\n");
}

#[test]
fn declaration_missing_type_reports_error() {
    let d = node(
        NodeKind::VariableDeclaration,
        vec![],
        vec![
            (FieldName::Name, leaf(NodeKind::Other, "x")),
            (FieldName::MutabilitySpecifier, leaf(NodeKind::Other, "const")),
            (FieldName::Value, leaf(NodeKind::Other, "5")),
        ],
    );
    assert_eq!(
        translate_variable_declaration(&d),
        Err(TranslateError::MissingField {
            kind: NodeKind::VariableDeclaration,
            field: FieldName::Type
        })
    );
}

#[test]
fn declaration_missing_value_reports_error() {
    let d = node(
        NodeKind::VariableDeclaration,
        vec![],
        vec![
            (FieldName::Type, leaf(NodeKind::Other, "i32")),
            (FieldName::Name, leaf(NodeKind::Other, "x")),
            (FieldName::MutabilitySpecifier, leaf(NodeKind::Other, "let")),
        ],
    );
    assert_eq!(
        translate_variable_declaration(&d),
        Err(TranslateError::MissingField {
            kind: NodeKind::VariableDeclaration,
            field: FieldName::Value
        })
    );
}

#[test]
fn return_without_expression_reports_error() {
    let r = node(NodeKind::ReturnStatement, vec![leaf(NodeKind::Other, "return")], vec![]);
    assert_eq!(
        translate_return_statement(&r),
        Err(TranslateError::MissingChild { kind: NodeKind::ReturnStatement })
    );
}

#[test]
fn function_missing_body_reports_error() {
    let f = node(
        NodeKind::FunctionDefinition,
        vec![],
        vec![
            (FieldName::Name, leaf(NodeKind::Other, "f")),
            (FieldName::ReturnType, leaf(NodeKind::Other, "i32")),
            (FieldName::Parameters, node(NodeKind::ParameterList, vec![], vec![])),
        ],
    );
    assert_eq!(
        translate_function(&f),
        Err(TranslateError::MissingField {
            kind: NodeKind::FunctionDefinition,
            field: FieldName::Body
        })
    );
}

#[test]
fn while_missing_condition_reports_error() {
    let w = node(
        NodeKind::WhileStatement,
        vec![],
        vec![(FieldName::Body, block(vec![]))],
    );
    let b = block(vec![w]);
    assert_eq!(
        translate_block(&b),
        Err(TranslateError::MissingField {
            kind: NodeKind::WhileStatement,
            field: FieldName::Condition
        })
    );
}

#[test]
fn parameter_missing_type_reports_error() {
    let bad = node(
        NodeKind::Parameter,
        vec![],
        vec![(FieldName::Name, leaf(NodeKind::Other, "a"))],
    );
    let f = node(
        NodeKind::FunctionDefinition,
        vec![],
        vec![
            (FieldName::Name, leaf(NodeKind::Other, "f")),
            (FieldName::ReturnType, leaf(NodeKind::Other, "i32")),
            (FieldName::Parameters, node(NodeKind::ParameterList, vec![bad], vec![])),
            (FieldName::Body, block(vec![])),
        ],
    );
    assert_eq!(
        translate_function(&f),
        Err(TranslateError::MissingField { kind: NodeKind::Parameter, field: FieldName::Type })
    );
}

#[test]
fn unknown_top_level_items_are_ignored() {
    let p = program(vec![
        leaf(NodeKind::Other, "// a comment"),
        decl("const", "bool", "flag", "true"),
        leaf(NodeKind::Other, ";"),
    ]);
    assert_eq!(translate_to_c(&p).unwrap(), "const int flag = true;\n");
}

#[test]
fn top_level_order_is_preserved() {
    let p = program(vec![
        decl("const", "i32", "limit", "10"),
        function("zero", "i32", vec![], vec![return_statement("0")]),
        decl("let", "f32", "ratio", "0.5"),
    ]);
    assert_eq!(
        translate_to_c(&p).unwrap(),
        "const int limit = 10;\nint zero() {\nreturn 0;\n}\nfloat ratio = 0.5;\n"
    );
}

#[test]
fn function_with_loop_has_two_brace_levels() {
    let p = program(vec![function(
        "count",
        "i32",
        vec![param("n", "i32")],
        vec![while_statement("n > 0", vec![assignment("n = n - 1;")]), return_statement("n")],
    )]);
    let out = translate_to_c(&p).unwrap();
    assert_eq!(
        out,
        "int count(int n) {\nwhile (n > 0) {\nn = n - 1;\n}\nreturn n;\n}\n"
    );
    let opens = out.chars().filter(|c| *c == '{').count();
    let closes = out.chars().filter(|c| *c == '}').count();
    assert_eq!(opens, 2);
    assert_eq!(opens, closes);
}

#[test]
fn brace_inside_expression_text_is_copied_verbatim() {
    // Expression text is relocated, never inspected: a brace inside it goes
    // to the output as it stands.
    let b = block(vec![assignment("s = \"{\";")]);
    assert_eq!(translate_block(&b).unwrap(), "s = \"{\";\n");
}

#[test]
fn empty_program_translates_to_empty_output() {
    let p = program(vec![]);
    assert_eq!(translate_to_c(&p).unwrap(), "");
}
