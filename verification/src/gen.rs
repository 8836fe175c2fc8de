//! The code generator: a recursive-descent emitter that dispatches on node
//! kind and produces C source text.
//!
//! Each translation is specified by a spec function from the node to
//! `Option<Seq<char>>`: `Some` of the exact emitted text where the subtree is
//! well formed, `None` where a required named field (or, for a return
//! statement, its expression child) is absent.  The executable translators
//! return the same text as a `String`, or a typed error in place of the
//! contract violation the parser is trusted never to produce.

use vstd::prelude::*;
use vstd::string::StringExecFns;
use crate::ast::{FieldName, Node, NodeKind};
use crate::ast::{field_of, field_text, get_field, has_field, lemma_field_of_decreases};

verus! {

/// How a translation fails: a node lacked a field its kind's rule needs, or a
/// return statement lacked its expression child.
#[derive(Clone, Copy, PartialEq, Eq, Structural, Debug)]
pub enum TranslateError {
    MissingField { kind: NodeKind, field: FieldName },
    MissingChild { kind: NodeKind },
}

/// The target spelling of a source type name: `i32` and `bool` lower to
/// `int`, `f32` to `float`, `string` to `char *`, and any other name to the
/// empty spelling.
pub open spec fn lower_type(t: Seq<char>) -> Seq<char> {
    if t == "i32"@ {
        "int"@
    } else if t == "f32"@ {
        "float"@
    } else if t == "string"@ {
        "char *"@
    } else if t == "bool"@ {
        "int"@
    } else {
        Seq::empty()
    }
}

/// The declaration prefix a mutability-specifier spelling emits: the literal
/// spelling `const` emits `const ` (with trailing space), anything else
/// nothing.
pub open spec fn mut_prefix(m: Seq<char>) -> Seq<char> {
    if m == "const"@ {
        "const "@
    } else {
        Seq::empty()
    }
}

/// Lowers a source type name to its target spelling.
pub fn match_type(t: String) -> (r: String)
    ensures
        r@ == lower_type(t@),
{
    let matched: &str = if t == "i32".to_owned() {
        "int"
    } else if t == "f32".to_owned() {
        "float"
    } else if t == "string".to_owned() {
        "char *"
    } else if t == "bool".to_owned() {
        "int"
    } else {
        proof {
            reveal_strlit("");
            assert(""@ =~= Seq::<char>::empty());
        }
        ""
    };
    matched.to_owned()
}

/// The translation of a variable declaration:
/// `<mutability><type> <name> = <value-text>;` and a newline, where the value
/// text is copied verbatim; `None` where one of the four required fields is
/// absent.
pub open spec fn decl_trans(n: Node) -> Option<Seq<char>> {
    if has_field(n, FieldName::Type) && has_field(n, FieldName::Name) && has_field(
        n,
        FieldName::MutabilitySpecifier,
    ) && has_field(n, FieldName::Value) {
        Some(
            mut_prefix(field_text(n, FieldName::MutabilitySpecifier)) + lower_type(
                field_text(n, FieldName::Type),
            ) + " "@ + field_text(n, FieldName::Name) + " = "@ + field_text(n, FieldName::Value)
                + ";\n"@,
        )
    } else {
        None
    }
}

/// The error a malformed declaration reports: the first required field found
/// absent, in the order the fields are read.
pub open spec fn decl_err(n: Node) -> TranslateError {
    let f = if !has_field(n, FieldName::Type) {
        FieldName::Type
    } else if !has_field(n, FieldName::Name) {
        FieldName::Name
    } else if !has_field(n, FieldName::MutabilitySpecifier) {
        FieldName::MutabilitySpecifier
    } else {
        FieldName::Value
    };
    TranslateError::MissingField { kind: n.kind, field: f }
}

/// Emits one variable declaration line.
pub fn translate_variable_declaration(n: &Node) -> (r: Result<String, TranslateError>)
    ensures
        r is Ok <==> decl_trans(*n) is Some,
        r is Ok ==> r->Ok_0@ == decl_trans(*n)->Some_0,
        r is Err ==> r->Err_0 == decl_err(*n),
{
    let ty = match get_field(n, FieldName::Type) {
        Some(m) => m,
        None => {
            return Err(TranslateError::MissingField { kind: n.kind, field: FieldName::Type });
        },
    };
    let name = match get_field(n, FieldName::Name) {
        Some(m) => m,
        None => {
            return Err(TranslateError::MissingField { kind: n.kind, field: FieldName::Name });
        },
    };
    let mutability = match get_field(n, FieldName::MutabilitySpecifier) {
        Some(m) => m,
        None => {
            return Err(
                TranslateError::MissingField { kind: n.kind, field: FieldName::MutabilitySpecifier },
            );
        },
    };
    let value = match get_field(n, FieldName::Value) {
        Some(m) => m,
        None => {
            return Err(TranslateError::MissingField { kind: n.kind, field: FieldName::Value });
        },
    };
    let lowered = match_type(ty.text.clone());
    let mut out = String::new();
    if mutability.text == "const".to_owned() {
        out.append("const ");
    }
    out.append(lowered.as_str());
    out.append(" ");
    out.append(name.text.as_str());
    out.append(" = ");
    out.append(value.text.as_str());
    out.append(";\n");
    proof {
        assert(out@ =~= decl_trans(*n)->Some_0);
    }
    Ok(out)
}

/// The translation of a return statement: `return <expr-text>;` and a
/// newline, where the expression text is that of the statement's second
/// child (the one after the keyword token); `None` where the statement has
/// fewer than two children.
pub open spec fn return_trans(n: Node) -> Option<Seq<char>> {
    if n.children@.len() >= 2 {
        Some("return "@ + n.children@[1].text@ + ";\n"@)
    } else {
        None
    }
}

/// Emits one return statement.
pub fn translate_return_statement(n: &Node) -> (r: Result<String, TranslateError>)
    ensures
        r is Ok <==> return_trans(*n) is Some,
        r is Ok ==> r->Ok_0@ == return_trans(*n)->Some_0,
        r is Err ==> r->Err_0 == (TranslateError::MissingChild { kind: n.kind }),
{
    if n.children.len() < 2 {
        return Err(TranslateError::MissingChild { kind: n.kind });
    }
    let expr = &n.children[1];
    let mut out = String::new();
    out.append("return ");
    out.append(expr.text.as_str());
    out.append(";\n");
    proof {
        assert(out@ =~= return_trans(*n)->Some_0);
    }
    Ok(out)
}

/// The translation of one statement inside a block, by its kind: return
/// statements, declarations and assignments emit one line each, while- and
/// if-statements emit their condition verbatim between parentheses and their
/// recursively translated body between braces, and a statement of any other
/// kind emits nothing at all (it is silently dropped).
pub open spec fn stmt_trans(n: Node) -> Option<Seq<char>>
    decreases n,
{
    match n.kind {
        NodeKind::ReturnStatement => return_trans(n),
        NodeKind::VariableDeclaration => decl_trans(n),
        NodeKind::AssignmentStatement => Some(n.text@ + "\n"@),
        NodeKind::WhileStatement => {
            if has_field(n, FieldName::Condition) && has_field(n, FieldName::Body) {
                proof {
                    lemma_field_of_decreases(n, FieldName::Body);
                }
                match stmts_trans(field_of(n, FieldName::Body)->Some_0.children@) {
                    Some(b) => Some(
                        "while ("@ + field_text(n, FieldName::Condition) + ") {\n"@ + b + "}\n"@,
                    ),
                    None => None,
                }
            } else {
                None
            }
        },
        NodeKind::IfStatement => {
            if has_field(n, FieldName::Condition) && has_field(n, FieldName::Body) {
                proof {
                    lemma_field_of_decreases(n, FieldName::Body);
                }
                match stmts_trans(field_of(n, FieldName::Body)->Some_0.children@) {
                    Some(b) => Some(
                        "if ("@ + field_text(n, FieldName::Condition) + ") {\n"@ + b + "}\n"@,
                    ),
                    None => None,
                }
            } else {
                None
            }
        },
        _ => Some(Seq::empty()),
    }
}

/// The translation of a statement sequence: each statement's translation in
/// original order, concatenated with no separators beyond those each
/// statement's own rule appends.
pub open spec fn stmts_trans(s: Seq<Node>) -> Option<Seq<char>>
    decreases s,
{
    if s.len() == 0 {
        Some(Seq::empty())
    } else {
        match (stmts_trans(s.drop_last()), stmt_trans(s.last())) {
            (Some(a), Some(b)) => Some(a + b),
            _ => None,
        }
    }
}

/// The translation of a block node: its children, read as a statement
/// sequence.
pub open spec fn block_trans(n: Node) -> Option<Seq<char>> {
    stmts_trans(n.children@)
}

/// One malformed statement spoils the whole sequence.
pub proof fn lemma_stmts_trans_none(s: Seq<Node>, i: int)
    requires
        0 <= i < s.len(),
        stmt_trans(s[i]) is None,
    ensures
        stmts_trans(s) is None,
    decreases s.len(),
{
    if i < s.len() - 1 {
        assert(s.drop_last()[i] == s[i]);
        lemma_stmts_trans_none(s.drop_last(), i);
    }
}

/// Emits the statements of a block node, in order; recurses through the
/// bodies of while- and if-statements.
pub fn translate_block(n: &Node) -> (r: Result<String, TranslateError>)
    ensures
        r is Ok <==> block_trans(*n) is Some,
        r is Ok ==> r->Ok_0@ == block_trans(*n)->Some_0,
    decreases *n,
{
    let mut out = String::new();
    let len = n.children.len();
    let mut i: usize = 0;
    while i < len
        invariant
            0 <= i <= len,
            len == n.children@.len(),
            stmts_trans(n.children@.take(i as int)) is Some,
            out@ == stmts_trans(n.children@.take(i as int))->Some_0,
        decreases len - i,
    {
        let ghost s = n.children@;
        let ghost prev = out@;
        let stmt = &n.children[i];
        match stmt.kind {
            NodeKind::ReturnStatement => {
                match translate_return_statement(stmt) {
                    Ok(text) => out.append(text.as_str()),
                    Err(e) => {
                        proof {
                            lemma_stmts_trans_none(s, i as int);
                        }
                        return Err(e);
                    },
                }
            },
            NodeKind::VariableDeclaration => {
                match translate_variable_declaration(stmt) {
                    Ok(text) => out.append(text.as_str()),
                    Err(e) => {
                        proof {
                            lemma_stmts_trans_none(s, i as int);
                        }
                        return Err(e);
                    },
                }
            },
            NodeKind::AssignmentStatement => {
                out.append(stmt.text.as_str());
                out.append("\n");
            },
            NodeKind::WhileStatement => {
                let cond = match get_field(stmt, FieldName::Condition) {
                    Some(m) => m,
                    None => {
                        proof {
                            lemma_stmts_trans_none(s, i as int);
                        }
                        return Err(
                            TranslateError::MissingField {
                                kind: stmt.kind,
                                field: FieldName::Condition,
                            },
                        );
                    },
                };
                let body = match get_field(stmt, FieldName::Body) {
                    Some(m) => m,
                    None => {
                        proof {
                            lemma_stmts_trans_none(s, i as int);
                        }
                        return Err(
                            TranslateError::MissingField {
                                kind: stmt.kind,
                                field: FieldName::Body,
                            },
                        );
                    },
                };
                proof {
                    assert(decreases_to!(*n => n.children));
                    assert(decreases_to!(n.children => n.children@));
                    assert(decreases_to!(n.children@ => s[i as int]));
                    lemma_field_of_decreases(s[i as int], FieldName::Body);
                }
                let body_text = match translate_block(body) {
                    Ok(text) => text,
                    Err(e) => {
                        proof {
                            lemma_stmts_trans_none(s, i as int);
                        }
                        return Err(e);
                    },
                };
                out.append("while (");
                out.append(cond.text.as_str());
                out.append(") {\n");
                out.append(body_text.as_str());
                out.append("}\n");
            },
            NodeKind::IfStatement => {
                let cond = match get_field(stmt, FieldName::Condition) {
                    Some(m) => m,
                    None => {
                        proof {
                            lemma_stmts_trans_none(s, i as int);
                        }
                        return Err(
                            TranslateError::MissingField {
                                kind: stmt.kind,
                                field: FieldName::Condition,
                            },
                        );
                    },
                };
                let body = match get_field(stmt, FieldName::Body) {
                    Some(m) => m,
                    None => {
                        proof {
                            lemma_stmts_trans_none(s, i as int);
                        }
                        return Err(
                            TranslateError::MissingField {
                                kind: stmt.kind,
                                field: FieldName::Body,
                            },
                        );
                    },
                };
                proof {
                    assert(decreases_to!(*n => n.children));
                    assert(decreases_to!(n.children => n.children@));
                    assert(decreases_to!(n.children@ => s[i as int]));
                    lemma_field_of_decreases(s[i as int], FieldName::Body);
                }
                let body_text = match translate_block(body) {
                    Ok(text) => text,
                    Err(e) => {
                        proof {
                            lemma_stmts_trans_none(s, i as int);
                        }
                        return Err(e);
                    },
                };
                out.append("if (");
                out.append(cond.text.as_str());
                out.append(") {\n");
                out.append(body_text.as_str());
                out.append("}\n");
            },
            _ => {},
        }
        proof {
            assert(s.take(i + 1).drop_last() =~= s.take(i as int));
            assert(s.take(i + 1).last() == s[i as int]);
            assert(stmt_trans(s[i as int]) is Some);
            assert(out@ =~= prev + stmt_trans(s[i as int])->Some_0);
        }
        i = i + 1;
    }
    proof {
        assert(n.children@.take(len as int) =~= n.children@);
    }
    Ok(out)
}

/// The `type name` pair a parameter node emits, or `None` where its name or
/// type field is absent.
pub open spec fn param_pair(p: Node) -> Option<Seq<char>> {
    if has_field(p, FieldName::Name) && has_field(p, FieldName::Type) {
        Some(lower_type(field_text(p, FieldName::Type)) + " "@ + field_text(p, FieldName::Name))
    } else {
        None
    }
}

/// The `type name` pairs of a parameter-list's children, in original
/// left-to-right order; children of any other kind are skipped.
pub open spec fn param_pairs(s: Seq<Node>) -> Option<Seq<Seq<char>>>
    decreases s.len(),
{
    if s.len() == 0 {
        Some(Seq::empty())
    } else {
        match param_pairs(s.drop_last()) {
            Some(rest) => {
                if s.last().kind == NodeKind::Parameter {
                    match param_pair(s.last()) {
                        Some(p) => Some(rest.push(p)),
                        None => None,
                    }
                } else {
                    Some(rest)
                }
            },
            None => None,
        }
    }
}

/// One malformed parameter spoils the whole list.
pub proof fn lemma_param_pairs_none(s: Seq<Node>, i: int)
    requires
        0 <= i < s.len(),
        s[i].kind == NodeKind::Parameter,
        param_pair(s[i]) is None,
    ensures
        param_pairs(s) is None,
    decreases s.len(),
{
    if i < s.len() - 1 {
        assert(s.drop_last()[i] == s[i]);
        lemma_param_pairs_none(s.drop_last(), i);
    }
}

/// Texts joined by `, `: empty for no items, and one separator between each
/// two neighbours, none leading or trailing.
pub open spec fn join_comma(xs: Seq<Seq<char>>) -> Seq<char>
    decreases xs.len(),
{
    if xs.len() == 0 {
        Seq::empty()
    } else if xs.len() == 1 {
        xs[0]
    } else {
        join_comma(xs.drop_last()) + ", "@ + xs.last()
    }
}

/// The translation of a function definition: the signature line
/// `<return-type> <name>(<param-list>) {`, the translated body, and the
/// closing brace with a trailing newline; `None` where a required field is
/// absent or the parameter list or body is malformed.
pub open spec fn func_trans(n: Node) -> Option<Seq<char>> {
    if has_field(n, FieldName::Name) && has_field(n, FieldName::ReturnType) && has_field(
        n,
        FieldName::Parameters,
    ) && has_field(n, FieldName::Body) {
        match (
            param_pairs(field_of(n, FieldName::Parameters)->Some_0.children@),
            stmts_trans(field_of(n, FieldName::Body)->Some_0.children@),
        ) {
            (Some(ps), Some(body)) => Some(
                lower_type(field_text(n, FieldName::ReturnType)) + " "@ + field_text(
                    n,
                    FieldName::Name,
                ) + "("@ + join_comma(ps) + ") {\n"@ + body + "}\n"@,
            ),
            _ => None,
        }
    } else {
        None
    }
}

/// The translation of one top-level item: function definitions and variable
/// declarations by their own rules, anything else ignored.
pub open spec fn item_trans(n: Node) -> Option<Seq<char>> {
    if n.kind == NodeKind::FunctionDefinition {
        func_trans(n)
    } else if n.kind == NodeKind::VariableDeclaration {
        decl_trans(n)
    } else {
        Some(Seq::empty())
    }
}

/// The translation of a top-level item sequence, in original order.
pub open spec fn items_trans(s: Seq<Node>) -> Option<Seq<char>>
    decreases s.len(),
{
    if s.len() == 0 {
        Some(Seq::empty())
    } else {
        match (items_trans(s.drop_last()), item_trans(s.last())) {
            (Some(a), Some(b)) => Some(a + b),
            _ => None,
        }
    }
}

/// One malformed top-level item spoils the whole program.
pub proof fn lemma_items_trans_none(s: Seq<Node>, i: int)
    requires
        0 <= i < s.len(),
        item_trans(s[i]) is None,
    ensures
        items_trans(s) is None,
    decreases s.len(),
{
    if i < s.len() - 1 {
        assert(s.drop_last()[i] == s[i]);
        lemma_items_trans_none(s.drop_last(), i);
    }
}

/// The whole generated output: the program root's direct children translated
/// as top-level items and concatenated in declaration order.
pub open spec fn program_trans(root: Node) -> Option<Seq<char>> {
    items_trans(root.children@)
}

/// Emits a complete function: signature line, open brace, translated body,
/// close brace.
pub fn translate_function(n: &Node) -> (r: Result<String, TranslateError>)
    ensures
        r is Ok <==> func_trans(*n) is Some,
        r is Ok ==> r->Ok_0@ == func_trans(*n)->Some_0,
{
    let name = match get_field(n, FieldName::Name) {
        Some(m) => m,
        None => {
            return Err(TranslateError::MissingField { kind: n.kind, field: FieldName::Name });
        },
    };
    let rt = match get_field(n, FieldName::ReturnType) {
        Some(m) => m,
        None => {
            return Err(TranslateError::MissingField { kind: n.kind, field: FieldName::ReturnType });
        },
    };
    let parameters = match get_field(n, FieldName::Parameters) {
        Some(m) => m,
        None => {
            return Err(TranslateError::MissingField { kind: n.kind, field: FieldName::Parameters });
        },
    };
    let body = match get_field(n, FieldName::Body) {
        Some(m) => m,
        None => {
            return Err(TranslateError::MissingField { kind: n.kind, field: FieldName::Body });
        },
    };
    let lowered = match_type(rt.text.clone());
    let mut out = String::new();
    out.append(lowered.as_str());
    out.append(" ");
    out.append(name.text.as_str());
    out.append("(");
    let ghost pc = parameters.children@;
    let mut plist = String::new();
    let mut first: bool = true;
    let plen = parameters.children.len();
    let mut i: usize = 0;
    while i < plen
        invariant
            0 <= i <= plen,
            plen == pc.len(),
            pc == parameters.children@,
            field_of(*n, FieldName::Parameters) == Some(*parameters),
            param_pairs(pc.take(i as int)) is Some,
            plist@ == join_comma(param_pairs(pc.take(i as int))->Some_0),
            first <==> param_pairs(pc.take(i as int))->Some_0.len() == 0,
        decreases plen - i,
    {
        let ghost prev = plist@;
        let child = &parameters.children[i];
        if child.kind == NodeKind::Parameter {
            let pname = match get_field(child, FieldName::Name) {
                Some(m) => m,
                None => {
                    proof {
                        lemma_param_pairs_none(pc, i as int);
                    }
                    return Err(
                        TranslateError::MissingField { kind: child.kind, field: FieldName::Name },
                    );
                },
            };
            let ptype = match get_field(child, FieldName::Type) {
                Some(m) => m,
                None => {
                    proof {
                        lemma_param_pairs_none(pc, i as int);
                    }
                    return Err(
                        TranslateError::MissingField { kind: child.kind, field: FieldName::Type },
                    );
                },
            };
            let pt = match_type(ptype.text.clone());
            if !first {
                plist.append(", ");
            }
            plist.append(pt.as_str());
            plist.append(" ");
            plist.append(pname.text.as_str());
            first = false;
            proof {
                let pairs = param_pairs(pc.take(i as int))->Some_0;
                let pair = param_pair(pc[i as int])->Some_0;
                assert(pc.take(i + 1).drop_last() =~= pc.take(i as int));
                assert(pc.take(i + 1).last() == pc[i as int]);
                assert(param_pairs(pc.take(i + 1)) == Some(pairs.push(pair)));
                if pairs.len() == 0 {
                    assert(pairs.push(pair).drop_last() =~= pairs);
                    assert(plist@ =~= pair);
                    assert(plist@ =~= join_comma(pairs.push(pair)));
                } else {
                    assert(pairs.push(pair).drop_last() =~= pairs);
                    assert(pairs.push(pair).last() == pair);
                    assert(plist@ =~= prev + ", "@ + pair);
                    assert(plist@ =~= join_comma(pairs.push(pair)));
                }
            }
        } else {
            proof {
                assert(pc.take(i + 1).drop_last() =~= pc.take(i as int));
                assert(pc.take(i + 1).last() == pc[i as int]);
            }
        }
        i = i + 1;
    }
    proof {
        assert(pc.take(plen as int) =~= pc);
    }
    out.append(plist.as_str());
    out.append(") {\n");
    let body_text = match translate_block(body) {
        Ok(text) => text,
        Err(e) => {
            return Err(e);
        },
    };
    out.append(body_text.as_str());
    out.append("}\n");
    proof {
        assert(out@ =~= func_trans(*n)->Some_0);
    }
    Ok(out)
}

/// Translates a whole program: walks the root's direct children, emits each
/// function definition and top-level variable declaration in declaration
/// order, and ignores children of any other kind.
pub fn translate_to_c(root: &Node) -> (r: Result<String, TranslateError>)
    ensures
        r is Ok <==> program_trans(*root) is Some,
        r is Ok ==> r->Ok_0@ == program_trans(*root)->Some_0,
{
    let mut c_code = String::new();
    let len = root.children.len();
    let mut i: usize = 0;
    while i < len
        invariant
            0 <= i <= len,
            len == root.children@.len(),
            items_trans(root.children@.take(i as int)) is Some,
            c_code@ == items_trans(root.children@.take(i as int))->Some_0,
        decreases len - i,
    {
        let ghost s = root.children@;
        let ghost prev = c_code@;
        let child = &root.children[i];
        match child.kind {
            NodeKind::FunctionDefinition => {
                match translate_function(child) {
                    Ok(text) => c_code.append(text.as_str()),
                    Err(e) => {
                        proof {
                            lemma_items_trans_none(s, i as int);
                        }
                        return Err(e);
                    },
                }
            },
            NodeKind::VariableDeclaration => {
                match translate_variable_declaration(child) {
                    Ok(text) => c_code.append(text.as_str()),
                    Err(e) => {
                        proof {
                            lemma_items_trans_none(s, i as int);
                        }
                        return Err(e);
                    },
                }
            },
            _ => {},
        }
        proof {
            assert(s.take(i + 1).drop_last() =~= s.take(i as int));
            assert(s.take(i + 1).last() == s[i as int]);
            assert(item_trans(s[i as int]) is Some);
            assert(c_code@ =~= prev + item_trans(s[i as int])->Some_0);
        }
        i = i + 1;
    }
    proof {
        assert(root.children@.take(len as int) =~= root.children@);
    }
    Ok(c_code)
}

} // verus!
