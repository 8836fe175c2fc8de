//! Laws of the generator: properties that hold of every well-formed input,
//! stated over the translation spec functions and proved once and for all.

use vstd::prelude::*;
use crate::ast::{Field, FieldName, Node, NodeKind};
use crate::ast::{field_idx, field_of, field_text, has_field, lemma_field_idx_in_range,
    lemma_field_of_decreases};
use crate::gen::{
    decl_trans, item_trans, items_trans, join_comma, lower_type, mut_prefix, param_pair,
    param_pairs, program_trans, stmt_trans, stmts_trans,
};

verus! {

broadcast use vstd::std_specs::vec::group_vec_axioms;

/// Type lowering is a pure total function matching its table exactly: each
/// of the four supported spellings lowers to its target spelling, and every
/// unsupported spelling lowers to the empty one.
pub proof fn lemma_type_lowering_table()
    ensures
        lower_type("i32"@) == "int"@,
        lower_type("f32"@) == "float"@,
        lower_type("string"@) == "char *"@,
        lower_type("bool"@) == "int"@,
        forall|t: Seq<char>|
            !(t == "i32"@ || t == "f32"@ || t == "string"@ || t == "bool"@)
                ==> #[trigger] lower_type(t) == Seq::<char>::empty(),
{
    reveal_strlit("i32");
    reveal_strlit("f32");
    reveal_strlit("string");
    reveal_strlit("bool");
    assert("i32"@[0] == 'i');
    assert("f32"@[0] == 'f');
    assert("string"@[0] == 's');
    assert("bool"@[0] == 'b');
}

/// The `type name` pair a well-formed parameter node emits.
pub open spec fn param_pair_text(p: Node) -> Seq<char> {
    lower_type(field_text(p, FieldName::Type)) + " "@ + field_text(p, FieldName::Name)
}

/// A well-formed parameter list emits exactly one `type name` pair per child
/// of parameter kind, in original left-to-right order; children of other
/// kinds contribute nothing.
pub proof fn lemma_param_list_pairs(s: Seq<Node>)
    requires
        param_pairs(s) is Some,
    ensures
        param_pairs(s)->Some_0 == s.filter(|p: Node| p.kind == NodeKind::Parameter).map_values(
            |p: Node| param_pair_text(p),
        ),
    decreases s.len(),
{
    let pred = |p: Node| p.kind == NodeKind::Parameter;
    let f = |p: Node| param_pair_text(p);
    reveal(Seq::filter);
    if s.len() == 0 {
        assert(param_pairs(s)->Some_0 =~= s.filter(pred).map_values(f));
    } else {
        let t = s.drop_last();
        lemma_param_list_pairs(t);
        if pred(s.last()) {
            assert(param_pair(s.last()) is Some);
            assert(param_pair(s.last())->Some_0 == param_pair_text(s.last()));
            assert(s.filter(pred) == t.filter(pred).push(s.last()));
            assert(param_pairs(s)->Some_0 =~= s.filter(pred).map_values(f));
        } else {
            assert(s.filter(pred) == t.filter(pred));
            assert(param_pairs(s)->Some_0 =~= s.filter(pred).map_values(f));
        }
    }
}

/// The parameter list's separators: nothing for an empty list, no separator
/// around a single pair, and exactly one `, ` between each two neighbouring
/// pairs, none leading or trailing.
pub proof fn lemma_join_comma_unfold(xs: Seq<Seq<char>>)
    ensures
        xs.len() == 0 ==> join_comma(xs) == Seq::<char>::empty(),
        xs.len() == 1 ==> join_comma(xs) == xs[0],
        xs.len() > 1 ==> join_comma(xs) == join_comma(xs.drop_last()) + ", "@ + xs.last(),
{
}

/// A declaration line begins with `const ` exactly when its
/// mutability-specifier reads precisely `const`.
pub proof fn lemma_const_prefix(n: Node)
    requires
        decl_trans(n) is Some,
    ensures
        field_text(n, FieldName::MutabilitySpecifier) == "const"@ <==> (decl_trans(n)->Some_0.len()
            >= 6 && decl_trans(n)->Some_0.take(6) == "const "@),
{
    reveal_strlit("const");
    reveal_strlit("const ");
    reveal_strlit("int");
    reveal_strlit("float");
    reveal_strlit("char *");
    reveal_strlit(" ");
    let t = decl_trans(n)->Some_0;
    let m = field_text(n, FieldName::MutabilitySpecifier);
    let ty = lower_type(field_text(n, FieldName::Type));
    if m == "const"@ {
        assert(t.len() >= 6);
        assert(t.take(6) =~= "const "@);
    } else {
        assert(mut_prefix(m) == Seq::<char>::empty());
        if t.len() >= 6 && t.take(6) == "const "@ {
            assert(t.take(6)[0] == 'c');
            assert(t.take(6)[1] == 'o');
            assert(t[0] == 'c' && t[1] == 'o');
            if ty == "int"@ {
                assert(t[0] == 'i');
            } else if ty == "f32"@ || ty == "float"@ {
                assert(t[0] == 'f');
            } else if ty == "char *"@ {
                assert(t[1] == 'h');
            } else {
                assert(ty == Seq::<char>::empty());
                assert(t[0] == ' ');
            }
            assert(false);
        }
    }
}

/// Block translation is order-preserving: the translation of a well-formed
/// statement sequence splits, around any position, into the translations of
/// the statements before it, of the statement there, and of the statements
/// after it, in that order.
pub proof fn lemma_statement_order(s: Seq<Node>, i: int)
    requires
        stmts_trans(s) is Some,
        0 <= i < s.len(),
    ensures
        stmts_trans(s.take(i)) is Some,
        stmt_trans(s[i]) is Some,
        stmts_trans(s.skip(i + 1)) is Some,
        stmts_trans(s)->Some_0 == stmts_trans(s.take(i))->Some_0 + stmt_trans(s[i])->Some_0
            + stmts_trans(s.skip(i + 1))->Some_0,
    decreases s.len(),
{
    if i == s.len() - 1 {
        assert(s.take(i) =~= s.drop_last());
        assert(s.skip(i + 1) =~= Seq::<Node>::empty());
        assert(stmts_trans(s)->Some_0 =~= stmts_trans(s.take(i))->Some_0 + stmt_trans(
            s[i],
        )->Some_0 + stmts_trans(s.skip(i + 1))->Some_0);
    } else {
        let t = s.drop_last();
        lemma_statement_order(t, i);
        assert(s.take(i) =~= t.take(i));
        assert(s[i] == t[i]);
        let u = s.skip(i + 1);
        assert(u.drop_last() =~= t.skip(i + 1));
        assert(u.last() == s.last());
        assert(stmts_trans(u) is Some);
        assert(stmts_trans(s)->Some_0 =~= stmts_trans(s.take(i))->Some_0 + stmt_trans(
            s[i],
        )->Some_0 + stmts_trans(u)->Some_0);
    }
}

/// Nested bodies recurse: the body of a well-formed while- or if-statement
/// is emitted, statement by statement and in order, between that statement's
/// own opening `{` and closing `}`; in particular a while- or if-statement
/// nested in the body has its entire translation, braces and all, inside the
/// outer pair.
pub proof fn lemma_nested_body(w: Node, i: int)
    requires
        w.kind == NodeKind::WhileStatement || w.kind == NodeKind::IfStatement,
        stmt_trans(w) is Some,
        0 <= i < field_of(w, FieldName::Body)->Some_0.children@.len(),
    ensures
        ({
            let bc = field_of(w, FieldName::Body)->Some_0.children@;
            let head = if w.kind == NodeKind::WhileStatement {
                "while ("@
            } else {
                "if ("@
            };
            stmt_trans(bc[i]) is Some && stmt_trans(w)->Some_0 == head + field_text(
                w,
                FieldName::Condition,
            ) + ") {\n"@ + stmts_trans(bc.take(i))->Some_0 + stmt_trans(bc[i])->Some_0
                + stmts_trans(bc.skip(i + 1))->Some_0 + "}\n"@
        }),
{
    let bc = field_of(w, FieldName::Body)->Some_0.children@;
    let head = if w.kind == NodeKind::WhileStatement {
        "while ("@
    } else {
        "if ("@
    };
    assert(has_field(w, FieldName::Condition) && has_field(w, FieldName::Body));
    assert(stmts_trans(bc) is Some);
    lemma_statement_order(bc, i);
    assert(stmt_trans(w)->Some_0 =~= head + field_text(w, FieldName::Condition) + ") {\n"@
        + stmts_trans(bc.take(i))->Some_0 + stmt_trans(bc[i])->Some_0 + stmts_trans(
        bc.skip(i + 1),
    )->Some_0 + "}\n"@);
}

/// How often `c` occurs in `s`.
pub open spec fn count_char(s: Seq<char>, c: char) -> int
    decreases s.len(),
{
    if s.len() == 0 {
        0
    } else {
        count_char(s.drop_last(), c) + if s.last() == c {
            1int
        } else {
            0int
        }
    }
}

/// A text in which neither brace occurs.
pub open spec fn brace_free(s: Seq<char>) -> bool {
    count_char(s, '{') == 0 && count_char(s, '}') == 0
}

/// Whether every verbatim text in the tree under `n` is brace-free: its own
/// text, and those of all its children and named children, recursively.
pub open spec fn tree_brace_free(n: Node) -> bool
    decreases n,
{
    proof {
        assert(decreases_to!(n => n.children));
        assert(decreases_to!(n.children => n.children@));
        assert(decreases_to!(n => n.fields));
        assert(decreases_to!(n.fields => n.fields@));
    }
    brace_free(n.text@) && trees_brace_free(n.children@) && fields_brace_free(n.fields@)
}

/// Whether every tree in the sequence is brace-free.
pub open spec fn trees_brace_free(s: Seq<Node>) -> bool
    decreases s,
{
    s.len() == 0 || (trees_brace_free(s.drop_last()) && tree_brace_free(s.last()))
}

/// Whether every named child's tree is brace-free.
pub open spec fn fields_brace_free(s: Seq<Field>) -> bool
    decreases s,
{
    proof {
        if s.len() > 0 {
            assert(decreases_to!(s => s[s.len() - 1]));
        }
    }
    s.len() == 0 || (fields_brace_free(s.drop_last()) && tree_brace_free(s.last().node))
}

proof fn lemma_trees_brace_free_at(s: Seq<Node>, i: int)
    requires
        trees_brace_free(s),
        0 <= i < s.len(),
    ensures
        tree_brace_free(s[i]),
    decreases s.len(),
{
    if i < s.len() - 1 {
        assert(s.drop_last()[i] == s[i]);
        lemma_trees_brace_free_at(s.drop_last(), i);
    }
}

proof fn lemma_fields_brace_free_at(s: Seq<Field>, i: int)
    requires
        fields_brace_free(s),
        0 <= i < s.len(),
    ensures
        tree_brace_free(s[i].node),
    decreases s.len(),
{
    if i < s.len() - 1 {
        assert(s.drop_last()[i] == s[i]);
        lemma_fields_brace_free_at(s.drop_last(), i);
    }
}

proof fn lemma_field_node_brace_free(n: Node, f: FieldName)
    requires
        tree_brace_free(n),
        has_field(n, f),
    ensures
        tree_brace_free(field_of(n, f)->Some_0),
{
    let i = field_idx(n.fields@, f, 0);
    lemma_field_idx_in_range(n.fields@, f, 0);
    lemma_fields_brace_free_at(n.fields@, i);
}

/// Counting a character distributes over concatenation.
pub broadcast proof fn lemma_count_char_add(a: Seq<char>, b: Seq<char>, c: char)
    ensures
        #[trigger] count_char(a + b, c) == count_char(a, c) + count_char(b, c),
    decreases b.len(),
{
    if b.len() == 0 {
        assert(a + b =~= a);
    } else {
        lemma_count_char_add(a, b.drop_last(), c);
        assert((a + b).drop_last() =~= a + b.drop_last());
        assert((a + b).last() == b.last());
    }
}

proof fn lemma_literal_counts()
    ensures
        brace_free("\n"@),
        brace_free(" "@),
        brace_free(" = "@),
        brace_free(";\n"@),
        brace_free(", "@),
        brace_free("("@),
        brace_free("return "@),
        brace_free("const "@),
        brace_free("int"@),
        brace_free("float"@),
        brace_free("char *"@),
        brace_free("while ("@),
        brace_free("if ("@),
        count_char(") {\n"@, '{') == 1 && count_char(") {\n"@, '}') == 0,
        count_char("}\n"@, '{') == 0 && count_char("}\n"@, '}') == 1,
        brace_free(Seq::<char>::empty()),
{
    reveal_strlit("\n");
    reveal_strlit(" ");
    reveal_strlit(" = ");
    reveal_strlit(";\n");
    reveal_strlit(", ");
    reveal_strlit("(");
    reveal_strlit("return ");
    reveal_strlit("const ");
    reveal_strlit("int");
    reveal_strlit("float");
    reveal_strlit("char *");
    reveal_strlit("while (");
    reveal_strlit("if (");
    reveal_strlit(") {\n");
    reveal_strlit("}\n");
    reveal_with_fuel(count_char, 9);
}

proof fn lemma_decl_braces_balanced(n: Node)
    requires
        decl_trans(n) is Some,
        tree_brace_free(n),
    ensures
        count_char(decl_trans(n)->Some_0, '{') == 0,
        count_char(decl_trans(n)->Some_0, '}') == 0,
{
    broadcast use lemma_count_char_add;

    lemma_literal_counts();
    lemma_field_node_brace_free(n, FieldName::Name);
    lemma_field_node_brace_free(n, FieldName::Value);
}

proof fn lemma_pairs_brace_free(s: Seq<Node>)
    requires
        param_pairs(s) is Some,
        trees_brace_free(s),
    ensures
        brace_free(join_comma(param_pairs(s)->Some_0)),
    decreases s.len(),
{
    broadcast use lemma_count_char_add;

    lemma_literal_counts();
    if s.len() > 0 {
        let t = s.drop_last();
        lemma_pairs_brace_free(t);
        let rest = param_pairs(t)->Some_0;
        if s.last().kind == NodeKind::Parameter {
            lemma_field_node_brace_free(s.last(), FieldName::Name);
            let p = param_pair(s.last())->Some_0;
            assert(brace_free(p));
            if rest.len() > 0 {
                assert(rest.push(p).drop_last() =~= rest);
                assert(rest.push(p).last() == p);
            }
        }
    }
}

/// The translation of a brace-free statement closes every brace it opens:
/// its output holds exactly as many `{` as `}`.
pub proof fn lemma_stmt_braces_balanced(n: Node)
    requires
        stmt_trans(n) is Some,
        tree_brace_free(n),
    ensures
        count_char(stmt_trans(n)->Some_0, '{') == count_char(stmt_trans(n)->Some_0, '}'),
    decreases n,
{
    broadcast use lemma_count_char_add;

    lemma_literal_counts();
    match n.kind {
        NodeKind::ReturnStatement => {
            lemma_trees_brace_free_at(n.children@, 1);
        },
        NodeKind::VariableDeclaration => {
            lemma_decl_braces_balanced(n);
        },
        NodeKind::AssignmentStatement => {
        },
        NodeKind::WhileStatement => {
            lemma_field_node_brace_free(n, FieldName::Condition);
            lemma_field_node_brace_free(n, FieldName::Body);
            lemma_field_of_decreases(n, FieldName::Body);
            lemma_stmts_braces_balanced(field_of(n, FieldName::Body)->Some_0.children@);
        },
        NodeKind::IfStatement => {
            lemma_field_node_brace_free(n, FieldName::Condition);
            lemma_field_node_brace_free(n, FieldName::Body);
            lemma_field_of_decreases(n, FieldName::Body);
            lemma_stmts_braces_balanced(field_of(n, FieldName::Body)->Some_0.children@);
        },
        _ => {
        },
    }
}

/// The translation of a brace-free statement sequence holds exactly as many
/// `{` as `}`.
pub proof fn lemma_stmts_braces_balanced(s: Seq<Node>)
    requires
        stmts_trans(s) is Some,
        trees_brace_free(s),
    ensures
        count_char(stmts_trans(s)->Some_0, '{') == count_char(stmts_trans(s)->Some_0, '}'),
    decreases s,
{
    broadcast use lemma_count_char_add;

    lemma_literal_counts();
    if s.len() > 0 {
        lemma_stmts_braces_balanced(s.drop_last());
        lemma_stmt_braces_balanced(s.last());
    }
}

proof fn lemma_item_braces_balanced(n: Node)
    requires
        item_trans(n) is Some,
        tree_brace_free(n),
    ensures
        count_char(item_trans(n)->Some_0, '{') == count_char(item_trans(n)->Some_0, '}'),
{
    broadcast use lemma_count_char_add;

    lemma_literal_counts();
    if n.kind == NodeKind::FunctionDefinition {
        lemma_field_node_brace_free(n, FieldName::Name);
        lemma_field_node_brace_free(n, FieldName::Parameters);
        lemma_field_node_brace_free(n, FieldName::Body);
        lemma_pairs_brace_free(field_of(n, FieldName::Parameters)->Some_0.children@);
        lemma_stmts_braces_balanced(field_of(n, FieldName::Body)->Some_0.children@);
    } else if n.kind == NodeKind::VariableDeclaration {
        lemma_decl_braces_balanced(n);
    }
}

proof fn lemma_items_braces_balanced(s: Seq<Node>)
    requires
        items_trans(s) is Some,
        trees_brace_free(s),
    ensures
        count_char(items_trans(s)->Some_0, '{') == count_char(items_trans(s)->Some_0, '}'),
    decreases s.len(),
{
    broadcast use lemma_count_char_add;

    if s.len() > 0 {
        lemma_items_braces_balanced(s.drop_last());
        lemma_item_braces_balanced(s.last());
    }
}

/// Brace balance: a well-formed program in which no verbatim node text
/// holds a brace of its own translates to output with exactly as many `{`
/// as `}` — every brace a control structure or function opens is closed.
pub proof fn lemma_braces_balanced(root: Node)
    requires
        program_trans(root) is Some,
        tree_brace_free(root),
    ensures
        count_char(program_trans(root)->Some_0, '{') == count_char(program_trans(root)->Some_0, '}'),
{
    lemma_items_braces_balanced(root.children@);
}

} // verus!
