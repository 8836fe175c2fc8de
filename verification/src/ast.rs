//! The syntax tree the generator walks.
//!
//! The parser hands the generator an immutable tree of nodes.  Each node
//! carries a kind out of a fixed closed set, the verbatim source text of the
//! range it covers, its ordered children, and a partial mapping from field
//! names to children (a function-definition's body, a declaration's value).
//! The generator only reads this tree; it never builds or mutates one.

use vstd::prelude::*;

verus! {

broadcast use vstd::std_specs::vec::group_vec_axioms;

/// The closed set of node kinds the generator dispatches on.  Every kind the
/// source grammar produces beyond these falls under `Other` (expressions,
/// punctuation tokens, keywords), which no translation rule matches.
#[derive(Clone, Copy, PartialEq, Eq, Structural, Debug)]
pub enum NodeKind {
    Program,
    FunctionDefinition,
    VariableDeclaration,
    Parameter,
    ParameterList,
    ReturnStatement,
    AssignmentStatement,
    WhileStatement,
    IfStatement,
    Other,
}

/// The role names under which a node's children can be looked up.
#[derive(Clone, Copy, PartialEq, Eq, Structural, Debug)]
pub enum FieldName {
    Name,
    Type,
    ReturnType,
    Value,
    Condition,
    Body,
    Parameters,
    MutabilitySpecifier,
}

/// One named child of a node.
pub struct Field {
    pub name: FieldName,
    pub node: Node,
}

/// A syntax tree node: its kind, the verbatim source text it covers, its
/// children in source order, and its named children.
pub struct Node {
    pub kind: NodeKind,
    pub text: String,
    pub children: Vec<Node>,
    pub fields: Vec<Field>,
}

/// Index of the first field named `f` at position `i` or later, or -1.
pub open spec fn field_idx(s: Seq<Field>, f: FieldName, i: int) -> int
    decreases s.len() - i,
{
    if i < 0 || i >= s.len() {
        -1
    } else if s[i].name == f {
        i
    } else {
        field_idx(s, f, i + 1)
    }
}

/// The node under field name `f`, if `n` has one: the first field with that
/// name, in field order.
pub open spec fn field_of(n: Node, f: FieldName) -> Option<Node> {
    let i = field_idx(n.fields@, f, 0);
    if i == -1 {
        None
    } else {
        Some(n.fields@[i].node)
    }
}

/// Whether `n` carries a field named `f`.
pub open spec fn has_field(n: Node, f: FieldName) -> bool {
    field_of(n, f) is Some
}

/// The verbatim source text of the node under field name `f`.
pub open spec fn field_text(n: Node, f: FieldName) -> Seq<char> {
    field_of(n, f)->Some_0.text@
}

pub proof fn lemma_field_idx_in_range(s: Seq<Field>, f: FieldName, i: int)
    requires
        0 <= i <= s.len(),
    ensures
        field_idx(s, f, i) == -1 || (i <= field_idx(s, f, i) < s.len() && s[field_idx(s, f, i)].name
            == f),
    decreases s.len() - i,
{
    if i < s.len() && s[i].name != f {
        lemma_field_idx_in_range(s, f, i + 1);
    }
}

pub proof fn lemma_field_idx_skip(s: Seq<Field>, f: FieldName, i: int)
    requires
        0 <= i <= s.len(),
        forall|j: int| 0 <= j < i ==> #[trigger] s[j].name != f,
    ensures
        field_idx(s, f, 0) == field_idx(s, f, i),
    decreases i,
{
    if i > 0 {
        lemma_field_idx_skip(s, f, i - 1);
        assert(field_idx(s, f, i - 1) == field_idx(s, f, i));
    }
}

/// A node stands strictly above any node one of its fields holds, and above
/// that node's child sequence; recursive translation rules descend along
/// exactly these edges.
pub proof fn lemma_field_of_decreases(n: Node, f: FieldName)
    requires
        has_field(n, f),
    ensures
        decreases_to!(n => field_of(n, f)->Some_0),
        decreases_to!(n => field_of(n, f)->Some_0.children@),
{
    let i = field_idx(n.fields@, f, 0);
    lemma_field_idx_in_range(n.fields@, f, 0);
    let m = n.fields@[i].node;
    assert(decreases_to!(n => n.fields));
    assert(decreases_to!(n.fields => n.fields@));
    assert(decreases_to!(n.fields@ => n.fields@[i]));
    assert(decreases_to!(n.fields@[i] => m));
    assert(decreases_to!(m => m.children));
    assert(decreases_to!(m.children => m.children@));
}

/// Looks a node's field up by name: the first field carrying that name, or
/// `None` where the node has no such field.
pub fn get_field<'a>(n: &'a Node, f: FieldName) -> (r: Option<&'a Node>)
    ensures
        match r {
            Some(m) => field_of(*n, f) == Some(*m),
            None => !has_field(*n, f),
        },
{
    let len = n.fields.len();
    let mut i: usize = 0;
    while i < len
        invariant
            0 <= i <= len,
            len == n.fields@.len(),
            forall|j: int| 0 <= j < i ==> #[trigger] n.fields@[j].name != f,
        decreases len - i,
    {
        if n.fields[i].name == f {
            proof {
                lemma_field_idx_skip(n.fields@, f, i as int);
            }
            return Some(&n.fields[i].node);
        }
        i = i + 1;
    }
    proof {
        lemma_field_idx_skip(n.fields@, f, len as int);
    }
    None
}

} // verus!
