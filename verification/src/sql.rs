//! The syntax tree of a query.

use vstd::prelude::*;

verus! {

broadcast use vstd::std_specs::vec::group_vec_axioms;

/// A comparison between two expressions.
#[derive(Debug, Clone, Copy, PartialEq, Eq)]
pub enum SQLOperator {
    EQ,
    LT,
    LTEQ,
    GT,
    GTEQ,
}

/// The type of a column.
#[derive(Debug, Clone, Copy, PartialEq, Eq)]
pub enum SQLType {
    Double,
    Varchar(usize),
}

/// One column of a table definition.
#[derive(Debug, PartialEq)]
pub struct SQLColumnDef {
    pub name: String,
    pub data_type: SQLType,
    pub allow_null: bool,
}

/// A column definition as a mathematical value.
pub struct SQLColumnDefView {
    pub name: Seq<char>,
    pub data_type: SQLType,
    pub allow_null: bool,
}

impl View for SQLColumnDef {
    type V = SQLColumnDefView;

    open spec fn view(&self) -> SQLColumnDefView {
        SQLColumnDefView {
            name: self.name@,
            data_type: self.data_type,
            allow_null: self.allow_null,
        }
    }
}

impl Clone for SQLColumnDef {
    fn clone(&self) -> (copy: Self)
        ensures
            copy == *self,
    {
        SQLColumnDef {
            name: self.name.clone(),
            data_type: self.data_type,
            allow_null: self.allow_null,
        }
    }
}

/// A node of the syntax tree.
#[derive(Debug, PartialEq)]
pub enum ASTNode {
    SQLIdentifier { id: String },
    SQLLiteralInt(i64),
    SQLFunction { id: String, args: Vec<ASTNode> },
    SQLBinaryExpr { left: Box<ASTNode>, op: SQLOperator, right: Box<ASTNode> },
    SQLSelect {
        projection: Vec<ASTNode>,
        relation: Option<Box<ASTNode>>,
        selection: Option<Box<ASTNode>>,
        limit: Option<Box<ASTNode>>,
        order: Option<Vec<ASTNode>>,
    },
    SQLCreateTable { name: String, columns: Vec<SQLColumnDef> },
}

/// A node of the syntax tree as a mathematical value.
pub enum ASTNodeView {
    SQLIdentifier { id: Seq<char> },
    SQLLiteralInt(i64),
    SQLFunction { id: Seq<char>, args: Seq<ASTNodeView> },
    SQLBinaryExpr { left: Box<ASTNodeView>, op: SQLOperator, right: Box<ASTNodeView> },
    SQLSelect {
        projection: Seq<ASTNodeView>,
        relation: Option<Box<ASTNodeView>>,
        selection: Option<Box<ASTNodeView>>,
        limit: Option<Box<ASTNodeView>>,
        order: Option<Seq<ASTNodeView>>,
    },
    SQLCreateTable { name: Seq<char>, columns: Seq<SQLColumnDefView> },
}

/// The mathematical value of a node: the same tree, with texts as
/// sequences of characters and vectors as sequences.
pub open spec fn node_view(node: ASTNode) -> ASTNodeView
    decreases node,
{
    match node {
        ASTNode::SQLIdentifier { id } => ASTNodeView::SQLIdentifier { id: id@ },
        ASTNode::SQLLiteralInt(n) => ASTNodeView::SQLLiteralInt(n),
        ASTNode::SQLFunction { id, args } => ASTNodeView::SQLFunction {
            id: id@,
            args: Seq::new(
                args.len() as nat,
                |i: int|
                    if 0 <= i < args.len() {
                        node_view(args[i])
                    } else {
                        arbitrary()
                    },
            ),
        },
        ASTNode::SQLBinaryExpr { left, op, right } => ASTNodeView::SQLBinaryExpr {
            left: Box::new(node_view(*left)),
            op: op,
            right: Box::new(node_view(*right)),
        },
        ASTNode::SQLSelect { projection, relation, selection, limit, order } => {
            ASTNodeView::SQLSelect {
                projection: Seq::new(
                    projection.len() as nat,
                    |i: int|
                        if 0 <= i < projection.len() {
                            node_view(projection[i])
                        } else {
                            arbitrary()
                        },
                ),
                relation: match relation {
                    Some(node) => Some(Box::new(node_view(*node))),
                    None => None,
                },
                selection: match selection {
                    Some(node) => Some(Box::new(node_view(*node))),
                    None => None,
                },
                limit: match limit {
                    Some(node) => Some(Box::new(node_view(*node))),
                    None => None,
                },
                order: match order {
                    Some(nodes) => Some(
                        Seq::new(
                            nodes.len() as nat,
                            |i: int|
                                if 0 <= i < nodes.len() {
                                    node_view(nodes[i])
                                } else {
                                    arbitrary()
                                },
                        ),
                    ),
                    None => None,
                },
            }
        },
        ASTNode::SQLCreateTable { name, columns } => ASTNodeView::SQLCreateTable {
            name: name@,
            columns: column_views(columns@),
        },
    }
}

impl View for ASTNode {
    type V = ASTNodeView;

    open spec fn view(&self) -> ASTNodeView {
        node_view(*self)
    }
}

/// The nodes of a vector as mathematical values.
pub open spec fn node_views(nodes: Seq<ASTNode>) -> Seq<ASTNodeView> {
    Seq::new(nodes.len(), |i: int| nodes[i]@)
}

/// The column definitions of a vector as mathematical values.
pub open spec fn column_views(columns: Seq<SQLColumnDef>) -> Seq<SQLColumnDefView> {
    Seq::new(columns.len(), |i: int| columns[i]@)
}

/// An optional node as a mathematical value.
pub open spec fn optional_view(node: Option<Box<ASTNode>>) -> Option<Box<ASTNodeView>> {
    match node {
        Some(node) => Some(Box::new(node@)),
        None => None,
    }
}

/// A copy of each node of a vector.
fn clone_nodes(nodes: &Vec<ASTNode>) -> (copies: Vec<ASTNode>)
    ensures
        node_views(copies@) == node_views(nodes@),
    decreases nodes,
{
    let mut copies: Vec<ASTNode> = Vec::new();
    let mut i: usize = 0;
    while i < nodes.len()
        invariant
            i <= nodes.len(),
            copies.len() == i,
            forall|j: int| 0 <= j < i ==> copies[j]@ == nodes[j]@,
        decreases nodes.len() - i,
    {
        let copy = nodes[i].clone();
        copies.push(copy);
        i += 1;
    }
    assert(node_views(copies@) =~= node_views(nodes@));
    copies
}

/// A copy of a node that may be missing.
fn clone_optional(node: &Option<Box<ASTNode>>) -> (copy: Option<Box<ASTNode>>)
    ensures
        optional_view(copy) == optional_view(*node),
    decreases node,
{
    match node {
        Some(node) => Some(Box::new((&**node).clone())),
        None => None,
    }
}

impl Clone for ASTNode {
    fn clone(&self) -> (copy: Self)
        ensures
            copy@ == self@,
        decreases self,
    {
        match self {
            ASTNode::SQLIdentifier { id } => ASTNode::SQLIdentifier { id: id.clone() },
            ASTNode::SQLLiteralInt(n) => ASTNode::SQLLiteralInt(*n),
            ASTNode::SQLFunction { id, args } => {
                let id = id.clone();
                let args = clone_nodes(args);
                proof {
                    lemma_function_view(id, args);
                    lemma_view_unfolds(*self);
                }
                ASTNode::SQLFunction { id: id, args: args }
            },
            ASTNode::SQLBinaryExpr { left, op, right } => ASTNode::SQLBinaryExpr {
                left: Box::new((&**left).clone()),
                op: *op,
                right: Box::new((&**right).clone()),
            },
            ASTNode::SQLSelect { projection, relation, selection, limit, order } => {
                let projection = clone_nodes(projection);
                let relation = clone_optional(relation);
                let selection = clone_optional(selection);
                let limit = clone_optional(limit);
                let order = match order {
                    Some(nodes) => Some(clone_nodes(nodes)),
                    None => None,
                };
                let copy = ASTNode::SQLSelect {
                    projection: projection,
                    relation: relation,
                    selection: selection,
                    limit: limit,
                    order: order,
                };
                proof {
                    lemma_view_unfolds(copy);
                    lemma_view_unfolds(*self);
                }
                copy
            },
            ASTNode::SQLCreateTable { name, columns } => {
                let mut copies: Vec<SQLColumnDef> = Vec::new();
                let mut i: usize = 0;
                while i < columns.len()
                    invariant
                        i <= columns.len(),
                        copies.len() == i,
                        forall|j: int| 0 <= j < i ==> copies[j] == columns[j],
                    decreases columns.len() - i,
                {
                    copies.push(columns[i].clone());
                    i += 1;
                }
                assert(column_views(copies@) =~= column_views(columns@));
                ASTNode::SQLCreateTable { name: name.clone(), columns: copies }
            },
        }
    }
}

/// The view of a node with a list below it, said with `node_views` and
/// `optional_view`.
pub proof fn lemma_view_unfolds(node: ASTNode)
    ensures
        node matches ASTNode::SQLFunction { id, args } ==> node@ == (ASTNodeView::SQLFunction {
            id: id@,
            args: node_views(args@),
        }),
        node matches ASTNode::SQLSelect { projection, relation, selection, limit, order }
            ==> node@ == (ASTNodeView::SQLSelect {
            projection: node_views(projection@),
            relation: optional_view(relation),
            selection: optional_view(selection),
            limit: optional_view(limit),
            order: match order {
                Some(nodes) => Some(node_views(nodes@)),
                None => None,
            },
        }),
{
    match node {
        ASTNode::SQLFunction { id, args } => {
            assert(node@->SQLFunction_args =~= node_views(args@));
        },
        ASTNode::SQLSelect { projection, relation, selection, limit, order } => {
            assert(node@->SQLSelect_projection =~= node_views(projection@));
            if let Some(nodes) = order {
                assert(node@->SQLSelect_order->0 =~= node_views(nodes@));
            }
        },
        _ => {},
    }
}

/// The view of a function call, said with `node_views`.
pub proof fn lemma_function_view(id: String, args: Vec<ASTNode>)
    ensures
        (ASTNode::SQLFunction { id, args })@ == (ASTNodeView::SQLFunction {
            id: id@,
            args: node_views(args@),
        }),
{
    let node = ASTNode::SQLFunction { id, args };
    assert(node@->SQLFunction_args =~= node_views(args@));
}

/// The view of a `SELECT` statement without an order, said with `node_views`
/// and `optional_view`.
pub proof fn lemma_select_view(
    projection: Vec<ASTNode>,
    relation: Option<Box<ASTNode>>,
    selection: Option<Box<ASTNode>>,
    limit: Option<Box<ASTNode>>,
)
    ensures
        (ASTNode::SQLSelect { projection, relation, selection, limit, order: None })@ == (
        ASTNodeView::SQLSelect {
            projection: node_views(projection@),
            relation: optional_view(relation),
            selection: optional_view(selection),
            limit: optional_view(limit),
            order: None,
        }),
{
    let node = ASTNode::SQLSelect { projection, relation, selection, limit, order: None };
    assert(node@->SQLSelect_projection =~= node_views(projection@));
}

} // verus!
