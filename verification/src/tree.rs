//! The generic tree: null, boolean, number, text, list and object.

use vstd::prelude::*;

verus! {

/// A node of the generic tree. An object keeps its entries in the order in
/// which they were written; nothing is assumed about their keys.
#[derive(Debug, PartialEq, Eq)]
pub enum Tree {
    Null,
    Bool(bool),
    /// A whole number.
    Integer(i64),
    /// A number with a fraction, as the bit pattern of a 64-bit IEEE 754 number.
    Float(u64),
    Text(String),
    List(Vec<Tree>),
    Object(Vec<(String, Tree)>),
}

/// What a `Tree` is, as mathematics.
pub ghost enum TreeModel {
    Null,
    Bool(bool),
    Integer(i64),
    Float(u64),
    Text(Seq<char>),
    List(Seq<TreeModel>),
    Object(Seq<(Seq<char>, TreeModel)>),
}

/// The shape of a tree node, as an error reports it.
#[derive(Debug, Clone, Copy, PartialEq, Eq, Structural)]
pub enum Shape {
    Null,
    Bool,
    Integer,
    Float,
    Text,
    List,
    Object,
}

/// The model of a tree: each leaf as it is, each container by the models of
/// its contents.
pub open spec fn tree_model(t: Tree) -> TreeModel
    decreases t,
{
    match t {
        Tree::Null => TreeModel::Null,
        Tree::Bool(b) => TreeModel::Bool(b),
        Tree::Integer(i) => TreeModel::Integer(i),
        Tree::Float(d) => TreeModel::Float(d),
        Tree::Text(s) => TreeModel::Text(s@),
        Tree::List(l) => TreeModel::List(
            Seq::new(
                l@.len(),
                |i: int|
                    if 0 <= i < l@.len() {
                        tree_model(l@[i])
                    } else {
                        TreeModel::Null
                    },
            ),
        ),
        Tree::Object(o) => TreeModel::Object(
            Seq::new(
                o@.len(),
                |i: int|
                    if 0 <= i < o@.len() {
                        (o@[i].0@, tree_model(o@[i].1))
                    } else {
                        (Seq::empty(), TreeModel::Null)
                    },
            ),
        ),
    }
}

impl View for Tree {
    type V = TreeModel;

    open spec fn view(&self) -> TreeModel {
        tree_model(*self)
    }
}

/// The models of a vector's trees, in their order.
pub open spec fn tree_models(ts: Seq<Tree>) -> Seq<TreeModel> {
    Seq::new(ts.len(), |i: int| ts[i]@)
}

/// The models of a vector's named trees, in their order.
pub open spec fn entry_models(es: Seq<(String, Tree)>) -> Seq<(Seq<char>, TreeModel)> {
    Seq::new(es.len(), |i: int| (es[i].0@, es[i].1@))
}

/// A list's model holds the models of its elements.
pub proof fn lemma_list_model(t: Tree)
    requires
        t is List,
    ensures
        t@ == TreeModel::List(tree_models(t->List_0@)),
{
    assert(t@->List_0 =~= tree_models(t->List_0@));
}

/// An object's model holds the models of its entries.
pub proof fn lemma_object_model(t: Tree)
    requires
        t is Object,
    ensures
        t@ == TreeModel::Object(entry_models(t->Object_0@)),
{
    assert(t@->Object_0 =~= entry_models(t->Object_0@));
}

impl TreeModel {
    /// The shape of this node.
    pub open spec fn shape(self) -> Shape {
        match self {
            TreeModel::Null => Shape::Null,
            TreeModel::Bool(_) => Shape::Bool,
            TreeModel::Integer(_) => Shape::Integer,
            TreeModel::Float(_) => Shape::Float,
            TreeModel::Text(_) => Shape::Text,
            TreeModel::List(_) => Shape::List,
            TreeModel::Object(_) => Shape::Object,
        }
    }
}

impl Tree {
    /// The shape of this node.
    pub fn shape(&self) -> (r: Shape)
        ensures
            r == self@.shape(),
    {
        match self {
            Tree::Null => Shape::Null,
            Tree::Bool(_) => Shape::Bool,
            Tree::Integer(_) => Shape::Integer,
            Tree::Float(_) => Shape::Float,
            Tree::Text(_) => Shape::Text,
            Tree::List(_) => Shape::List,
            Tree::Object(_) => Shape::Object,
        }
    }
}

} // verus!
