//! What a failed reading reports: where in the tree, what was expected there
//! and what was found.

use vstd::prelude::*;
use crate::hint::{HintModel, Kind};
use crate::tree::{Shape, TreeModel};

verus! {

/// One step of the way from the root of a tree to a node.
#[derive(Debug, PartialEq, Eq)]
pub enum PathStep {
    /// Into a list, at a position.
    Index(usize),
    /// Into an object, under a key.
    Field(String),
}

/// What is wrong with a node.
#[derive(Debug, Clone, Copy, PartialEq, Eq, Structural)]
pub enum Fault {
    /// The node has another shape than the hint asks for.
    WrongShape { expected: Kind, actual: Shape },
    /// The node has the shape that the hint asks for, but not the content:
    /// a text that is no even number of hexadecimal digits where bytes are
    /// expected, an object that is not the two entries of a timestamp or of
    /// a geographic point.
    Malformed { expected: Kind },
    /// A list with another number of elements than its hint has hints.
    WrongLength { expected: usize, actual: usize },
    /// The key stands twice in its object.
    RepeatedKey,
    /// The key stands in an object whose hint names no such field.
    UnknownKey,
}

/// A tree node that is not what its hint asks for.
#[derive(Debug, PartialEq, Eq)]
pub struct SchemaMismatch {
    /// The way from the root to the node, outermost step first. For a
    /// repeated or unknown key the last step is the key.
    pub path: Vec<PathStep>,
    pub fault: Fault,
}

pub ghost enum StepModel {
    Index(nat),
    Field(Seq<char>),
}

pub ghost enum FaultModel {
    WrongShape { expected: Kind, actual: Shape },
    Malformed { expected: Kind },
    WrongLength { expected: nat, actual: nat },
    RepeatedKey,
    UnknownKey,
}

pub ghost struct MismatchModel {
    pub path: Seq<StepModel>,
    pub fault: FaultModel,
}

impl View for Fault {
    type V = FaultModel;

    open spec fn view(&self) -> FaultModel {
        match *self {
            Fault::WrongShape { expected, actual } => FaultModel::WrongShape { expected, actual },
            Fault::Malformed { expected } => FaultModel::Malformed { expected },
            Fault::WrongLength { expected, actual } => FaultModel::WrongLength {
                expected: expected as nat,
                actual: actual as nat,
            },
            Fault::RepeatedKey => FaultModel::RepeatedKey,
            Fault::UnknownKey => FaultModel::UnknownKey,
        }
    }
}

impl View for PathStep {
    type V = StepModel;

    open spec fn view(&self) -> StepModel {
        match *self {
            PathStep::Index(i) => StepModel::Index(i as nat),
            PathStep::Field(k) => StepModel::Field(k@),
        }
    }
}

impl View for SchemaMismatch {
    type V = MismatchModel;

    open spec fn view(&self) -> MismatchModel {
        MismatchModel { path: Seq::new(self.path@.len(), |i: int| self.path@[i]@), fault: self.fault@ }
    }
}

/// A fault at the node itself.
pub open spec fn at_node(fault: FaultModel) -> MismatchModel {
    MismatchModel { path: Seq::empty(), fault }
}

/// The mismatch of a node that has another shape than its hint asks for.
pub open spec fn here(t: TreeModel, h: HintModel) -> MismatchModel {
    at_node(FaultModel::WrongShape { expected: h.kind(), actual: t.shape() })
}

/// The mismatch of a node that has the shape but not the content that its
/// hint asks for.
pub open spec fn malformed(h: HintModel) -> MismatchModel {
    at_node(FaultModel::Malformed { expected: h.kind() })
}

/// The mismatch of an entry whose key stands earlier in its object too.
pub open spec fn repeated(k: Seq<char>) -> MismatchModel {
    at_node(FaultModel::RepeatedKey).under(StepModel::Field(k))
}

/// The mismatch of an entry for whose key the hint names no field.
pub open spec fn unknown(k: Seq<char>) -> MismatchModel {
    at_node(FaultModel::UnknownKey).under(StepModel::Field(k))
}

impl MismatchModel {
    /// The same mismatch, seen from one step further out.
    pub open spec fn under(self, step: StepModel) -> MismatchModel {
        MismatchModel { path: seq![step] + self.path, fault: self.fault }
    }
}

impl SchemaMismatch {
    /// A mismatch at the node itself.
    pub fn at_node(fault: Fault) -> (r: SchemaMismatch)
        ensures
            r@ == at_node(fault@),
    {
        let r = SchemaMismatch { path: Vec::new(), fault };
        assert(r@.path =~= Seq::empty());
        r
    }

    /// The same mismatch, seen from one step further out.
    pub fn under(self, step: PathStep) -> (r: SchemaMismatch)
        ensures
            r@ == self@.under(step@),
    {
        let mut path = self.path;
        path.insert(0, step);
        let r = SchemaMismatch { path, fault: self.fault };
        assert(r@.path =~= self@.under(step@).path);
        r
    }
}

} // verus!
