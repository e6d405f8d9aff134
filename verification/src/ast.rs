//! The syntax tree and its mathematical model.

use vstd::prelude::*;

verus! {

/// Model of a property: its two attribute values.
pub struct PropertyModel {
    pub name: Seq<char>,
    pub value: Seq<char>,
}

/// Model of a log step: its level and its properties, in document order.
pub struct LogModel {
    pub level: Seq<char>,
    pub properties: Seq<PropertyModel>,
}

/// Model of a mediator.
pub enum MediatorModel {
    Log(LogModel),
    Property(PropertyModel),
}

/// Model of a top-level node: an `inSequence` block with its mediators in
/// document order, or a bare mediator.
pub enum NodeModel {
    InSequence(Seq<MediatorModel>),
    Mediator(MediatorModel),
}

/// Root of the tree: the top-level nodes in document order.
#[derive(Debug, Clone, PartialEq, Eq)]
pub struct Program {
    pub ast_nodes: Vec<AstNode>,
}

#[derive(Debug, Clone, PartialEq, Eq)]
pub enum AstNode {
    Sequence(Sequences),
    Mediator(Mediators),
}

#[derive(Debug, Clone, PartialEq, Eq)]
pub enum Sequences {
    InSequence(InSequence),
}

#[derive(Debug, Clone, PartialEq, Eq)]
pub enum Mediators {
    Log(LogMediator),
    Property(PropertyMediator),
}

/// An ordered block of mediators; it may be empty.
#[derive(Debug, Clone, PartialEq, Eq)]
pub struct InSequence {
    pub mediators: Vec<Mediators>,
}

/// A logging step with its level and its properties.
#[derive(Debug, Clone, PartialEq, Eq)]
pub struct LogMediator {
    pub level: String,
    pub properties: Vec<PropertyMediator>,
}

/// A key/value pair attached to a logging step.
#[derive(Debug, Clone, PartialEq, Eq)]
pub struct PropertyMediator {
    pub name: String,
    pub value: String,
}

impl View for PropertyMediator {
    type V = PropertyModel;

    open spec fn view(&self) -> PropertyModel {
        PropertyModel { name: self.name@, value: self.value@ }
    }
}

/// The models of a list of properties, in order.
pub open spec fn properties_view(ps: Seq<PropertyMediator>) -> Seq<PropertyModel> {
    ps.map_values(|p: PropertyMediator| p@)
}

impl View for LogMediator {
    type V = LogModel;

    open spec fn view(&self) -> LogModel {
        LogModel { level: self.level@, properties: properties_view(self.properties@) }
    }
}

impl View for Mediators {
    type V = MediatorModel;

    open spec fn view(&self) -> MediatorModel {
        match self {
            Mediators::Log(l) => MediatorModel::Log(l@),
            Mediators::Property(p) => MediatorModel::Property(p@),
        }
    }
}

/// The models of a list of mediators, in order.
pub open spec fn mediators_view(ms: Seq<Mediators>) -> Seq<MediatorModel> {
    ms.map_values(|m: Mediators| m@)
}

impl View for InSequence {
    type V = Seq<MediatorModel>;

    open spec fn view(&self) -> Seq<MediatorModel> {
        mediators_view(self.mediators@)
    }
}

impl View for Sequences {
    type V = Seq<MediatorModel>;

    open spec fn view(&self) -> Seq<MediatorModel> {
        match self {
            Sequences::InSequence(s) => s@,
        }
    }
}

impl View for AstNode {
    type V = NodeModel;

    open spec fn view(&self) -> NodeModel {
        match self {
            AstNode::Sequence(s) => NodeModel::InSequence(s@),
            AstNode::Mediator(m) => NodeModel::Mediator(m@),
        }
    }
}

/// The models of a list of nodes, in order.
pub open spec fn nodes_view(ns: Seq<AstNode>) -> Seq<NodeModel> {
    ns.map_values(|n: AstNode| n@)
}

impl View for Program {
    type V = Seq<NodeModel>;

    open spec fn view(&self) -> Seq<NodeModel> {
        nodes_view(self.ast_nodes@)
    }
}

impl Program {
    /// Hands out the top-level nodes, in document order.
    pub fn into_nodes(self) -> (nodes: Vec<AstNode>)
        ensures
            nodes == self.ast_nodes,
    {
        self.ast_nodes
    }
}

} // verus!
