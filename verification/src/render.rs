//! Canonical markup of a tree: every element as an open tag, its children,
//! and its close tag, with attribute values substituted literally.

use vstd::prelude::*;
use crate::ast::{
    AstNode, InSequence, LogMediator, LogModel, MediatorModel, Mediators, NodeModel, Program,
    PropertyMediator, PropertyModel, Sequences,
};

verus! {

/// `<property name="N" value="V"></property>`
pub open spec fn property_markup(p: PropertyModel) -> Seq<char> {
    "<property name=\""@ + p.name + "\" value=\""@ + p.value + "\"></property>"@
}

/// Markup of the first `n` properties of `ps`, one after the other.
pub open spec fn properties_markup(ps: Seq<PropertyModel>, n: int) -> Seq<char>
    decreases n,
{
    if n <= 0 {
        Seq::empty()
    } else {
        properties_markup(ps, n - 1) + property_markup(ps[n - 1])
    }
}

/// `<log level="L">` properties `</log>`
pub open spec fn log_markup(l: LogModel) -> Seq<char> {
    "<log level=\""@ + l.level + "\">"@ + properties_markup(l.properties, l.properties.len() as int)
        + "</log>"@
}

/// Markup of a mediator.
pub open spec fn mediator_markup(m: MediatorModel) -> Seq<char> {
    match m {
        MediatorModel::Log(l) => log_markup(l),
        MediatorModel::Property(p) => property_markup(p),
    }
}

/// Markup of the first `n` mediators of `ms`, one after the other.
pub open spec fn mediators_markup(ms: Seq<MediatorModel>, n: int) -> Seq<char>
    decreases n,
{
    if n <= 0 {
        Seq::empty()
    } else {
        mediators_markup(ms, n - 1) + mediator_markup(ms[n - 1])
    }
}

/// `<inSequence>` mediators `</inSequence>`
pub open spec fn in_sequence_markup(ms: Seq<MediatorModel>) -> Seq<char> {
    "<inSequence>"@ + mediators_markup(ms, ms.len() as int) + "</inSequence>"@
}

/// Markup of a node.
pub open spec fn node_markup(n: NodeModel) -> Seq<char> {
    match n {
        NodeModel::InSequence(ms) => in_sequence_markup(ms),
        NodeModel::Mediator(m) => mediator_markup(m),
    }
}

/// Markup of the first `n` nodes of `ns`, one after the other.
pub open spec fn nodes_markup(ns: Seq<NodeModel>, n: int) -> Seq<char>
    decreases n,
{
    if n <= 0 {
        Seq::empty()
    } else {
        nodes_markup(ns, n - 1) + node_markup(ns[n - 1])
    }
}

/// Markup of a whole program: its nodes, one after the other.
pub open spec fn program_markup(ns: Seq<NodeModel>) -> Seq<char> {
    nodes_markup(ns, ns.len() as int)
}

impl PropertyMediator {
    /// The canonical markup of this property.
    pub fn render(&self) -> (s: String)
        ensures
            s@ == property_markup(self@),
    {
        let mut s = String::from_str("<property name=\"");
        s.append(self.name.as_str());
        s.append("\" value=\"");
        s.append(self.value.as_str());
        s.append("\"></property>");
        s
    }
}

impl LogMediator {
    /// The canonical markup of this log.
    pub fn render(&self) -> (s: String)
        ensures
            s@ == log_markup(self@),
    {
        let mut s = String::from_str("<log level=\"");
        s.append(self.level.as_str());
        s.append("\">");
        let ghost head = s@;
        let ghost ps = self@.properties;
        let mut i: usize = 0;
        while i < self.properties.len()
            invariant
                i <= self.properties.len(),
                ps == self@.properties,
                s@ == head + properties_markup(ps, i as int),
            decreases self.properties.len() - i,
        {
            let piece = self.properties[i].render();
            assert(ps[i as int] == self.properties[i as int]@);
            assert(head + properties_markup(ps, i + 1) =~= head + properties_markup(ps, i as int)
                + piece@);
            s.append(piece.as_str());
            i = i + 1;
        }
        s.append("</log>");
        s
    }
}

impl Mediators {
    /// The canonical markup of this mediator.
    pub fn render(&self) -> (s: String)
        ensures
            s@ == mediator_markup(self@),
    {
        match self {
            Mediators::Log(l) => l.render(),
            Mediators::Property(p) => p.render(),
        }
    }
}

impl InSequence {
    /// The canonical markup of this sequence.
    pub fn render(&self) -> (s: String)
        ensures
            s@ == in_sequence_markup(self@),
    {
        let mut s = String::from_str("<inSequence>");
        let ghost head = s@;
        let ghost ms = self@;
        let mut i: usize = 0;
        while i < self.mediators.len()
            invariant
                i <= self.mediators.len(),
                ms == self@,
                s@ == head + mediators_markup(ms, i as int),
            decreases self.mediators.len() - i,
        {
            let piece = self.mediators[i].render();
            assert(ms[i as int] == self.mediators[i as int]@);
            assert(head + mediators_markup(ms, i + 1) =~= head + mediators_markup(ms, i as int)
                + piece@);
            s.append(piece.as_str());
            i = i + 1;
        }
        s.append("</inSequence>");
        s
    }
}

impl Sequences {
    /// The canonical markup of this sequence.
    pub fn render(&self) -> (s: String)
        ensures
            s@ == in_sequence_markup(self@),
    {
        match self {
            Sequences::InSequence(seq) => seq.render(),
        }
    }
}

impl AstNode {
    /// The canonical markup of this node.
    pub fn render(&self) -> (s: String)
        ensures
            s@ == node_markup(self@),
    {
        match self {
            AstNode::Sequence(seq) => seq.render(),
            AstNode::Mediator(m) => m.render(),
        }
    }
}

impl Program {
    /// The canonical markup of this program.
    pub fn render(&self) -> (s: String)
        ensures
            s@ == program_markup(self@),
    {
        let mut s = String::new();
        let ghost ns = self@;
        let mut i: usize = 0;
        while i < self.ast_nodes.len()
            invariant
                i <= self.ast_nodes.len(),
                ns == self@,
                s@ == nodes_markup(ns, i as int),
            decreases self.ast_nodes.len() - i,
        {
            let piece = self.ast_nodes[i].render();
            assert(ns[i as int] == self.ast_nodes[i as int]@);
            s.append(piece.as_str());
            i = i + 1;
        }
        s
    }
}

} // verus!
