//! The events of a document that holds a given tree, element by element as
//! the canonical markup writes them, and the law that the recognizer reads
//! them back as the same tree.

use vstd::prelude::*;
use crate::ast::{LogModel, MediatorModel, NodeModel, PropertyModel};
use crate::event::{AttributeModel, EventModel};
use crate::grammar::{
    find_attribute, in_sequence_tag, level_key, log_at, log_body, log_tag, mediator_at, name_key,
    node_at, nodes_from, plain_document_start, program_at, program_of, property_at,
    property_tag, sequence_body, value_key, ErrorModel,
};

verus! {

/// The start tag of a property and its close tag.
pub open spec fn property_events(p: PropertyModel) -> Seq<EventModel> {
    seq![
        EventModel::StartElement {
            name: property_tag(),
            attributes: seq![
                AttributeModel { name: name_key(), value: p.name },
                AttributeModel { name: value_key(), value: p.value },
            ],
        },
        EventModel::EndElement { name: property_tag() },
    ]
}

/// The events of properties, one after the other.
pub open spec fn properties_events(ps: Seq<PropertyModel>) -> Seq<EventModel>
    decreases ps.len(),
{
    if ps.len() == 0 {
        Seq::empty()
    } else {
        property_events(ps[0]) + properties_events(ps.skip(1))
    }
}

/// The start tag of a log, the events of its properties, and its close tag.
pub open spec fn log_events(l: LogModel) -> Seq<EventModel> {
    seq![
        EventModel::StartElement {
            name: log_tag(),
            attributes: seq![AttributeModel { name: level_key(), value: l.level }],
        },
    ] + properties_events(l.properties) + seq![EventModel::EndElement { name: log_tag() }]
}

/// The events of a mediator.
pub open spec fn mediator_events(m: MediatorModel) -> Seq<EventModel> {
    match m {
        MediatorModel::Log(l) => log_events(l),
        MediatorModel::Property(p) => property_events(p),
    }
}

/// The events of mediators, one after the other.
pub open spec fn mediators_events(ms: Seq<MediatorModel>) -> Seq<EventModel>
    decreases ms.len(),
{
    if ms.len() == 0 {
        Seq::empty()
    } else {
        mediator_events(ms[0]) + mediators_events(ms.skip(1))
    }
}

/// The events of a node: for a sequence its start tag, the events of its
/// mediators, and its close tag.
pub open spec fn node_events(n: NodeModel) -> Seq<EventModel> {
    match n {
        NodeModel::InSequence(ms) => seq![
            EventModel::StartElement { name: in_sequence_tag(), attributes: Seq::empty() },
        ] + mediators_events(ms) + seq![EventModel::EndElement { name: in_sequence_tag() }],
        NodeModel::Mediator(m) => mediator_events(m),
    }
}

/// The events of nodes, one after the other.
pub open spec fn nodes_events(ns: Seq<NodeModel>) -> Seq<EventModel>
    decreases ns.len(),
{
    if ns.len() == 0 {
        Seq::empty()
    } else {
        node_events(ns[0]) + nodes_events(ns.skip(1))
    }
}

/// The events of a whole document: a plain document start, the events of the
/// nodes in order, and the end of the document.
pub open spec fn program_events(ns: Seq<NodeModel>) -> Seq<EventModel> {
    seq![plain_document_start()] + nodes_events(ns) + seq![EventModel::EndDocument]
}

/// Whether every mediator of the list is a log.
pub open spec fn all_logs(ms: Seq<MediatorModel>) -> bool {
    forall|i: int| 0 <= i < ms.len() ==> #[trigger] ms[i] is Log
}

/// Whether a node holds properties inside logs only.
pub open spec fn properties_inside_logs(n: NodeModel) -> bool {
    match n {
        NodeModel::InSequence(ms) => all_logs(ms),
        NodeModel::Mediator(m) => m is Log,
    }
}

/// Whether every property of the program stands inside a log.
pub open spec fn well_nested(ns: Seq<NodeModel>) -> bool {
    forall|i: int| 0 <= i < ns.len() ==> properties_inside_logs(#[trigger] ns[i])
}

/// Whether `part` stands in `events` from `pos` on.
pub open spec fn occurs(events: Seq<EventModel>, pos: int, part: Seq<EventModel>) -> bool {
    &&& 0 <= pos
    &&& pos + part.len() <= events.len()
    &&& events.subrange(pos, pos + part.len()) == part
}

proof fn lemma_occurs_split(
    events: Seq<EventModel>,
    pos: int,
    a: Seq<EventModel>,
    b: Seq<EventModel>,
)
    requires
        occurs(events, pos, a + b),
    ensures
        occurs(events, pos, a),
        occurs(events, pos + a.len(), b),
        forall|i: int| 0 <= i < a.len() ==> events[pos + i] == a[i],
{
    let whole = events.subrange(pos, pos + (a + b).len());
    assert forall|i: int| 0 <= i < a.len() implies events[pos + i] == a[i] by {
        assert(whole[i] == (a + b)[i]);
    }
    assert(events.subrange(pos, pos + a.len()) =~= a);
    assert forall|i: int| 0 <= i < b.len() implies events[pos + a.len() + i] == b[i] by {
        assert(whole[a.len() + i] == (a + b)[a.len() + i]);
    }
    assert(events.subrange(pos + a.len(), pos + a.len() + b.len()) =~= b);
}

proof fn lemma_words_differ()
    ensures
        log_tag() != property_tag(),
        log_tag() != in_sequence_tag(),
        property_tag() != in_sequence_tag(),
        name_key() != value_key(),
{
    reveal_strlit("log");
    reveal_strlit("property");
    reveal_strlit("inSequence");
    reveal_strlit("name");
    reveal_strlit("value");
    assert(log_tag().len() == 3);
    assert(property_tag().len() == 8);
    assert(in_sequence_tag().len() == 10);
    assert(name_key().len() == 4);
    assert(value_key().len() == 5);
}

proof fn lemma_property_back(events: Seq<EventModel>, pos: int, p: PropertyModel)
    requires
        0 <= pos < events.len(),
        events[pos] == property_events(p)[0],
    ensures
        property_at(events, pos) == Ok::<(PropertyModel, int), ErrorModel>((p, pos + 1)),
{
    lemma_words_differ();
    let attrs = seq![
        AttributeModel { name: name_key(), value: p.name },
        AttributeModel { name: value_key(), value: p.value },
    ];
    reveal_with_fuel(find_attribute, 3);
    assert(find_attribute(attrs, name_key(), 0) == Some(p.name));
    assert(find_attribute(attrs, value_key(), 0) == Some(p.value));
}

proof fn lemma_log_body_back(events: Seq<EventModel>, pos: int, ps: Seq<PropertyModel>)
    requires
        occurs(
            events,
            pos,
            properties_events(ps) + seq![EventModel::EndElement { name: log_tag() }],
        ),
    ensures
        log_body(events, pos) == Ok::<(Seq<PropertyModel>, int), ErrorModel>(
            (ps, pos + properties_events(ps).len() + 1),
        ),
    decreases ps.len(),
{
    lemma_words_differ();
    let close = seq![EventModel::EndElement { name: log_tag() }];
    lemma_occurs_split(events, pos, properties_events(ps), close);
    if ps.len() == 0 {
        assert(events[pos + 0 + 0] == close[0]);
        assert(ps =~= Seq::<PropertyModel>::empty());
    } else {
        let first = property_events(ps[0]);
        let rest = properties_events(ps.skip(1));
        lemma_occurs_split(events, pos, first, rest);
        assert(events[pos + 0] == first[0]);
        assert(events[pos + 1] == first[1]);
        lemma_property_back(events, pos, ps[0]);
        assert(first + rest + close =~= first + (rest + close));
        lemma_occurs_split(events, pos, first, rest + close);
        lemma_log_body_back(events, pos + 2, ps.skip(1));
        assert(seq![ps[0]] + ps.skip(1) =~= ps);
    }
}

proof fn lemma_log_back(events: Seq<EventModel>, pos: int, l: LogModel)
    requires
        occurs(events, pos, log_events(l)),
    ensures
        log_at(events, pos) == Ok::<(LogModel, int), ErrorModel>((l, pos + log_events(l).len())),
        mediator_at(events, pos) == Ok::<(MediatorModel, int), ErrorModel>(
            (MediatorModel::Log(l), pos + log_events(l).len()),
        ),
{
    lemma_words_differ();
    let open = seq![
        EventModel::StartElement {
            name: log_tag(),
            attributes: seq![AttributeModel { name: level_key(), value: l.level }],
        },
    ];
    let close = seq![EventModel::EndElement { name: log_tag() }];
    let body = properties_events(l.properties);
    assert(log_events(l) =~= open + (body + close));
    lemma_occurs_split(events, pos, open, body + close);
    assert(events[pos + 0] == open[0]);
    reveal_with_fuel(find_attribute, 2);
    lemma_log_body_back(events, pos + 1, l.properties);
}

proof fn lemma_sequence_body_back(events: Seq<EventModel>, pos: int, ms: Seq<MediatorModel>)
    requires
        all_logs(ms),
        occurs(
            events,
            pos,
            mediators_events(ms) + seq![EventModel::EndElement { name: in_sequence_tag() }],
        ),
    ensures
        sequence_body(events, pos) == Ok::<(Seq<MediatorModel>, int), ErrorModel>(
            (ms, pos + mediators_events(ms).len() + 1),
        ),
    decreases ms.len(),
{
    lemma_words_differ();
    let close = seq![EventModel::EndElement { name: in_sequence_tag() }];
    lemma_occurs_split(events, pos, mediators_events(ms), close);
    if ms.len() == 0 {
        assert(events[pos + 0 + 0] == close[0]);
        assert(ms =~= Seq::<MediatorModel>::empty());
    } else {
        assert(ms[0] is Log);
        let l = ms[0]->Log_0;
        let first = log_events(l);
        let rest = mediators_events(ms.skip(1));
        assert(first + rest + close =~= first + (rest + close));
        lemma_occurs_split(events, pos, first, rest + close);
        assert(events[pos + 0] == first[0]);
        lemma_log_back(events, pos, l);
        assert forall|i: int| 0 <= i < ms.skip(1).len() implies #[trigger] ms.skip(1)[i] is Log by {
            assert(ms[i + 1] is Log);
        }
        lemma_sequence_body_back(events, pos + first.len(), ms.skip(1));
        assert(seq![ms[0]] + ms.skip(1) =~= ms);
    }
}

proof fn lemma_node_back(events: Seq<EventModel>, pos: int, n: NodeModel)
    requires
        properties_inside_logs(n),
        occurs(events, pos, node_events(n)),
    ensures
        node_at(events, pos) == Ok::<(NodeModel, int), ErrorModel>((n, pos + node_events(n).len())),
        node_events(n).len() > 0,
        !(events[pos] is EndDocument),
{
    lemma_words_differ();
    match n {
        NodeModel::InSequence(ms) => {
            let open = seq![
                EventModel::StartElement { name: in_sequence_tag(), attributes: Seq::empty() },
            ];
            let close = seq![EventModel::EndElement { name: in_sequence_tag() }];
            let body = mediators_events(ms);
            assert(node_events(n) =~= open + (body + close));
            lemma_occurs_split(events, pos, open, body + close);
            assert(events[pos + 0] == open[0]);
            lemma_sequence_body_back(events, pos + 1, ms);
        },
        NodeModel::Mediator(m) => {
            let l = m->Log_0;
            let open = seq![
                EventModel::StartElement {
                    name: log_tag(),
                    attributes: seq![AttributeModel { name: level_key(), value: l.level }],
                },
            ];
            let tail = properties_events(l.properties) + seq![
                EventModel::EndElement { name: log_tag() },
            ];
            assert(log_events(l) =~= open + tail);
            lemma_occurs_split(events, pos, open, tail);
            assert(events[pos + 0] == open[0]);
            lemma_log_back(events, pos, l);
        },
    }
}

proof fn lemma_nodes_back(events: Seq<EventModel>, pos: int, ns: Seq<NodeModel>)
    requires
        well_nested(ns),
        occurs(events, pos, nodes_events(ns) + seq![EventModel::EndDocument]),
    ensures
        nodes_from(events, pos) == Ok::<(Seq<NodeModel>, int), ErrorModel>(
            (ns, pos + nodes_events(ns).len() + 1),
        ),
    decreases ns.len(),
{
    let close = seq![EventModel::EndDocument];
    lemma_occurs_split(events, pos, nodes_events(ns), close);
    if ns.len() == 0 {
        assert(events[pos + 0 + 0] == close[0]);
        assert(ns =~= Seq::<NodeModel>::empty());
    } else {
        assert(properties_inside_logs(ns[0]));
        let first = node_events(ns[0]);
        let rest = nodes_events(ns.skip(1));
        assert(first + rest + close =~= first + (rest + close));
        lemma_occurs_split(events, pos, first, rest + close);
        lemma_node_back(events, pos, ns[0]);
        assert forall|i: int| 0 <= i < ns.skip(1).len() implies properties_inside_logs(
            #[trigger] ns.skip(1)[i],
        ) by {
            assert(properties_inside_logs(ns[i + 1]));
        }
        lemma_nodes_back(events, pos + first.len(), ns.skip(1));
        assert(seq![ns[0]] + ns.skip(1) =~= ns);
    }
}

/// Reading back: the events of a document that holds a program are recognized
/// as that program, whatever its attribute values, provided every property
/// stands inside a log. The cursor ends behind the last event.
///
/// A property that stands directly in a sequence or at the top level is read
/// as one event, so that its close tag is left over and the document fails.
pub proof fn theorem_events_read_back(ns: Seq<NodeModel>)
    requires
        well_nested(ns),
    ensures
        program_of(program_events(ns)) == Ok::<Seq<NodeModel>, ErrorModel>(ns),
        program_at(program_events(ns), 0) == Ok::<(Seq<NodeModel>, int), ErrorModel>(
            (ns, program_events(ns).len() as int),
        ),
{
    let events = program_events(ns);
    let open = seq![plain_document_start()];
    let tail = nodes_events(ns) + seq![EventModel::EndDocument];
    assert(events =~= open + tail);
    assert(events.subrange(0, events.len() as int) =~= events);
    lemma_occurs_split(events, 0, open, tail);
    assert(events[0] == open[0]);
    lemma_nodes_back(events, 1, ns);
}

/// The same without a document start: the content alone, closed by the end of
/// the document, is recognized as the program.
pub proof fn theorem_content_reads_back(ns: Seq<NodeModel>)
    requires
        well_nested(ns),
    ensures
        program_of(nodes_events(ns) + seq![EventModel::EndDocument]) == Ok::<
            Seq<NodeModel>,
            ErrorModel,
        >(ns),
{
    let events = nodes_events(ns) + seq![EventModel::EndDocument];
    assert(events.subrange(0, events.len() as int) =~= events);
    lemma_nodes_back(events, 0, ns);
    if ns.len() == 0 {
        assert(events[0] == EventModel::EndDocument);
    } else {
        assert(properties_inside_logs(ns[0]));
        let first = node_events(ns[0]);
        let rest = nodes_events(ns.skip(1)) + seq![EventModel::EndDocument];
        assert(events =~= first + rest);
        lemma_occurs_split(events, 0, first, rest);
        lemma_node_back(events, 0, ns[0]);
        assert(events[0] == first[0]);
    }
}

} // verus!
