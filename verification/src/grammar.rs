//! The grammar, as functions from an event sequence and a cursor position to
//! the recognized value and the position behind it, or to the first failure.

use vstd::prelude::*;
use crate::ast::{LogModel, MediatorModel, NodeModel, PropertyModel};
use crate::event::{AttributeModel, EventModel, Version};

verus! {

/// Model of a failure.
pub enum ErrorModel {
    UnsupportedMediator(Seq<char>),
    MalformedLog,
    UnbalancedElement(Seq<char>),
    UnexpectedEvent,
    UnexpectedEndOfStream,
}

pub open spec fn in_sequence_tag() -> Seq<char> {
    "inSequence"@
}

pub open spec fn log_tag() -> Seq<char> {
    "log"@
}

pub open spec fn property_tag() -> Seq<char> {
    "property"@
}

pub open spec fn level_key() -> Seq<char> {
    "level"@
}

pub open spec fn name_key() -> Seq<char> {
    "name"@
}

pub open spec fn value_key() -> Seq<char> {
    "value"@
}

/// The document start that is passed over before the content: version 1.0,
/// encoding `UTF-8`, nothing said of standalone.
pub open spec fn plain_document_start() -> EventModel {
    EventModel::StartDocument { version: Version::V10, encoding: "UTF-8"@, standalone: None }
}

/// The lookahead at `pos`: the event there, or nothing behind the last one.
pub open spec fn look(events: Seq<EventModel>, pos: int) -> Option<EventModel> {
    if 0 <= pos < events.len() {
        Some(events[pos])
    } else {
        None
    }
}

/// The position after pulling one more event; the end of the stream stays.
pub open spec fn advance(events: Seq<EventModel>, pos: int) -> int {
    if pos < events.len() {
        pos + 1
    } else {
        pos
    }
}

/// The value of the first attribute at or behind `from` that is named `key`.
pub open spec fn find_attribute(attrs: Seq<AttributeModel>, key: Seq<char>, from: int) -> Option<
    Seq<char>,
>
    decreases attrs.len() - from,
{
    if from < 0 || from >= attrs.len() {
        None
    } else if attrs[from].name == key {
        Some(attrs[from].value)
    } else {
        find_attribute(attrs, key, from + 1)
    }
}

/// The value of the first attribute named `key`, or the empty string.
pub open spec fn attribute_or_empty(attrs: Seq<AttributeModel>, key: Seq<char>) -> Seq<char> {
    match find_attribute(attrs, key, 0) {
        Some(v) => v,
        None => Seq::empty(),
    }
}

/// A property: its start tag, and nothing more. A missing `name` or `value`
/// reads as the empty string.
pub open spec fn property_at(events: Seq<EventModel>, pos: int) -> Result<
    (PropertyModel, int),
    ErrorModel,
> {
    match look(events, pos) {
        None => Err(ErrorModel::UnexpectedEndOfStream),
        Some(EventModel::StartElement { name, attributes }) => if name == property_tag() {
            Ok(
                (
                    PropertyModel {
                        name: attribute_or_empty(attributes, name_key()),
                        value: attribute_or_empty(attributes, value_key()),
                    },
                    pos + 1,
                ),
            )
        } else {
            Err(ErrorModel::UnexpectedEvent)
        },
        Some(_) => Err(ErrorModel::UnexpectedEvent),
    }
}

/// Puts `first` in front of what was recognized behind it.
pub open spec fn prepend<T>(first: Seq<T>, rest: Result<(Seq<T>, int), ErrorModel>) -> Result<
    (Seq<T>, int),
    ErrorModel,
> {
    match rest {
        Ok((items, next)) => Ok((first + items, next)),
        Err(e) => Err(e),
    }
}

/// The body of a log: properties up to and including the close tag of `log`.
/// Behind each property one more event, the end of that element, is passed
/// over unread.
pub open spec fn log_body(events: Seq<EventModel>, pos: int) -> Result<
    (Seq<PropertyModel>, int),
    ErrorModel,
>
    decreases events.len() - pos,
{
    match look(events, pos) {
        None => Err(ErrorModel::UnbalancedElement(log_tag())),
        Some(EventModel::EndDocument) => Err(ErrorModel::UnbalancedElement(log_tag())),
        Some(EventModel::EndElement { name }) => if name == log_tag() {
            Ok((Seq::empty(), pos + 1))
        } else {
            Err(ErrorModel::UnbalancedElement(log_tag()))
        },
        Some(EventModel::StartElement { name, attributes }) => if name == property_tag() {
            match property_at(events, pos) {
                Ok((p, next)) => prepend(seq![p], log_body(events, advance(events, next))),
                Err(e) => Err(e),
            }
        } else {
            Err(ErrorModel::UnsupportedMediator(name))
        },
        Some(_) => Err(ErrorModel::UnexpectedEvent),
    }
}

/// A log: its start tag, which must carry `level`, and its body. A close tag
/// of `log` in its place carries no level.
pub open spec fn log_at(events: Seq<EventModel>, pos: int) -> Result<(LogModel, int), ErrorModel> {
    match look(events, pos) {
        None => Err(ErrorModel::UnexpectedEndOfStream),
        Some(EventModel::StartElement { name, attributes }) => if name == log_tag() {
            match find_attribute(attributes, level_key(), 0) {
                None => Err(ErrorModel::MalformedLog),
                Some(level) => match log_body(events, pos + 1) {
                    Ok((properties, next)) => Ok((LogModel { level, properties }, next)),
                    Err(e) => Err(e),
                },
            }
        } else {
            Err(ErrorModel::UnexpectedEvent)
        },
        Some(EventModel::EndElement { name }) => if name == log_tag() {
            Err(ErrorModel::MalformedLog)
        } else {
            Err(ErrorModel::UnexpectedEvent)
        },
        Some(_) => Err(ErrorModel::UnexpectedEvent),
    }
}

/// What a tag named `name` at `pos` is recognized as.
pub open spec fn dispatch(events: Seq<EventModel>, pos: int, name: Seq<char>) -> Result<
    (MediatorModel, int),
    ErrorModel,
> {
    if name == log_tag() {
        match log_at(events, pos) {
            Ok((l, next)) => Ok((MediatorModel::Log(l), next)),
            Err(e) => Err(e),
        }
    } else if name == property_tag() {
        match property_at(events, pos) {
            Ok((p, next)) => Ok((MediatorModel::Property(p), next)),
            Err(e) => Err(e),
        }
    } else {
        Err(ErrorModel::UnsupportedMediator(name))
    }
}

/// A mediator, chosen by the local name of the tag at `pos`.
pub open spec fn mediator_at(events: Seq<EventModel>, pos: int) -> Result<
    (MediatorModel, int),
    ErrorModel,
> {
    match look(events, pos) {
        None => Err(ErrorModel::UnexpectedEndOfStream),
        Some(EventModel::StartElement { name, attributes }) => dispatch(events, pos, name),
        Some(EventModel::EndElement { name }) => dispatch(events, pos, name),
        Some(_) => Err(ErrorModel::UnexpectedEvent),
    }
}

/// The body of a sequence: mediators up to and including the close tag of
/// `inSequence`.
pub open spec fn sequence_body(events: Seq<EventModel>, pos: int) -> Result<
    (Seq<MediatorModel>, int),
    ErrorModel,
>
    decreases events.len() - pos,
    via sequence_body_decreases
{
    match look(events, pos) {
        None => Err(ErrorModel::UnbalancedElement(in_sequence_tag())),
        Some(EventModel::EndDocument) => Err(ErrorModel::UnbalancedElement(in_sequence_tag())),
        Some(EventModel::EndElement { name }) => if name == in_sequence_tag() {
            Ok((Seq::empty(), pos + 1))
        } else {
            Err(ErrorModel::UnbalancedElement(in_sequence_tag()))
        },
        Some(_) => match mediator_at(events, pos) {
            Ok((m, next)) => prepend(seq![m], sequence_body(events, next)),
            Err(e) => Err(e),
        },
    }
}

#[via_fn]
proof fn sequence_body_decreases(events: Seq<EventModel>, pos: int) {
    if 0 <= pos {
        lemma_mediator_progress(events, pos);
    }
}

/// An `inSequence` block: its start tag and its body.
pub open spec fn in_sequence_at(events: Seq<EventModel>, pos: int) -> Result<
    (Seq<MediatorModel>, int),
    ErrorModel,
> {
    match look(events, pos) {
        None => Err(ErrorModel::UnexpectedEndOfStream),
        Some(EventModel::StartElement { name, attributes }) => if name == in_sequence_tag() {
            sequence_body(events, pos + 1)
        } else {
            Err(ErrorModel::UnexpectedEvent)
        },
        Some(_) => Err(ErrorModel::UnexpectedEvent),
    }
}

/// A top-level node: an `inSequence` block, or a bare `log` or `property`.
pub open spec fn node_at(events: Seq<EventModel>, pos: int) -> Result<(NodeModel, int), ErrorModel> {
    match look(events, pos) {
        None => Err(ErrorModel::UnexpectedEndOfStream),
        Some(EventModel::StartElement { name, attributes }) => if name == in_sequence_tag() {
            match in_sequence_at(events, pos) {
                Ok((ms, next)) => Ok((NodeModel::InSequence(ms), next)),
                Err(e) => Err(e),
            }
        } else if name == log_tag() || name == property_tag() {
            match mediator_at(events, pos) {
                Ok((m, next)) => Ok((NodeModel::Mediator(m), next)),
                Err(e) => Err(e),
            }
        } else {
            Err(ErrorModel::UnexpectedEvent)
        },
        Some(_) => Err(ErrorModel::UnexpectedEvent),
    }
}

/// Top-level nodes up to and including the end of the document.
pub open spec fn nodes_from(events: Seq<EventModel>, pos: int) -> Result<
    (Seq<NodeModel>, int),
    ErrorModel,
>
    decreases events.len() - pos,
    via nodes_from_decreases
{
    match look(events, pos) {
        None => Err(ErrorModel::UnexpectedEndOfStream),
        Some(EventModel::EndDocument) => Ok((Seq::empty(), pos + 1)),
        Some(_) => match node_at(events, pos) {
            Ok((n, next)) => prepend(seq![n], nodes_from(events, next)),
            Err(e) => Err(e),
        },
    }
}

#[via_fn]
proof fn nodes_from_decreases(events: Seq<EventModel>, pos: int) {
    if 0 <= pos {
        lemma_node_progress(events, pos);
    }
}

/// Where the content starts: behind a plain document start, if one is at `pos`.
pub open spec fn content_start(events: Seq<EventModel>, pos: int) -> int {
    if look(events, pos) == Some(plain_document_start()) {
        pos + 1
    } else {
        pos
    }
}

/// A whole program read from `pos` on: an optional plain document start, then
/// top-level nodes through the end of the document.
pub open spec fn program_at(events: Seq<EventModel>, pos: int) -> Result<
    (Seq<NodeModel>, int),
    ErrorModel,
> {
    nodes_from(events, content_start(events, pos))
}

/// The program that a whole event sequence denotes, or its first failure.
pub open spec fn program_of(events: Seq<EventModel>) -> Result<Seq<NodeModel>, ErrorModel> {
    match program_at(events, 0) {
        Ok((nodes, next)) => Ok(nodes),
        Err(e) => Err(e),
    }
}

/// A recognized log body ends behind its start and inside the stream.
pub proof fn lemma_log_body_progress(events: Seq<EventModel>, pos: int)
    requires
        0 <= pos,
    ensures
        log_body(events, pos) matches Ok((ps, next)) ==> pos < next <= events.len(),
    decreases events.len() - pos,
{
    if pos < events.len() {
        lemma_log_body_progress(events, advance(events, pos + 1));
    }
}

/// A recognized mediator ends behind its start and inside the stream.
pub proof fn lemma_mediator_progress(events: Seq<EventModel>, pos: int)
    requires
        0 <= pos,
    ensures
        mediator_at(events, pos) matches Ok((m, next)) ==> pos < next <= events.len(),
{
    lemma_log_body_progress(events, pos + 1);
}

/// A recognized sequence body ends behind its start and inside the stream.
pub proof fn lemma_sequence_body_progress(events: Seq<EventModel>, pos: int)
    requires
        0 <= pos,
    ensures
        sequence_body(events, pos) matches Ok((ms, next)) ==> pos < next <= events.len(),
    decreases events.len() - pos,
{
    lemma_mediator_progress(events, pos);
    if let Ok((m, next)) = mediator_at(events, pos) {
        lemma_sequence_body_progress(events, next);
    }
}

/// A recognized node ends behind its start and inside the stream.
pub proof fn lemma_node_progress(events: Seq<EventModel>, pos: int)
    requires
        0 <= pos,
    ensures
        node_at(events, pos) matches Ok((n, next)) ==> pos < next <= events.len(),
{
    lemma_mediator_progress(events, pos);
    lemma_sequence_body_progress(events, pos + 1);
}

/// Recognized nodes end right behind an end of the document.
pub proof fn lemma_nodes_end_at_document_end(events: Seq<EventModel>, pos: int)
    requires
        0 <= pos,
    ensures
        nodes_from(events, pos) matches Ok((ns, next)) ==> pos < next <= events.len() && events[next
            - 1] is EndDocument,
    decreases events.len() - pos,
{
    lemma_node_progress(events, pos);
    if let Ok((n, next)) = node_at(events, pos) {
        lemma_nodes_end_at_document_end(events, next);
    }
}

/// A recognized program has consumed the events through the end of the
/// document: the cursor stands right behind it.
pub proof fn lemma_program_ends_at_document_end(events: Seq<EventModel>, pos: int)
    requires
        0 <= pos,
    ensures
        program_at(events, pos) matches Ok((ns, next)) ==> pos < next <= events.len() && events[next
            - 1] is EndDocument,
{
    lemma_nodes_end_at_document_end(events, content_start(events, pos));
}

} // verus!
