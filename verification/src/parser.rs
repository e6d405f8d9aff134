//! The recognizer: a cursor with one event of lookahead over a tokenized
//! document.

use vstd::prelude::*;
use crate::ast::{
    mediators_view, nodes_view, properties_view, AstNode, InSequence, LogMediator, MediatorModel,
    Mediators, NodeModel, Program, PropertyMediator, PropertyModel, Sequences,
};
use crate::event::{
    attributes_view, events_view, read_events, tokenized, Attribute, Event, EventModel, Version,
};
use crate::grammar::{
    attribute_or_empty, find_attribute, in_sequence_at, lemma_mediator_progress,
    lemma_node_progress, lemma_program_ends_at_document_end, log_at, log_body, mediator_at, node_at, nodes_from,
    plain_document_start, prepend, program_at, program_of, property_at, sequence_body,
    ErrorModel,
};

verus! {

/// Why a document was not recognized: the first place where it leaves the
/// grammar.
#[derive(Debug, Clone, PartialEq, Eq)]
pub enum ParseError {
    /// An element stands where a mediator is expected, and is none.
    UnsupportedMediator(String),
    /// A `log` without its `level`.
    MalformedLog,
    /// The named element was not closed by its own close tag.
    UnbalancedElement(String),
    /// The lookahead is of a kind that cannot stand here.
    UnexpectedEvent,
    /// The events ran out before the end of the document.
    UnexpectedEndOfStream,
}

impl View for ParseError {
    type V = ErrorModel;

    open spec fn view(&self) -> ErrorModel {
        match self {
            ParseError::UnsupportedMediator(name) => ErrorModel::UnsupportedMediator(name@),
            ParseError::MalformedLog => ErrorModel::MalformedLog,
            ParseError::UnbalancedElement(name) => ErrorModel::UnbalancedElement(name@),
            ParseError::UnexpectedEvent => ErrorModel::UnexpectedEvent,
            ParseError::UnexpectedEndOfStream => ErrorModel::UnexpectedEndOfStream,
        }
    }
}

/// Whether `result`, with the cursor left at `cursor`, is what the grammar
/// gives: the same value and position, or the same failure.
pub open spec fn agrees<T: View>(
    result: Result<T, ParseError>,
    cursor: int,
    expected: Result<(T::V, int), ErrorModel>,
) -> bool {
    match expected {
        Ok((value, next)) => result matches Ok(v) && v@ == value && cursor == next,
        Err(e) => result matches Err(f) && f@ == e,
    }
}

/// Whether `result` is what the grammar gives, whatever the cursor.
pub open spec fn agrees_whole<T: View>(
    result: Result<T, ParseError>,
    expected: Result<T::V, ErrorModel>,
) -> bool {
    match expected {
        Ok(value) => result matches Ok(v) && v@ == value,
        Err(e) => result matches Err(f) && f@ == e,
    }
}

fn is_word(s: &String, word: &str) -> (b: bool)
    ensures
        b == (s@ == word@),
{
    let w = String::from_str(word);
    *s == w
}

/// The value of the first attribute named `key`.
fn find_value(attrs: &Vec<Attribute>, key: &str) -> (found: Option<String>)
    ensures
        match find_attribute(attributes_view(attrs@), key@, 0) {
            Some(v) => found matches Some(s) && s@ == v,
            None => found is None,
        },
{
    let mut i: usize = 0;
    while i < attrs.len()
        invariant
            i <= attrs.len(),
            find_attribute(attributes_view(attrs@), key@, 0) == find_attribute(
                attributes_view(attrs@),
                key@,
                i as int,
            ),
        decreases attrs.len() - i,
    {
        if is_word(&attrs[i].name, key) {
            return Some(attrs[i].value.clone());
        }
        i = i + 1;
    }
    None
}

/// The value of the first attribute named `key`, or the empty string.
fn value_or_empty(attrs: &Vec<Attribute>, key: &str) -> (value: String)
    ensures
        value@ == attribute_or_empty(attributes_view(attrs@), key@),
{
    match find_value(attrs, key) {
        Some(v) => v,
        None => String::new(),
    }
}

/// Whether `event` is the document start that is passed over.
fn is_plain_document_start(event: &Event) -> (b: bool)
    ensures
        b == (event@ == plain_document_start()),
{
    match event {
        Event::StartDocument { version, encoding, standalone } => {
            let v10 = match version {
                Version::V10 => true,
                Version::V11 => false,
            };
            v10 && is_word(encoding, "UTF-8") && standalone.is_none()
        },
        _ => false,
    }
}

/// A cursor over the events of one document.
pub struct Parser {
    events: Vec<Event>,
    pos: usize,
}

impl Parser {
    /// The events of the document.
    pub closed spec fn stream(&self) -> Seq<EventModel> {
        events_view(self.events@)
    }

    /// The position of the lookahead.
    pub closed spec fn cursor(&self) -> int {
        self.pos as int
    }

    /// Tokenizes `input` and looks at its first event.
    pub fn new(input: &[u8]) -> (parser: Parser)
        ensures
            parser.stream() == tokenized(input@),
            parser.cursor() == 0,
    {
        Parser { events: read_events(input), pos: 0 }
    }

    /// Looks at the first of `events`.
    pub fn from_events(events: Vec<Event>) -> (parser: Parser)
        ensures
            parser.stream() == events_view(events@),
            parser.cursor() == 0,
    {
        Parser { events, pos: 0 }
    }

    /// Recognizes a whole program from the lookahead on: an optional plain
    /// document start, then top-level nodes in document order. On success the
    /// cursor stands right behind the end of the document.
    #[verifier::loop_isolation(false)]
    pub fn parse_progarm(&mut self) -> (result: Result<Program, ParseError>)
        ensures
            final(self).stream() == old(self).stream(),
            agrees(result, final(self).cursor(), program_at(old(self).stream(), old(self).cursor())),
            result is Ok ==> old(self).cursor() < final(self).cursor() <= old(self).stream().len()
                && old(self).stream()[final(self).cursor() - 1] is EndDocument,
    {
        proof {
            lemma_program_ends_at_document_end(self.stream(), self.cursor());
        }
        if self.pos < self.events.len() && is_plain_document_start(&self.events[self.pos]) {
            self.pos = self.pos + 1;
        }
        let ghost stream = self.stream();
        let ghost start = self.cursor();
        let mut ast_nodes: Vec<AstNode> = Vec::new();
        assert(nodes_view(ast_nodes@) + Seq::<NodeModel>::empty() =~= Seq::<NodeModel>::empty());
        loop
            invariant
                self.stream() == stream,
                0 <= start,
                nodes_from(stream, start) == prepend(
                    nodes_view(ast_nodes@),
                    nodes_from(stream, self.cursor()),
                ),
            decreases stream.len() - self.cursor(),
        {
            if self.pos >= self.events.len() {
                return Err(ParseError::UnexpectedEndOfStream);
            }
            let at_end = match &self.events[self.pos] {
                Event::EndDocument => true,
                _ => false,
            };
            if at_end {
                self.pos = self.pos + 1;
                assert(nodes_view(ast_nodes@) + Seq::<NodeModel>::empty() =~= nodes_view(
                    ast_nodes@,
                ));
                return Ok(Program { ast_nodes });
            }
            let ghost before = self.cursor();
            proof {
                lemma_node_progress(stream, before);
            }
            match self.parse_node() {
                Ok(node) => {
                    let ghost sofar = nodes_view(ast_nodes@);
                    ast_nodes.push(node);
                    proof {
                        assert(nodes_view(ast_nodes@) =~= sofar.push(node@));
                        let rest = nodes_from(stream, self.cursor());
                        if let Ok((items, next)) = rest {
                            assert(sofar + (seq![node@] + items) =~= sofar.push(node@) + items);
                        }
                    }
                },
                Err(e) => {
                    return Err(e);
                },
            }
        }
    }

    /// Recognizes one top-level node at the lookahead.
    pub fn parse_node(&mut self) -> (result: Result<AstNode, ParseError>)
        ensures
            final(self).stream() == old(self).stream(),
            agrees(result, final(self).cursor(), node_at(old(self).stream(), old(self).cursor())),
    {
        if self.pos >= self.events.len() {
            return Err(ParseError::UnexpectedEndOfStream);
        }
        match &self.events[self.pos] {
            Event::StartElement { name, attributes } => {
                if is_word(name, "inSequence") {
                    match self.parse_in_sequence() {
                        Ok(seq) => Ok(AstNode::Sequence(Sequences::InSequence(seq))),
                        Err(e) => Err(e),
                    }
                } else if is_word(name, "log") || is_word(name, "property") {
                    match self.parse_mediator() {
                        Ok(m) => Ok(AstNode::Mediator(m)),
                        Err(e) => Err(e),
                    }
                } else {
                    Err(ParseError::UnexpectedEvent)
                }
            },
            _ => Err(ParseError::UnexpectedEvent),
        }
    }

    /// Recognizes an `inSequence` block whose start tag is the lookahead: its
    /// mediators in order, through its own close tag.
    #[verifier::loop_isolation(false)]
    pub fn parse_in_sequence(&mut self) -> (result: Result<InSequence, ParseError>)
        ensures
            final(self).stream() == old(self).stream(),
            agrees(
                result,
                final(self).cursor(),
                in_sequence_at(old(self).stream(), old(self).cursor()),
            ),
    {
        if self.pos >= self.events.len() {
            return Err(ParseError::UnexpectedEndOfStream);
        }
        let opens = match &self.events[self.pos] {
            Event::StartElement { name, attributes } => is_word(name, "inSequence"),
            _ => false,
        };
        if !opens {
            return Err(ParseError::UnexpectedEvent);
        }
        self.pos = self.pos + 1;
        let ghost stream = self.stream();
        let ghost start = self.cursor();
        let mut mediators: Vec<Mediators> = Vec::new();
        assert(mediators_view(mediators@) + Seq::<MediatorModel>::empty() =~= Seq::<
            MediatorModel,
        >::empty());
        loop
            invariant
                self.stream() == stream,
                0 <= start,
                sequence_body(stream, start) == prepend(
                    mediators_view(mediators@),
                    sequence_body(stream, self.cursor()),
                ),
            decreases stream.len() - self.cursor(),
        {
            if self.pos >= self.events.len() {
                return Err(ParseError::UnbalancedElement(String::from_str("inSequence")));
            }
            let (closed, stray) = match &self.events[self.pos] {
                Event::EndDocument => (false, true),
                Event::EndElement { name } => {
                    let own = is_word(name, "inSequence");
                    (own, !own)
                },
                _ => (false, false),
            };
            if stray {
                return Err(ParseError::UnbalancedElement(String::from_str("inSequence")));
            }
            if closed {
                self.pos = self.pos + 1;
                assert(mediators_view(mediators@) + Seq::<MediatorModel>::empty()
                    =~= mediators_view(mediators@));
                return Ok(InSequence { mediators });
            }
            let ghost before = self.cursor();
            proof {
                lemma_mediator_progress(stream, before);
            }
            match self.parse_mediator() {
                Ok(m) => {
                    let ghost sofar = mediators_view(mediators@);
                    mediators.push(m);
                    proof {
                        assert(mediators_view(mediators@) =~= sofar.push(m@));
                        let rest = sequence_body(stream, self.cursor());
                        if let Ok((items, next)) = rest {
                            assert(sofar + (seq![m@] + items) =~= sofar.push(m@) + items);
                        }
                    }
                },
                Err(e) => {
                    return Err(e);
                },
            }
        }
    }

    /// Recognizes the mediator that the tag at the lookahead names.
    pub fn parse_mediator(&mut self) -> (result: Result<Mediators, ParseError>)
        ensures
            final(self).stream() == old(self).stream(),
            agrees(
                result,
                final(self).cursor(),
                mediator_at(old(self).stream(), old(self).cursor()),
            ),
    {
        if self.pos >= self.events.len() {
            return Err(ParseError::UnexpectedEndOfStream);
        }
        let (is_log, is_property, other) = match &self.events[self.pos] {
            Event::StartElement { name, attributes } => {
                let l = is_word(name, "log");
                let p = is_word(name, "property");
                (l, p, if l || p { None } else { Some(name.clone()) })
            },
            Event::EndElement { name } => {
                let l = is_word(name, "log");
                let p = is_word(name, "property");
                (l, p, if l || p { None } else { Some(name.clone()) })
            },
            _ => {
                return Err(ParseError::UnexpectedEvent);
            },
        };
        if is_log {
            match self.parse_log_mediator() {
                Ok(l) => Ok(Mediators::Log(l)),
                Err(e) => Err(e),
            }
        } else if is_property {
            match self.parse_property() {
                Ok(p) => Ok(Mediators::Property(p)),
                Err(e) => Err(e),
            }
        } else {
            match other {
                Some(name) => Err(ParseError::UnsupportedMediator(name)),
                None => Err(ParseError::UnexpectedEvent),
            }
        }
    }

    /// Recognizes a log whose start tag is the lookahead.
    #[verifier::loop_isolation(false)]
    pub fn parse_log_mediator(&mut self) -> (result: Result<LogMediator, ParseError>)
        ensures
            final(self).stream() == old(self).stream(),
            agrees(result, final(self).cursor(), log_at(old(self).stream(), old(self).cursor())),
    {
        if self.pos >= self.events.len() {
            return Err(ParseError::UnexpectedEndOfStream);
        }
        let found = match &self.events[self.pos] {
            Event::StartElement { name, attributes } => {
                if is_word(name, "log") {
                    find_value(attributes, "level")
                } else {
                    return Err(ParseError::UnexpectedEvent);
                }
            },
            Event::EndElement { name } => {
                if is_word(name, "log") {
                    None
                } else {
                    return Err(ParseError::UnexpectedEvent);
                }
            },
            _ => {
                return Err(ParseError::UnexpectedEvent);
            },
        };
        let level = match found {
            Some(level) => level,
            None => {
                return Err(ParseError::MalformedLog);
            },
        };
        self.pos = self.pos + 1;
        let ghost stream = self.stream();
        let ghost start = self.cursor();
        let mut properties: Vec<PropertyMediator> = Vec::new();
        assert(properties_view(properties@) + Seq::<PropertyModel>::empty() =~= Seq::<
            PropertyModel,
        >::empty());
        loop
            invariant
                self.stream() == stream,
                0 <= start,
                log_body(stream, start) == prepend(
                    properties_view(properties@),
                    log_body(stream, self.cursor()),
                ),
            decreases stream.len() - self.cursor(),
        {
            if self.pos >= self.events.len() {
                return Err(ParseError::UnbalancedElement(String::from_str("log")));
            }
            let (closed, stray, starts, unsupported) = match &self.events[self.pos] {
                Event::EndDocument => (false, true, false, None),
                Event::EndElement { name } => {
                    let own = is_word(name, "log");
                    (own, !own, false, None)
                },
                Event::StartElement { name, attributes } => {
                    let p = is_word(name, "property");
                    (false, false, true, if p { None } else { Some(name.clone()) })
                },
                _ => (false, false, false, None),
            };
            if stray {
                return Err(ParseError::UnbalancedElement(String::from_str("log")));
            }
            if closed {
                self.pos = self.pos + 1;
                assert(properties_view(properties@) + Seq::<PropertyModel>::empty()
                    =~= properties_view(properties@));
                return Ok(LogMediator { level, properties });
            }
            if !starts {
                return Err(ParseError::UnexpectedEvent);
            }
            if let Some(name) = unsupported {
                return Err(ParseError::UnsupportedMediator(name));
            }
            match self.parse_property() {
                Ok(p) => {
                    let ghost sofar = properties_view(properties@);
                    properties.push(p);
                    if self.pos < self.events.len() {
                        self.pos = self.pos + 1;
                    }
                    proof {
                        assert(properties_view(properties@) =~= sofar.push(p@));
                        let rest = log_body(stream, self.cursor());
                        if let Ok((items, next)) = rest {
                            assert(sofar + (seq![p@] + items) =~= sofar.push(p@) + items);
                        }
                    }
                },
                Err(e) => {
                    return Err(e);
                },
            }
        }
    }

    /// Recognizes a property whose start tag is the lookahead, and moves
    /// behind that one event.
    pub fn parse_property(&mut self) -> (result: Result<PropertyMediator, ParseError>)
        ensures
            final(self).stream() == old(self).stream(),
            agrees(
                result,
                final(self).cursor(),
                property_at(old(self).stream(), old(self).cursor()),
            ),
    {
        if self.pos >= self.events.len() {
            return Err(ParseError::UnexpectedEndOfStream);
        }
        let parsed = match &self.events[self.pos] {
            Event::StartElement { name, attributes } => {
                if is_word(name, "property") {
                    let name = value_or_empty(attributes, "name");
                    let value = value_or_empty(attributes, "value");
                    Ok(PropertyMediator { name, value })
                } else {
                    Err(ParseError::UnexpectedEvent)
                }
            },
            _ => Err(ParseError::UnexpectedEvent),
        };
        if parsed.is_ok() {
            self.pos = self.pos + 1;
        }
        parsed
    }
}

/// Recognizes the program that `events` denote.
pub fn parse_events(events: Vec<Event>) -> (result: Result<Program, ParseError>)
    ensures
        agrees_whole(result, program_of(events_view(events@))),
{
    let mut parser = Parser::from_events(events);
    parser.parse_progarm()
}

/// Tokenizes `input` and recognizes the program in it.
pub fn parse(input: &[u8]) -> (result: Result<Program, ParseError>)
    ensures
        agrees_whole(result, program_of(tokenized(input@))),
{
    let mut parser = Parser::new(input);
    parser.parse_progarm()
}

} // verus!
