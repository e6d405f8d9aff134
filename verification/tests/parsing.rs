use mediation::ast::{AstNode, InSequence, LogMediator, Mediators, Program, PropertyMediator, Sequences};
use mediation::event::{Attribute, Event, Version};
use mediation::parser::{parse, parse_events, ParseError, Parser};

fn attr(name: &str, value: &str) -> Attribute {
    Attribute { name: name.to_string(), value: value.to_string() }
}

fn start(name: &str, attributes: Vec<Attribute>) -> Event {
    Event::StartElement { name: name.to_string(), attributes }
}

fn end(name: &str) -> Event {
    Event::EndElement { name: name.to_string() }
}

fn doc_start() -> Event {
    Event::StartDocument { version: Version::V10, encoding: "UTF-8".to_string(), standalone: None }
}

fn prop(name: &str, value: &str) -> PropertyMediator {
    PropertyMediator { name: name.to_string(), value: value.to_string() }
}

fn log(level: &str, properties: Vec<PropertyMediator>) -> LogMediator {
    LogMediator { level: level.to_string(), properties }
}

fn sequence(mediators: Vec<Mediators>) -> AstNode {
    AstNode::Sequence(Sequences::InSequence(InSequence { mediators }))
}

#[test]
fn test_in_sequence() {
    let input = r#"
        <inSequence>
            <log level="custom">
                <property name="/validate" value="inSequence" />
            </log>
            <log level="full" />
      </inSequence>
        "#;

    let mut parser = Parser::new(input.as_bytes());
    let program = parser.parse_progarm();

    println!("{:?}", program);

    assert!(program.is_ok());

    let program = program.unwrap();

    println!("{:?}", program);

    assert_eq!(program.ast_nodes.len(), 1);
}

#[test]
fn test_log_mediator() {
    let input = r#"
        <inSequence>
            <log level="custom">
                <property name="/validate" value="inSequence" />
            </log>
            <log level="full" />
            <log level="debug">
                <property name="/validate" value="foobar" />
            </log>
        </inSequence>
        "#;

    let mut parser = Parser::new(input.as_bytes());
    let program = parser.parse_progarm();

    println!("{:?}", program);

    assert!(program.is_ok());

    let program = program.unwrap();

    println!("{:?}", program);

    assert_eq!(program.ast_nodes.len(), 1);

    for ast_node in program.ast_nodes {
        match ast_node {
            AstNode::Sequence(Sequences::InSequence(in_sequence)) => {
                assert_eq!(in_sequence.mediators.len(), 3);
                match &in_sequence.mediators[0] {
                    Mediators::Log(log_mediator) => {
                        assert_eq!(log_mediator.level, "custom");
                        assert_eq!(log_mediator.properties.len(), 1);
                        assert_eq!(log_mediator.properties[0].name, "/validate");
                        assert_eq!(log_mediator.properties[0].value, "inSequence");
                    }
                    _ => {
                        panic!("not a log mediator");
                    }
                }
                match &in_sequence.mediators[1] {
                    Mediators::Log(log_mediator) => {
                        assert_eq!(log_mediator.level, "full");
                        assert_eq!(log_mediator.properties.len(), 0);
                    }
                    _ => {
                        panic!("not a log mediator");
                    }
                }
                match &in_sequence.mediators[2] {
                    Mediators::Log(log_mediator) => {
                        assert_eq!(log_mediator.level, "debug");
                        assert_eq!(log_mediator.properties.len(), 1);
                        assert_eq!(log_mediator.properties[0].name, "/validate");
                        assert_eq!(log_mediator.properties[0].value, "foobar");
                    }
                    _ => {
                        panic!("not a log mediator");
                    }
                }
            }
            _ => {
                panic!("not a in sequence");
            }
        }
    }
}

#[test]
fn order_of_logs_is_kept() {
    let program = parse(br#"<inSequence><log level="a"/><log level="b"/></inSequence>"#).unwrap();
    assert_eq!(
        program,
        Program {
            ast_nodes: vec![sequence(vec![
                Mediators::Log(log("a", vec![])),
                Mediators::Log(log("b", vec![])),
            ])],
        }
    );
}

#[test]
fn nested_property_is_read() {
    let program =
        parse(br#"<log level="custom"><property name="/validate" value="inSequence"/></log>"#)
            .unwrap();
    assert_eq!(
        program.ast_nodes,
        vec![AstNode::Mediator(Mediators::Log(log(
            "custom",
            vec![prop("/validate", "inSequence")]
        )))]
    );
}

#[test]
fn empty_log_has_no_properties() {
    let program = parse(br#"<log level="full"/>"#).unwrap();
    assert_eq!(program.ast_nodes, vec![AstNode::Mediator(Mediators::Log(log("full", vec![])))]);
}

#[test]
fn empty_sequence_is_valid() {
    let program = parse(b"<inSequence></inSequence>").unwrap();
    assert_eq!(program.ast_nodes, vec![sequence(vec![])]);
}

#[test]
fn unsupported_element_is_named() {
    let result = parse(br#"<inSequence><class name="x"/></inSequence>"#);
    assert_eq!(result, Err(ParseError::UnsupportedMediator("class".to_string())));
}

#[test]
fn unsupported_element_inside_log_is_named() {
    let result = parse(br#"<inSequence><log level="x"><log level="y"/></log></inSequence>"#);
    assert_eq!(result, Err(ParseError::UnsupportedMediator("log".to_string())));
}

#[test]
fn mismatched_close_tag_in_text() {
    let result = parse(br#"<inSequence><log level="x"></inSequence>"#);
    assert_eq!(result, Err(ParseError::UnbalancedElement("log".to_string())));
}

#[test]
fn mismatched_close_tag_in_events() {
    let events = vec![
        doc_start(),
        start("inSequence", vec![]),
        start("log", vec![attr("level", "x")]),
        end("inSequence"),
        Event::EndDocument,
    ];
    assert_eq!(parse_events(events), Err(ParseError::UnbalancedElement("log".to_string())));
}

#[test]
fn sequence_closed_by_another_tag() {
    let events = vec![start("inSequence", vec![]), end("log"), Event::EndDocument];
    assert_eq!(
        parse_events(events),
        Err(ParseError::UnbalancedElement("inSequence".to_string()))
    );
}

#[test]
fn sequence_left_open_at_the_end() {
    let events = vec![start("inSequence", vec![]), Event::EndDocument];
    assert_eq!(
        parse_events(events),
        Err(ParseError::UnbalancedElement("inSequence".to_string()))
    );
    let events = vec![start("inSequence", vec![])];
    assert_eq!(
        parse_events(events),
        Err(ParseError::UnbalancedElement("inSequence".to_string()))
    );
}

#[test]
fn log_without_level_is_malformed() {
    let result = parse(br#"<inSequence><log category="x"/></inSequence>"#);
    assert_eq!(result, Err(ParseError::MalformedLog));
}

#[test]
fn unknown_top_level_element_is_unexpected() {
    assert_eq!(parse(b"<api/>"), Err(ParseError::UnexpectedEvent));
    let events = vec![end("inSequence"), Event::EndDocument];
    assert_eq!(parse_events(events), Err(ParseError::UnexpectedEvent));
}

#[test]
fn text_inside_log_is_unexpected() {
    let result = parse(br#"<log level="x">hello</log>"#);
    assert_eq!(result, Err(ParseError::UnexpectedEvent));
}

#[test]
fn events_that_run_out() {
    assert_eq!(parse_events(vec![]), Err(ParseError::UnexpectedEndOfStream));
    let events = vec![doc_start(), start("inSequence", vec![]), end("inSequence")];
    assert_eq!(parse_events(events), Err(ParseError::UnexpectedEndOfStream));
    assert_eq!(parse(b""), Err(ParseError::UnexpectedEndOfStream));
}

#[test]
fn three_top_level_logs_in_events() {
    let events = vec![
        doc_start(),
        start("log", vec![attr("level", "a")]),
        start("property", vec![attr("name", "n"), attr("value", "v")]),
        end("property"),
        end("log"),
        start("log", vec![attr("level", "b")]),
        end("log"),
        start("log", vec![attr("level", "c")]),
        end("log"),
        Event::EndDocument,
    ];
    let program = parse_events(events).unwrap();
    assert_eq!(
        program.into_nodes(),
        vec![
            AstNode::Mediator(Mediators::Log(log("a", vec![prop("n", "v")]))),
            AstNode::Mediator(Mediators::Log(log("b", vec![]))),
            AstNode::Mediator(Mediators::Log(log("c", vec![]))),
        ]
    );
}

#[test]
fn three_top_level_logs_in_text() {
    let program = parse(br#"<log level="a"/><log level="b"/><log level="c"/>"#).unwrap();
    assert_eq!(
        program.ast_nodes,
        vec![
            AstNode::Mediator(Mediators::Log(log("a", vec![]))),
            AstNode::Mediator(Mediators::Log(log("b", vec![]))),
            AstNode::Mediator(Mediators::Log(log("c", vec![]))),
        ]
    );
}

#[test]
fn missing_property_attributes_read_as_empty() {
    let program = parse(br#"<log level="x"><property name="only"/><property/></log>"#).unwrap();
    assert_eq!(
        program.ast_nodes,
        vec![AstNode::Mediator(Mediators::Log(log("x", vec![prop("only", ""), prop("", "")])))]
    );
}

#[test]
fn first_attribute_of_a_name_wins() {
    let events = vec![
        start("log", vec![attr("other", "o"), attr("level", "first"), attr("level", "second")]),
        end("log"),
        Event::EndDocument,
    ];
    let program = parse_events(events).unwrap();
    assert_eq!(program.ast_nodes, vec![AstNode::Mediator(Mediators::Log(log("first", vec![])))]);
}

#[test]
fn property_takes_one_event_outside_a_log() {
    let events = vec![
        start("inSequence", vec![]),
        start("property", vec![attr("value", "v"), attr("name", "n")]),
        end("inSequence"),
        Event::EndDocument,
    ];
    let program = parse_events(events).unwrap();
    assert_eq!(program.ast_nodes, vec![sequence(vec![Mediators::Property(prop("n", "v"))])]);

    let events = vec![
        start("inSequence", vec![]),
        start("property", vec![]),
        end("property"),
        end("inSequence"),
        Event::EndDocument,
    ];
    assert_eq!(
        parse_events(events),
        Err(ParseError::UnbalancedElement("inSequence".to_string()))
    );
}

#[test]
fn other_document_start_is_not_passed_over() {
    let events = vec![
        Event::StartDocument {
            version: Version::V11,
            encoding: "UTF-8".to_string(),
            standalone: None,
        },
        Event::EndDocument,
    ];
    assert_eq!(parse_events(events), Err(ParseError::UnexpectedEvent));
    let program = parse_events(vec![doc_start(), Event::EndDocument]).unwrap();
    assert_eq!(program.ast_nodes.len(), 0);
    let program = parse_events(vec![Event::EndDocument]).unwrap();
    assert_eq!(program.ast_nodes.len(), 0);
}

#[test]
fn cursor_can_parse_from_events() {
    let mut parser = Parser::from_events(vec![
        doc_start(),
        start("inSequence", vec![]),
        end("inSequence"),
        Event::EndDocument,
    ]);
    assert_eq!(parser.parse_progarm(), Ok(Program { ast_nodes: vec![sequence(vec![])] }));
}

#[test]
fn canonical_markup_of_each_node() {
    assert_eq!(prop("n", "v").render(), r#"<property name="n" value="v"></property>"#);
    assert_eq!(log("full", vec![]).render(), r#"<log level="full"></log>"#);
    assert_eq!(
        log("custom", vec![prop("a", "1"), prop("b", "2")]).render(),
        r#"<log level="custom"><property name="a" value="1"></property><property name="b" value="2"></property></log>"#
    );
    assert_eq!(InSequence { mediators: vec![] }.render(), "<inSequence></inSequence>");
    assert_eq!(
        sequence(vec![Mediators::Log(log("a", vec![])), Mediators::Log(log("b", vec![]))]).render(),
        r#"<inSequence><log level="a"></log><log level="b"></log></inSequence>"#
    );
    assert_eq!(Mediators::Property(prop("", "")).render(), r#"<property name="" value=""></property>"#);
    assert_eq!(Program { ast_nodes: vec![] }.render(), "");
}

#[test]
fn markup_parses_back_to_the_same_tree() {
    let program = Program {
        ast_nodes: vec![
            sequence(vec![
                Mediators::Log(log("custom", vec![prop("/validate", "inSequence"), prop("k", "v")])),
                Mediators::Log(log("full", vec![])),
            ]),
            AstNode::Mediator(Mediators::Log(log("debug", vec![prop("x", "y")]))),
            sequence(vec![]),
        ],
    };
    let text = program.render();
    assert_eq!(parse(text.as_bytes()), Ok(program));
}

#[test]
fn single_sequence_parses_back_to_the_same_tree() {
    let program = Program {
        ast_nodes: vec![sequence(vec![Mediators::Log(log("a", vec![prop("n", "v")]))])],
    };
    let text = program.render();
    assert_eq!(text, r#"<inSequence><log level="a"><property name="n" value="v"></property></log></inSequence>"#);
    assert_eq!(parse(text.as_bytes()), Ok(program));
}

#[test]
fn bare_property_in_text_leaves_its_close_tag() {
    let result = parse(br#"<inSequence><property name="n" value="v"/></inSequence>"#);
    assert_eq!(result, Err(ParseError::UnbalancedElement("inSequence".to_string())));
}

#[test]
fn close_tag_of_log_carries_no_level() {
    let mut parser = Parser::from_events(vec![end("log")]);
    assert_eq!(parser.parse_mediator(), Err(ParseError::MalformedLog));
    let mut parser = Parser::from_events(vec![end("log")]);
    assert_eq!(parser.parse_log_mediator(), Err(ParseError::MalformedLog));
}

#[test]
fn close_tag_is_no_property() {
    let mut parser = Parser::from_events(vec![end("property")]);
    assert_eq!(parser.parse_mediator(), Err(ParseError::UnexpectedEvent));
    let mut parser = Parser::from_events(vec![end("other")]);
    assert_eq!(parser.parse_mediator(), Err(ParseError::UnsupportedMediator("other".to_string())));
    let mut parser = Parser::from_events(vec![Event::Other]);
    assert_eq!(parser.parse_mediator(), Err(ParseError::UnexpectedEvent));
    let mut parser = Parser::from_events(vec![]);
    assert_eq!(parser.parse_mediator(), Err(ParseError::UnexpectedEndOfStream));
}

#[test]
fn recognizers_want_their_own_start_tag() {
    let mut parser = Parser::from_events(vec![start("log", vec![attr("level", "x")])]);
    assert_eq!(parser.parse_property(), Err(ParseError::UnexpectedEvent));
    let mut parser = Parser::from_events(vec![start("property", vec![attr("level", "x")])]);
    assert_eq!(parser.parse_log_mediator(), Err(ParseError::UnexpectedEvent));
    let mut parser = Parser::from_events(vec![start("log", vec![])]);
    assert_eq!(parser.parse_in_sequence(), Err(ParseError::UnexpectedEvent));
    let mut parser = Parser::from_events(vec![]);
    assert_eq!(parser.parse_in_sequence(), Err(ParseError::UnexpectedEndOfStream));
    let mut parser = Parser::from_events(vec![]);
    assert_eq!(parser.parse_property(), Err(ParseError::UnexpectedEndOfStream));
}

#[test]
fn recognizers_leave_the_cursor_behind_what_they_read() {
    let mut parser = Parser::from_events(vec![
        start("log", vec![attr("level", "a")]),
        start("property", vec![attr("name", "n"), attr("value", "v")]),
        end("property"),
        end("log"),
        start("property", vec![attr("name", "m")]),
        start("inSequence", vec![]),
        end("inSequence"),
        Event::EndDocument,
    ]);
    assert_eq!(parser.parse_log_mediator(), Ok(log("a", vec![prop("n", "v")])));
    assert_eq!(parser.parse_mediator(), Ok(Mediators::Property(prop("m", ""))));
    assert_eq!(parser.parse_node(), Ok(sequence(vec![])));
    assert_eq!(parser.parse_progarm(), Ok(Program { ast_nodes: vec![] }));
    assert_eq!(parser.parse_progarm(), Err(ParseError::UnexpectedEndOfStream));
}

#[test]
fn event_behind_a_property_in_a_log_is_passed_over() {
    let events = vec![
        start("log", vec![attr("level", "a")]),
        start("property", vec![attr("name", "n")]),
        Event::Other,
        end("log"),
        Event::EndDocument,
    ];
    let program = parse_events(events).unwrap();
    assert_eq!(program.ast_nodes, vec![AstNode::Mediator(Mediators::Log(log("a", vec![prop("n", "")])))]);

    let events = vec![
        start("log", vec![attr("level", "a")]),
        start("property", vec![]),
        end("log"),
        Event::EndDocument,
    ];
    assert_eq!(parse_events(events), Err(ParseError::UnbalancedElement("log".to_string())));
}

#[test]
fn declared_document_start_is_passed_over() {
    let text = br#"<?xml version="1.0" encoding="UTF-8"?><inSequence><log level="a"/></inSequence>"#;
    let program = parse(text).unwrap();
    assert_eq!(program.ast_nodes, vec![sequence(vec![Mediators::Log(log("a", vec![]))])]);
}
