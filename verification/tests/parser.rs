use scrybe::parser::flowchart;
use scrybe::parser::lexer::detect_diagram_type;
use scrybe::parser::parse;
use scrybe::parser::sequence;
use scrybe::parser::types::{
    ArrowType, Block, DiagramAst, DiagramType, Direction, EdgeKind, NodeShape, NotePosition,
    ParticipantKind, SequenceStatement,
};
use scrybe::svg::MermaidRenderError;

// ── Diagram type detection ─────────────────────────────────────────────────

#[test]
fn test_detect_sequence() {
    assert_eq!(detect_diagram_type("sequenceDiagram\n  A->>B: hi").unwrap(), DiagramType::Sequence);
}

#[test]
fn test_detect_flowchart_graph() {
    assert_eq!(detect_diagram_type("graph TD\n  A --> B").unwrap(), DiagramType::Flowchart);
}

#[test]
fn test_detect_flowchart_keyword() {
    assert_eq!(detect_diagram_type("flowchart LR\n  A --> B").unwrap(), DiagramType::Flowchart);
}

#[test]
fn test_detect_flowchart_without_direction() {
    assert_eq!(detect_diagram_type("flowchart\n  A --> B").unwrap(), DiagramType::Flowchart);
}

#[test]
fn test_skips_comments() {
    assert_eq!(
        detect_diagram_type("%% this is a comment\nsequenceDiagram").unwrap(),
        DiagramType::Sequence
    );
}

#[test]
fn test_unsupported() {
    assert!(detect_diagram_type("erDiagram\n  A ||--o{ B : has").is_err());
}

#[test]
fn unsupported_type_names_the_first_content_line() {
    match detect_diagram_type("\n  %% note\n  pie title Pets\n") {
        Err(MermaidRenderError::UnsupportedDiagramType(t)) => assert_eq!(t, "pie title Pets"),
        other => panic!("unexpected {other:?}"),
    }
}

#[test]
fn blank_source_is_a_parse_error() {
    assert!(matches!(detect_diagram_type("\n   \n%% only a comment\n"), Err(MermaidRenderError::Parse(_))));
}

#[test]
fn detection_ignores_ascii_case() {
    assert_eq!(detect_diagram_type("SEQUENCEDIAGRAM").unwrap(), DiagramType::Sequence);
    assert_eq!(detect_diagram_type("Graph\tLR").unwrap(), DiagramType::Flowchart);
    assert!(detect_diagram_type("graphs TD").is_err());
}

// ── Flowcharts ─────────────────────────────────────────────────────────────

#[test]
fn parses_td_direction() {
    let diagram = flowchart::parse("graph TD\nA").unwrap();
    assert_eq!(diagram.direction, Direction::TD);
}

#[test]
fn parses_lr_direction() {
    let diagram = flowchart::parse("graph LR\nA").unwrap();
    assert_eq!(diagram.direction, Direction::LR);
}

#[test]
fn parses_bt_direction() {
    let diagram = flowchart::parse("flowchart BT\nA").unwrap();
    assert_eq!(diagram.direction, Direction::BT);
}

#[test]
fn parses_rl_direction() {
    let diagram = flowchart::parse("flowchart RL\nA").unwrap();
    assert_eq!(diagram.direction, Direction::RL);
}

#[test]
fn defaults_graph_to_td_when_direction_is_omitted() {
    let diagram = flowchart::parse("graph\nA").unwrap();
    assert_eq!(diagram.direction, Direction::TD);
}

#[test]
fn defaults_flowchart_to_td_when_direction_is_omitted() {
    let diagram = flowchart::parse("flowchart\nA").unwrap();
    assert_eq!(diagram.direction, Direction::TD);
}

#[test]
fn parses_minimal_edge() {
    let diagram = flowchart::parse("graph TD\n  A --> B").unwrap();
    assert_eq!(diagram.direction, Direction::TD);
    assert_eq!(diagram.nodes.len(), 2);
    assert_eq!(diagram.edges.len(), 1);
    assert_eq!(diagram.edges[0].from, "A");
    assert_eq!(diagram.edges[0].to, "B");
    assert_eq!(diagram.edges[0].kind, EdgeKind::Arrow);
}

#[test]
fn parses_labelled_rect_node() {
    let diagram = flowchart::parse("graph TD\nA[Start here]").unwrap();
    assert_eq!(diagram.nodes.len(), 1);
    assert_eq!(diagram.nodes[0].id, "A");
    assert_eq!(diagram.nodes[0].label.as_deref(), Some("Start here"));
    assert_eq!(diagram.nodes[0].shape, NodeShape::Rect);
}

#[test]
fn parses_multi_line_with_comments() {
    let src = "%% before\nflowchart LR\n%% nodes\nA[Alpha]\nB\n%% edge\nA --> B\n";
    let diagram = flowchart::parse(src).unwrap();
    assert_eq!(diagram.direction, Direction::LR);
    assert_eq!(diagram.nodes.len(), 2);
    assert_eq!(diagram.edges.len(), 1);
    assert_eq!(diagram.nodes[0].label.as_deref(), Some("Alpha"));
}

#[test]
fn labelled_node_can_update_auto_registered_edge_node() {
    let diagram = flowchart::parse("graph TD\nA --> B\nA[Alpha]").unwrap();
    assert_eq!(diagram.nodes.len(), 2);
    assert_eq!(diagram.nodes[0].id, "A");
    assert_eq!(diagram.nodes[0].label.as_deref(), Some("Alpha"));
}

#[test]
fn flowchart_nodes_are_unique_and_edges_closed() {
    let diagram = flowchart::parse("graph LR\nA --> B\nB --> A\nC\nA --> C\nB[Bee]").unwrap();
    let ids: Vec<&str> = diagram.nodes.iter().map(|n| n.id.as_str()).collect();
    assert_eq!(ids, vec!["A", "B", "C"]);
    for e in &diagram.edges {
        assert!(ids.contains(&e.from.as_str()) && ids.contains(&e.to.as_str()));
    }
    assert_eq!(diagram.nodes[1].label.as_deref(), Some("Bee"));
}

#[test]
fn flowchart_errors() {
    assert!(matches!(flowchart::parse("graph XY\nA"), Err(MermaidRenderError::Parse(_))));
    assert!(matches!(flowchart::parse("graph TD extra\nA"), Err(MermaidRenderError::Parse(_))));
    assert!(matches!(flowchart::parse("graph TD\nA[open"), Err(MermaidRenderError::Parse(_))));
    assert!(matches!(flowchart::parse("graph TD\nA --> "), Err(MermaidRenderError::Parse(_))));
    assert!(matches!(flowchart::parse("\n\n"), Err(MermaidRenderError::Parse(_))));
    assert!(matches!(flowchart::parse("pie\nA"), Err(MermaidRenderError::Parse(_))));
}

// ── Sequence diagrams ──────────────────────────────────────────────────────

#[test]
fn sequence_minimal_message_registers_participants() {
    let d = sequence::parse("sequenceDiagram\n  A->>B: Hello").unwrap();
    assert_eq!(d.participants.len(), 2);
    assert_eq!(d.participants[0].alias, "A");
    assert_eq!(d.participants[1].alias, "B");
    match &d.statements[0] {
        SequenceStatement::Message(m) => {
            assert_eq!(m.from, "A");
            assert_eq!(m.to, "B");
            assert_eq!(m.text, "Hello");
            assert_eq!(m.arrow, ArrowType::SolidAsync);
        }
        _ => panic!("expected a message"),
    }
}

#[test]
fn sequence_declarations_keep_first_mention_order() {
    let d = sequence::parse(
        "sequenceDiagram\n  actor User\n  participant Bob as Bobby\n  User->>Bob: Hi\n  participant User as The User",
    )
    .unwrap();
    assert_eq!(d.participants.len(), 2);
    assert_eq!(d.participants[0].alias, "User");
    assert_eq!(d.participants[0].display, "The User");
    assert_eq!(d.participants[0].kind, ParticipantKind::Participant);
    assert_eq!(d.participants[1].display, "Bobby");
}

#[test]
fn sequence_arrow_types_in_lookup_order() {
    let src = "sequenceDiagram\n  A->B: 1\n  A->>B: 2\n  A-->B: 3\n  A-->>B: 4\n  A-xB: 5\n  A--xB: 6\n  A-)B: 7\n  A--)B: 8\n";
    let d = sequence::parse(src).unwrap();
    let want = [
        ArrowType::Solid,
        ArrowType::SolidAsync,
        ArrowType::Dotted,
        ArrowType::DottedAsync,
        ArrowType::Cross,
        ArrowType::DotCross,
        ArrowType::Point,
        ArrowType::DotPoint,
    ];
    assert_eq!(d.statements.len(), want.len());
    for (s, w) in d.statements.iter().zip(want.iter()) {
        match s {
            SequenceStatement::Message(m) => assert_eq!(m.arrow, *w),
            _ => panic!("expected a message"),
        }
    }
}

#[test]
fn sequence_notes_and_activation() {
    let src = "sequenceDiagram\n  Note over Alice, Bob : Handshake\n  note RIGHT OF Bob: Thinking\n  activate Bob\n  deactivate Bob\n";
    let d = sequence::parse(src).unwrap();
    assert_eq!(d.statements.len(), 4);
    match &d.statements[0] {
        SequenceStatement::Note(n) => {
            assert_eq!(n.position, NotePosition::Over);
            assert_eq!(n.participants, vec!["Alice".to_string(), "Bob".to_string()]);
            assert_eq!(n.text, "Handshake");
        }
        _ => panic!("expected a note"),
    }
    match &d.statements[1] {
        SequenceStatement::Note(n) => assert_eq!(n.position, NotePosition::RightOf),
        _ => panic!("expected a note"),
    }
    assert!(matches!(&d.statements[2], SequenceStatement::Activate(p) if p == "Bob"));
    assert!(matches!(&d.statements[3], SequenceStatement::Deactivate(p) if p == "Bob"));
    assert!(d.participants.is_empty());
}

#[test]
fn sequence_blocks_nest() {
    let src = "sequenceDiagram\n  loop Every 5 seconds\n    alt Success\n      A->>B: OK\n    else Failure\n      A->>C: Error\n    end\n  end\n  par Task 1\n    A->>B: x\n  and Task 2\n    A->>C: y\n  end\n  opt Extra\n    B-->>A: z\n  end\n";
    let d = sequence::parse(src).unwrap();
    assert_eq!(d.statements.len(), 3);
    match &d.statements[0] {
        SequenceStatement::Block(Block::Loop { label, body }) => {
            assert_eq!(label, "Every 5 seconds");
            assert_eq!(body.len(), 1);
            match &body[0] {
                SequenceStatement::Block(Block::Alt { cases }) => {
                    assert_eq!(cases.len(), 2);
                    assert_eq!(cases[0].0, "Success");
                    assert_eq!(cases[1].0, "Failure");
                    assert_eq!(cases[1].1.len(), 1);
                }
                _ => panic!("expected alt"),
            }
        }
        _ => panic!("expected loop"),
    }
    match &d.statements[1] {
        SequenceStatement::Block(Block::Par { sections }) => {
            assert_eq!(sections.len(), 2);
            assert_eq!(sections[1].0, "Task 2");
        }
        _ => panic!("expected par"),
    }
    match &d.statements[2] {
        SequenceStatement::Block(Block::Opt { label, body }) => {
            assert_eq!(label, "Extra");
            assert_eq!(body.len(), 1);
        }
        _ => panic!("expected opt"),
    }
    let aliases: Vec<&str> = d.participants.iter().map(|p| p.alias.as_str()).collect();
    assert_eq!(aliases, vec!["A", "B", "C"]);
}

#[test]
fn unterminated_alt_drops_its_open_section() {
    let d = sequence::parse("sequenceDiagram\nalt One\nA->>B: x\nelse Two\nA->>B: y\n").unwrap();
    match &d.statements[0] {
        SequenceStatement::Block(Block::Alt { cases }) => {
            assert_eq!(cases.len(), 1);
            assert_eq!(cases[0].0, "One");
        }
        _ => panic!("expected alt"),
    }
}

#[test]
fn sequence_errors() {
    assert!(matches!(sequence::parse("graph TD"), Err(MermaidRenderError::Parse(_))));
    assert!(matches!(sequence::parse(""), Err(MermaidRenderError::Parse(_))));
    assert!(matches!(sequence::parse("sequenceDiagram\nhello there"), Err(MermaidRenderError::Parse(_))));
    assert!(matches!(sequence::parse("sequenceDiagram\nNote over A"), Err(MermaidRenderError::Parse(_))));
    assert!(matches!(sequence::parse("sequenceDiagram\nNote beside A: x"), Err(MermaidRenderError::Parse(_))));
}

#[test]
fn sequence_comments_and_blank_lines() {
    let src = "\n%% This is a comment\nsequenceDiagram\n  %% Another comment\n  A->>B: Hello\n\n  B-->>A: World\n";
    assert_eq!(sequence::parse(src).unwrap().statements.len(), 2);
}

// ── Dispatch ───────────────────────────────────────────────────────────────

#[test]
fn parse_dispatches_on_the_first_content_line() {
    assert!(matches!(parse("sequenceDiagram\nA->>B: hi"), Ok(DiagramAst::Sequence(_))));
    assert!(matches!(parse("%% c\ngraph LR\nA-->B"), Ok(DiagramAst::Flowchart(_))));
    assert!(matches!(parse("classDiagram"), Err(MermaidRenderError::UnsupportedDiagramType(_))));
    assert!(matches!(parse("sequenceDiagram\nnonsense"), Err(MermaidRenderError::Parse(_))));
}

#[test]
fn parses_bare_node() {
    let diagram = flowchart::parse("graph TD\nA").unwrap();
    assert_eq!(diagram.nodes.len(), 1);
    assert_eq!(diagram.nodes[0].id, "A");
    assert_eq!(diagram.nodes[0].label.as_deref(), None);
    assert_eq!(diagram.nodes[0].shape, NodeShape::Rect);
}

#[test]
fn test_parse_minimal() {
    let src = "sequenceDiagram\n  A->>B: Hello";
    let diagram = sequence::parse(src).unwrap();
    assert_eq!(diagram.participants.len(), 2);
    assert_eq!(diagram.statements.len(), 1);
    assert_eq!(diagram.participants[0].alias, "A");
    assert_eq!(diagram.participants[1].alias, "B");
    match &diagram.statements[0] {
        SequenceStatement::Message(msg) => {
            assert_eq!(msg.from, "A");
            assert_eq!(msg.to, "B");
            assert_eq!(msg.text, "Hello");
            assert_eq!(msg.arrow, ArrowType::SolidAsync);
        }
        _ => panic!("expected Message"),
    }
}

#[test]
fn test_participant_declaration() {
    let src = "sequenceDiagram\n  participant Alice\n  participant Bob as Bobby\n  Alice->>Bob: Hi";
    let diagram = sequence::parse(src).unwrap();
    assert_eq!(diagram.participants.len(), 2);
    assert_eq!(diagram.participants[0].alias, "Alice");
    assert_eq!(diagram.participants[0].display, "Alice");
    assert_eq!(diagram.participants[1].alias, "Bob");
    assert_eq!(diagram.participants[1].display, "Bobby");
}

#[test]
fn test_actor_declaration() {
    let src = "sequenceDiagram\n  actor User\n  participant System\n  User->>System: Login";
    let diagram = sequence::parse(src).unwrap();
    assert_eq!(diagram.participants.len(), 2);
    assert_eq!(diagram.participants[0].kind, ParticipantKind::Actor);
    assert_eq!(diagram.participants[1].kind, ParticipantKind::Participant);
}

#[test]
fn test_arrow_types() {
    let src = "sequenceDiagram
  A->B: Solid
  A->>B: SolidAsync
  A-->B: Dotted
  A-->>B: DottedAsync
  A-xB: Cross
  A--xB: DotCross
";
    let diagram = sequence::parse(src).unwrap();
    assert_eq!(diagram.statements.len(), 6);
    let arrow_types = vec![
        ArrowType::Solid,
        ArrowType::SolidAsync,
        ArrowType::Dotted,
        ArrowType::DottedAsync,
        ArrowType::Cross,
        ArrowType::DotCross,
    ];
    for (i, expected_arrow) in arrow_types.iter().enumerate() {
        match &diagram.statements[i] {
            SequenceStatement::Message(msg) => assert_eq!(msg.arrow, *expected_arrow),
            _ => panic!("expected Message at index {}", i),
        }
    }
}

#[test]
fn test_notes() {
    let src = "sequenceDiagram
  participant Alice
  participant Bob
  Note over Alice,Bob: Handshake
  Note right of Bob: Thinking
  Note left of Alice: Waiting
";
    let diagram = sequence::parse(src).unwrap();
    assert_eq!(diagram.statements.len(), 3);
    match &diagram.statements[0] {
        SequenceStatement::Note(note) => {
            assert_eq!(note.position, NotePosition::Over);
            assert_eq!(note.participants.len(), 2);
            assert_eq!(note.text, "Handshake");
        }
        _ => panic!("expected Note"),
    }
    match &diagram.statements[1] {
        SequenceStatement::Note(note) => {
            assert_eq!(note.position, NotePosition::RightOf);
            assert_eq!(note.participants[0], "Bob");
        }
        _ => panic!("expected Note"),
    }
    match &diagram.statements[2] {
        SequenceStatement::Note(note) => {
            assert_eq!(note.position, NotePosition::LeftOf);
            assert_eq!(note.participants[0], "Alice");
        }
        _ => panic!("expected Note"),
    }
}

#[test]
fn test_activate_deactivate() {
    let src = "sequenceDiagram
  A->>B: Request
  activate B
  B-->>A: Response
  deactivate B
";
    let diagram = sequence::parse(src).unwrap();
    assert_eq!(diagram.statements.len(), 4);
    match &diagram.statements[1] {
        SequenceStatement::Activate(p) => assert_eq!(p, "B"),
        _ => panic!("expected Activate"),
    }
    match &diagram.statements[3] {
        SequenceStatement::Deactivate(p) => assert_eq!(p, "B"),
        _ => panic!("expected Deactivate"),
    }
}

#[test]
fn test_loop_block() {
    let src = "sequenceDiagram
  loop Every 5 seconds
    A->>B: Ping
    B-->>A: Pong
  end
";
    let diagram = sequence::parse(src).unwrap();
    assert_eq!(diagram.statements.len(), 1);
    match &diagram.statements[0] {
        SequenceStatement::Block(Block::Loop { label, body }) => {
            assert_eq!(label, "Every 5 seconds");
            assert_eq!(body.len(), 2);
        }
        _ => panic!("expected Loop block"),
    }
}

#[test]
fn test_alt_block() {
    let src = "sequenceDiagram
  alt Success
    A->>B: OK
  else Failure
    A->>B: Error
  end
";
    let diagram = sequence::parse(src).unwrap();
    assert_eq!(diagram.statements.len(), 1);
    match &diagram.statements[0] {
        SequenceStatement::Block(Block::Alt { cases }) => {
            assert_eq!(cases.len(), 2);
            assert_eq!(cases[0].0, "Success");
            assert_eq!(cases[0].1.len(), 1);
            assert_eq!(cases[1].0, "Failure");
            assert_eq!(cases[1].1.len(), 1);
        }
        _ => panic!("expected Alt block"),
    }
}

#[test]
fn test_opt_block() {
    let src = "sequenceDiagram
  opt Extra info
    A->>B: Details
  end
";
    let diagram = sequence::parse(src).unwrap();
    assert_eq!(diagram.statements.len(), 1);
    match &diagram.statements[0] {
        SequenceStatement::Block(Block::Opt { label, body }) => {
            assert_eq!(label, "Extra info");
            assert_eq!(body.len(), 1);
        }
        _ => panic!("expected Opt block"),
    }
}

#[test]
fn test_par_block() {
    let src = "sequenceDiagram
  par Task 1
    A->>B: Do this
  and Task 2
    A->>C: Do that
  end
";
    let diagram = sequence::parse(src).unwrap();
    assert_eq!(diagram.statements.len(), 1);
    match &diagram.statements[0] {
        SequenceStatement::Block(Block::Par { sections }) => {
            assert_eq!(sections.len(), 2);
            assert_eq!(sections[0].0, "Task 1");
            assert_eq!(sections[0].1.len(), 1);
            assert_eq!(sections[1].0, "Task 2");
            assert_eq!(sections[1].1.len(), 1);
        }
        _ => panic!("expected Par block"),
    }
}

#[test]
fn test_comments_and_blank_lines() {
    let src = "
%% This is a comment
sequenceDiagram
  %% Another comment
  A->>B: Hello

  %% Blank lines are ignored
  B-->>A: World
";
    let diagram = sequence::parse(src).unwrap();
    assert_eq!(diagram.statements.len(), 2);
}

#[test]
fn arrows_in_the_message_text_are_text() {
    let d = sequence::parse("sequenceDiagram\nA->B: see --> here").unwrap();
    match &d.statements[0] {
        SequenceStatement::Message(m) => {
            assert_eq!(m.from, "A");
            assert_eq!(m.to, "B");
            assert_eq!(m.text, "see --> here");
            assert_eq!(m.arrow, ArrowType::Solid);
        }
        _ => panic!("expected a message"),
    }
}

fn parse_message_of<T>(r: Result<T, MermaidRenderError>) -> String {
    match r {
        Err(MermaidRenderError::Parse(m)) => m,
        Err(other) => panic!("expected a parse error, got {other:?}"),
        Ok(_) => panic!("expected a parse error"),
    }
}

#[test]
fn the_dispatcher_gives_the_chosen_parsers_error() {
    let cases = [
        "sequenceDiagram\nhello there",
        "sequenceDiagram\nNote over A",
        "sequenceDiagram\nNote beside A: x",
        "sequenceDiagram\nloop x\n  gibberish\nend",
        "graph XX\nA",
        "graph TD LR\nA",
        "graph TD\nA[x",
        "graph TD\nA --> -",
    ];
    for src in cases {
        let direct = if src.starts_with("graph") {
            parse_message_of(flowchart::parse(src))
        } else {
            parse_message_of(sequence::parse(src))
        };
        assert_eq!(parse_message_of(parse(src)), direct, "{src}");
    }
    assert_eq!(parse_message_of(sequence::parse("sequenceDiagram\nhello there")), "could not parse message");
    assert_eq!(parse_message_of(sequence::parse("sequenceDiagram\nNote over A")), "note missing colon");
    assert_eq!(parse_message_of(flowchart::parse("graph XX\nA")), "unsupported flowchart direction");
    assert_eq!(parse_message_of(flowchart::parse("graph TD\nA[x")), "could not parse node");
    assert_eq!(parse_message_of(parse("  \n%% c\n")), "empty or blank source");
}
