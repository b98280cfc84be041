use markie::color::parse_hex_rgb;
use markie::mermaid::types::{
    ArrowType, ClassRelationType, EdgeStyle, ErCardinality, SequenceBlockType, SequenceElement,
    StateElement,
};
use markie::mermaid::{parse_mermaid, MermaidDiagram};

#[test]
fn unknown_diagram_types_are_errors() {
    let err = parse_mermaid("pie title Pets\n\"Dogs\" : 3").unwrap_err();
    assert_eq!(
        err,
        "Unsupported Mermaid diagram type 'pie'. Supported types: flowchart, graph, \
         sequenceDiagram, classDiagram, stateDiagram, erDiagram"
    );
    assert!(parse_mermaid("gantt\n  title A").unwrap_err().contains("'gantt'"));
}

#[test]
fn empty_sources_are_empty_flowcharts() {
    match parse_mermaid("   \n  ").unwrap() {
        MermaidDiagram::Flowchart(fc) => assert!(fc.nodes.is_empty() && fc.edges.is_empty()),
        _ => panic!("expected a flowchart"),
    }
}

#[test]
fn leading_comments_are_skipped_when_detecting_the_type() {
    let src = "%% comment\n%%{init: {\"theme\": \"dark\"}}%%\nsequenceDiagram\nparticipant A\nparticipant B\nA->>B: hi";
    match parse_mermaid(src).unwrap() {
        MermaidDiagram::Sequence(seq) => {
            let ids: Vec<&str> = seq.participants.iter().map(|p| p.id.as_str()).collect();
            assert_eq!(ids, vec!["A", "B"]);
            assert_eq!(seq.elements.len(), 1);
            assert!(matches!(&seq.elements[0], SequenceElement::Message(m) if m.label == "hi"));
        },
        _ => panic!("expected a sequence diagram"),
    }
}

fn single_edge(line: &str) -> markie::mermaid::types::FlowchartEdge {
    match parse_mermaid(&format!("flowchart LR\n{}", line)).unwrap() {
        MermaidDiagram::Flowchart(fc) => {
            assert_eq!(fc.edges.len(), 1);
            fc.edges[0].clone()
        },
        _ => panic!("expected a flowchart"),
    }
}

#[test]
fn bidirectional_circle_and_cross_edges() {
    let e = single_edge("A <--> B");
    assert_eq!((e.from.as_str(), e.to.as_str()), ("A", "B"));
    assert_eq!((e.style, e.arrow_head, e.arrow_tail), (EdgeStyle::Solid, ArrowType::Arrow, ArrowType::Arrow));
    let e = single_edge("A <==> B");
    assert_eq!((e.style, e.arrow_head, e.arrow_tail), (EdgeStyle::Thick, ArrowType::Arrow, ArrowType::Arrow));
    let e = single_edge("A --o B");
    assert_eq!((e.from.as_str(), e.to.as_str()), ("A", "B"));
    assert_eq!((e.arrow_head, e.arrow_tail), (ArrowType::Circle, ArrowType::NoArrow));
    let e = single_edge("A --x B");
    assert_eq!((e.from.as_str(), e.to.as_str()), ("A", "B"));
    assert_eq!((e.arrow_head, e.arrow_tail), (ArrowType::Cross, ArrowType::NoArrow));
    let e = single_edge("A --> B");
    assert_eq!((e.arrow_head, e.arrow_tail), (ArrowType::Arrow, ArrowType::NoArrow));
}

#[test]
fn class_relations_keep_their_labels() {
    let src = "classDiagram\nUser --> Session : creates\nUser ..> AuditLog : writes\nA <|-- B";
    match parse_mermaid(src).unwrap() {
        MermaidDiagram::ClassDiagram(cd) => {
            let r = &cd.relations;
            assert_eq!(r.len(), 3);
            assert_eq!((r[0].from.as_str(), r[0].to.as_str()), ("User", "Session"));
            assert_eq!(r[0].relation_type, ClassRelationType::Association);
            assert_eq!(r[0].label.as_deref(), Some("creates"));
            assert_eq!((r[1].to.as_str(), r[1].label.as_deref()), ("AuditLog", Some("writes")));
            assert_eq!(r[1].relation_type, ClassRelationType::Dependency);
            assert_eq!((r[2].to.as_str(), r[2].label.as_deref()), ("B", None));
        },
        _ => panic!("expected a class diagram"),
    }
}

#[test]
fn er_attributes_labels_and_implied_entities() {
    let src = "erDiagram\nCUSTOMER ||--o{ ORDER : places\nCUSTOMER {\n  string name\n  *int id\n}\nLINE";
    match parse_mermaid(src).unwrap() {
        MermaidDiagram::ErDiagram(er) => {
            let names: Vec<&str> = er.entities.iter().map(|e| e.name.as_str()).collect();
            assert_eq!(names, vec!["CUSTOMER", "ORDER", "LINE"]);
            let attrs: Vec<(&str, bool)> =
                er.entities[0].attributes.iter().map(|a| (a.name.as_str(), a.is_key)).collect();
            assert_eq!(attrs, vec![("string name", false), ("int id", true)]);
            assert_eq!(er.relationships.len(), 1);
            let r = &er.relationships[0];
            assert_eq!((r.from.as_str(), r.to.as_str()), ("CUSTOMER", "ORDER"));
            assert_eq!((r.from_cardinality, r.to_cardinality), (ErCardinality::ExactlyOne, ErCardinality::ZeroOrMore));
            assert_eq!(r.label.as_deref(), Some("places"));
        },
        _ => panic!("expected an ER diagram"),
    }
}

#[test]
fn er_quoted_labels_lose_their_quotes() {
    match parse_mermaid("erDiagram\nA }o--|| B : \"belongs to\"").unwrap() {
        MermaidDiagram::ErDiagram(er) => {
            assert_eq!(er.relationships[0].label.as_deref(), Some("belongs to"));
            assert_eq!(er.relationships[0].to, "B");
        },
        _ => panic!("expected an ER diagram"),
    }
}

#[test]
fn hex_colours() {
    assert_eq!(parse_hex_rgb("#ff8000"), Some((255, 128, 0)));
    assert_eq!(parse_hex_rgb("##0A0b0C"), Some((10, 11, 12)));
    assert_eq!(parse_hex_rgb("#fff"), None);
    assert_eq!(parse_hex_rgb("#gg0000"), None);
    assert_eq!(parse_hex_rgb("red"), None);
}

#[test]
fn sequence_notes_and_blocks_are_kept() {
    let src = "sequenceDiagram\nparticipant A\nparticipant B\nNote right of A: hi\nloop Every minute\nA->>B: ping\nend";
    match parse_mermaid(src).unwrap() {
        MermaidDiagram::Sequence(sd) => {
            assert_eq!(sd.elements.len(), 2);
            match &sd.elements[0] {
                SequenceElement::Note { participant, position, text } => {
                    assert_eq!((participant.as_str(), position.as_str(), text.as_str()), ("A", "right", "hi"));
                },
                _ => panic!("expected a note"),
            }
            match &sd.elements[1] {
                SequenceElement::Block(b) => {
                    assert_eq!(b.block_type, SequenceBlockType::Loop);
                    assert_eq!(b.label, "Every minute");
                    assert_eq!(b.messages.len(), 1);
                    assert!(matches!(&b.messages[0], SequenceElement::Message(m) if m.from == "A" && m.to == "B" && m.label == "ping"));
                    assert!(b.else_branches.is_empty());
                },
                _ => panic!("expected a block"),
            }
        },
        _ => panic!("expected a sequence diagram"),
    }
}

#[test]
fn sequence_branches_and_unclosed_blocks() {
    let src = "sequenceDiagram\nalt ok\nA->>B: yes\nelse failed\nA->>B: no\nopt\nNote over B: x\nend\nelse\nend";
    match parse_mermaid(src).unwrap() {
        MermaidDiagram::Sequence(sd) => {
            assert_eq!(sd.elements.len(), 1);
            let b = match &sd.elements[0] {
                SequenceElement::Block(b) => b,
                _ => panic!("expected a block"),
            };
            assert_eq!((b.block_type, b.label.as_str()), (SequenceBlockType::Alt, "ok"));
            assert_eq!(b.messages.len(), 1);
            assert!(matches!(&b.messages[0], SequenceElement::Message(m) if m.label == "yes"));
            assert_eq!(b.else_branches.len(), 2);
            let (label, first) = &b.else_branches[0];
            assert_eq!(label, "failed");
            assert_eq!(first.len(), 2);
            assert!(matches!(&first[0], SequenceElement::Message(m) if m.label == "no"));
            match &first[1] {
                SequenceElement::Block(inner) => {
                    assert_eq!((inner.block_type, inner.label.as_str()), (SequenceBlockType::Opt, ""));
                    assert_eq!(inner.messages.len(), 1);
                    assert!(matches!(&inner.messages[0], SequenceElement::Note { participant, position, text } if participant == "B" && position == "over" && text == "x"));
                },
                _ => panic!("expected a nested block"),
            }
            assert_eq!(b.else_branches[1].0, "");
            assert!(b.else_branches[1].1.is_empty());
        },
        _ => panic!("expected a sequence diagram"),
    }
    // An `end` or `else` outside any block is ignored.
    match parse_mermaid("sequenceDiagram\nend\nelse x\nA->>B: m").unwrap() {
        MermaidDiagram::Sequence(sd) => assert_eq!(sd.elements.len(), 1),
        _ => panic!("expected a sequence diagram"),
    }
    // A block left open is closed at the end of the source.
    match parse_mermaid("sequenceDiagram\npar\nA->>B: x\nand\nB->>A: y").unwrap() {
        MermaidDiagram::Sequence(sd) => {
            assert_eq!(sd.elements.len(), 1);
            match &sd.elements[0] {
                SequenceElement::Block(b) => {
                    assert_eq!(b.block_type, SequenceBlockType::Par);
                    assert_eq!(b.messages.len(), 1);
                    assert_eq!(b.else_branches.len(), 1);
                    assert_eq!(b.else_branches[0].1.len(), 1);
                },
                _ => panic!("expected a block"),
            }
        },
        _ => panic!("expected a sequence diagram"),
    }
}

#[test]
fn composite_states_own_their_children() {
    let src = "stateDiagram\n[*] --> Active\nstate Active {\nIdle --> Busy\nstate Inner {\nstate Deep\n}\n}\nActive --> Done";
    match parse_mermaid(src).unwrap() {
        MermaidDiagram::StateDiagram(sd) => {
            let find = |id: &str| sd.states.iter().find(|s| s.id == id).unwrap();
            assert!(sd.states.iter().all(|s| s.id != "Active {"));
            assert_eq!(sd.states.iter().filter(|s| s.id == "Active").count(), 1);
            assert!(find("Active").is_composite);
            assert_eq!(find("Active").parent, None);
            assert_eq!(find("Idle").parent.as_deref(), Some("Active"));
            assert_eq!(find("Busy").parent.as_deref(), Some("Active"));
            assert!(find("Inner").is_composite);
            assert_eq!(find("Inner").parent.as_deref(), Some("Active"));
            assert_eq!(find("Deep").parent.as_deref(), Some("Inner"));
            assert_eq!(find("Done").parent, None);
            let t = sd.transitions.iter().find(|t| t.from == "Idle").unwrap();
            assert_eq!((t.to.as_str(), t.parent.as_deref()), ("Busy", Some("Active")));
            let t = sd.transitions.iter().find(|t| t.to == "Done").unwrap();
            assert_eq!(t.parent, None);
            let kids: Vec<String> = find("Active")
                .children
                .iter()
                .map(|c| match c {
                    StateElement::State(s) => format!("state {}", s.id),
                    StateElement::Transition(t) => format!("{} -> {}", t.from, t.to),
                })
                .collect();
            assert_eq!(kids, vec!["state Idle", "state Busy", "state Inner", "Idle -> Busy"]);
            match &find("Active").children[2] {
                StateElement::State(inner) => {
                    assert_eq!(inner.children.len(), 1);
                    assert!(matches!(&inner.children[0], StateElement::State(d) if d.id == "Deep" && d.children.is_empty()));
                },
                _ => panic!("expected the inner state"),
            }
            assert!(find("Inner").children.len() == 1);
            assert!(find("Done").children.is_empty());
        },
        _ => panic!("expected a state diagram"),
    }
    let src = "stateDiagram\nstate Active {\nIdle --> Busy\n}";
    match parse_mermaid(src).unwrap() {
        MermaidDiagram::StateDiagram(sd) => {
            let active = sd.states.iter().find(|s| s.id == "Active").unwrap();
            assert!(active.is_composite);
            assert!(active.children.iter().any(|c| matches!(c, StateElement::State(s) if s.id == "Idle")));
            assert!(active.children.iter().any(|c| matches!(c, StateElement::State(s) if s.id == "Busy")));
            assert!(active.children.iter().any(|c| matches!(c, StateElement::Transition(t) if t.from == "Idle" && t.to == "Busy")));
            assert!(sd.states.iter().all(|s| s.id != "Active {"));
        },
        _ => panic!("expected a state diagram"),
    }
}
