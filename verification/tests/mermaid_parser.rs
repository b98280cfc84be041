use markie::mermaid::types::{
    ArrowType, ClassRelationType, EdgeStyle, ErCardinality, FlowDirection, MessageKind, MessageType,
    NodeShape, SequenceElement, Visibility,
};
use markie::mermaid::{extract_node_info, mermaid_source_supported, parse_mermaid, MermaidDiagram};

#[test]
fn test_parse_simple_flowchart() {
    let input = r#"
flowchart TD
    A --> B
"#;
    let result = parse_mermaid(input).unwrap();
    if let MermaidDiagram::Flowchart(fc) = result {
        assert_eq!(fc.nodes.len(), 2);
        assert_eq!(fc.edges.len(), 1);
        assert_eq!(fc.nodes[0].id, "A");
        assert_eq!(fc.nodes[0].label, "A");
        assert_eq!(fc.nodes[1].id, "B");
        assert_eq!(fc.edges[0].from, "A");
        assert_eq!(fc.edges[0].to, "B");
    } else {
        panic!("Expected flowchart");
    }
}

#[test]
fn test_parse_flowchart_with_labels() {
    let input = r#"
flowchart TD
    A[Start] --> B{Decision?}
    B -->|Yes| C[Continue]
    B -->|No| D[Stop]
"#;
    let result = parse_mermaid(input).unwrap();
    if let MermaidDiagram::Flowchart(fc) = result {
        assert_eq!(fc.nodes.len(), 4);

        let node_a = fc.nodes.iter().find(|n| n.id == "A").unwrap();
        assert_eq!(node_a.label, "Start", "Node A should have label 'Start'");
        assert_eq!(node_a.shape, NodeShape::Rect);

        let node_b = fc.nodes.iter().find(|n| n.id == "B").unwrap();
        assert_eq!(node_b.label, "Decision?", "Node B should have label 'Decision?'");
        assert_eq!(node_b.shape, NodeShape::Rhombus);

        let node_c = fc.nodes.iter().find(|n| n.id == "C").unwrap();
        assert_eq!(node_c.label, "Continue", "Node C should have label 'Continue'");

        let node_d = fc.nodes.iter().find(|n| n.id == "D").unwrap();
        assert_eq!(node_d.label, "Stop", "Node D should have label 'Stop'");

        let edge_bc = fc.edges.iter().find(|e| e.from == "B" && e.to == "C").unwrap();
        assert_eq!(edge_bc.label, Some("Yes".to_string()));

        let edge_bd = fc.edges.iter().find(|e| e.from == "B" && e.to == "D").unwrap();
        assert_eq!(edge_bd.label, Some("No".to_string()));
    } else {
        panic!("Expected flowchart");
    }
}

#[test]
fn test_parse_flowchart_shapes() {
    let input = r#"
flowchart LR
    A([Stadium]) --> B[[Subroutine]]
    B --> C[(Database)]
    C --> D((Circle))
    D --> E{Diamond}
"#;
    let result = parse_mermaid(input).unwrap();
    if let MermaidDiagram::Flowchart(fc) = result {
        assert_eq!(fc.nodes.len(), 5);

        let node_a = fc.nodes.iter().find(|n| n.id == "A").unwrap();
        assert_eq!(node_a.label, "Stadium");
        assert_eq!(node_a.shape, NodeShape::Stadium);

        let node_b = fc.nodes.iter().find(|n| n.id == "B").unwrap();
        assert_eq!(node_b.label, "Subroutine");
        assert_eq!(node_b.shape, NodeShape::Subroutine);

        let node_c = fc.nodes.iter().find(|n| n.id == "C").unwrap();
        assert_eq!(node_c.label, "Database");
        assert_eq!(node_c.shape, NodeShape::Cylinder);

        let node_d = fc.nodes.iter().find(|n| n.id == "D").unwrap();
        assert_eq!(node_d.label, "Circle");
        assert_eq!(node_d.shape, NodeShape::Circle);

        let node_e = fc.nodes.iter().find(|n| n.id == "E").unwrap();
        assert_eq!(node_e.label, "Diamond");
        assert_eq!(node_e.shape, NodeShape::Rhombus);
    } else {
        panic!("Expected flowchart");
    }
}

#[test]
fn test_extract_node_info() {
    let (id, label, shape) = extract_node_info("A[Start]").unwrap();
    assert_eq!(id, "A");
    assert_eq!(label, "Start");
    assert_eq!(shape, NodeShape::Rect);

    let (id, label, shape) = extract_node_info("B{Decision?}").unwrap();
    assert_eq!(id, "B");
    assert_eq!(label, "Decision?");
    assert_eq!(shape, NodeShape::Rhombus);

    let (id, label, shape) = extract_node_info("C((Circle))").unwrap();
    assert_eq!(id, "C");
    assert_eq!(label, "Circle");
    assert_eq!(shape, NodeShape::Circle);

    let (id, label, shape) = extract_node_info("D").unwrap();
    assert_eq!(id, "D");
    assert_eq!(label, "D");
    assert_eq!(shape, NodeShape::RoundedRect);
}

#[test]
fn test_parse_sequence_diagram() {
    let input = r#"
sequenceDiagram
    participant Alice
    participant Bob
    Alice->>Bob: Hello!
    Bob-->>Alice: Hi!
"#;
    let result = parse_mermaid(input).unwrap();
    if let MermaidDiagram::Sequence(seq) = result {
        assert_eq!(seq.participants.len(), 2);
        assert_eq!(seq.participants[0].id, "Alice");
        assert_eq!(seq.participants[1].id, "Bob");

        let msg_count = seq.elements.iter().filter(|e| matches!(e, SequenceElement::Message(_))).count();
        assert_eq!(msg_count, 2);
    } else {
        panic!("Expected sequence diagram");
    }
}

#[test]
fn test_parse_sequence_messages() {
    let input = r#"
sequenceDiagram
    participant Alice
    participant Bob
    Alice->>Bob: Hello
    Bob-->>Alice: Hi there
"#;
    let result = parse_mermaid(input).unwrap();
    if let MermaidDiagram::Sequence(seq) = result {
        assert_eq!(seq.participants.len(), 2, "Should have 2 participants");

        let msg_count = seq.elements.iter().filter(|e| matches!(e, SequenceElement::Message(_))).count();
        assert_eq!(msg_count, 2, "Should have 2 messages, got {}", msg_count);

        let first_msg = seq.elements.iter().find_map(|e| {
            if let SequenceElement::Message(m) = e { Some(m) } else { None }
        });
        assert!(first_msg.is_some(), "Should have at least one message");
        let msg = first_msg.unwrap();
        assert_eq!(msg.from, "Alice", "From should be Alice, got {}", msg.from);
        assert_eq!(msg.to, "Bob", "To should be Bob, got {}", msg.to);
        assert_eq!(msg.label, "Hello", "Label should be Hello, got '{}'", msg.label);
    } else {
        panic!("Expected sequence diagram");
    }
}

#[test]
fn test_parse_sequence_with_aliases() {
    let input = r#"
sequenceDiagram
    participant U as User
    participant S as Server
    U->>S: Request
"#;
    let result = parse_mermaid(input).unwrap();
    if let MermaidDiagram::Sequence(seq) = result {
        assert_eq!(seq.participants.len(), 2);

        let user = &seq.participants[0];
        assert_eq!(user.id, "U");
        assert_eq!(user.alias, Some("User".to_string()));

        let server = &seq.participants[1];
        assert_eq!(server.id, "S");
        assert_eq!(server.alias, Some("Server".to_string()));
    } else {
        panic!("Expected sequence diagram");
    }
}

#[test]
fn test_parse_class_diagram() {
    let input = r#"
classDiagram
    class Animal {
        +String name
        +int age
        +makeSound()
    }
"#;
    let result = parse_mermaid(input).unwrap();
    if let MermaidDiagram::ClassDiagram(cls) = result {
        assert!(!cls.classes.is_empty(), "Should have at least one class");
        let animal = cls.classes.iter().find(|c| c.name == "Animal");
        assert!(animal.is_some(), "Should find Animal class");
        let animal = animal.unwrap();
        assert!(animal.attributes.len() >= 2, "Animal should have at least 2 attributes, got {}", animal.attributes.len());
        assert!(animal.methods.len() >= 1, "Animal should have at least 1 method, got {}", animal.methods.len());
        assert!(animal.attributes.iter().any(|a| a.member.name.contains("name")), "Should have name attribute");
        assert!(animal.methods.iter().any(|m| m.member.name.contains("makeSound")), "Should have makeSound method");
    } else {
        panic!("Expected class diagram");
    }
}

#[test]
fn test_parse_state_diagram() {
    let input = r#"
stateDiagram
    [*] --> Idle
    Idle --> Processing
    Processing --> [*]
"#;
    let result = parse_mermaid(input).unwrap();
    if let MermaidDiagram::StateDiagram(st) = result {
        assert!(!st.states.is_empty());
        assert!(!st.transitions.is_empty());

        let has_start = st.states.iter().any(|s| s.is_start);
        assert!(has_start);

        let idle_to_processing = st.transitions.iter()
            .any(|t| t.from == "Idle" && t.to == "Processing");
        assert!(idle_to_processing);
    } else {
        panic!("Expected state diagram");
    }
}

#[test]
fn test_flowchart_cycle() {
    let input = r#"
flowchart TD
    A --> B
    B --> C
    C --> A
"#;
    let result = parse_mermaid(input).unwrap();
    if let MermaidDiagram::Flowchart(fc) = result {
        assert_eq!(fc.nodes.len(), 3);
        assert_eq!(fc.edges.len(), 3);
    } else {
        panic!("Expected flowchart");
    }
}
