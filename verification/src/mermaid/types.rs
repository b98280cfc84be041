//! The diagram syntax trees produced by the Mermaid parser, each with its
//! mathematical model (`DeepView`), in which every string is a `Seq<char>`.
use vstd::prelude::*;

verus! {

#[derive(Debug, Clone, Copy, PartialEq, Eq, Structural)]
pub enum FlowDirection {
    TopDown,
    BottomUp,
    LeftRight,
    RightLeft,
}

#[derive(Debug, Clone, Copy, PartialEq, Eq, Structural)]
pub enum NodeShape {
    Rect,
    RoundedRect,
    Rhombus,
    Circle,
    DoubleCircle,
    Subroutine,
    Cylinder,
    Stadium,
    Parallelogram,
    ParallelogramAlt,
    Trapezoid,
    TrapezoidAlt,
    Hexagon,
}

#[derive(Debug, Clone, Copy, PartialEq, Eq, Structural)]
pub enum EdgeStyle {
    Solid,
    Dotted,
    Thick,
}

#[derive(Debug, Clone, Copy, PartialEq, Eq, Structural)]
pub enum ArrowType {
    NoArrow,
    Arrow,
    Circle,
    Cross,
}

#[derive(Debug, Clone, Copy, PartialEq, Eq, Structural)]
pub enum MessageType {
    Solid,
    Dotted,
}

#[derive(Debug, Clone, Copy, PartialEq, Eq, Structural)]
pub enum MessageKind {
    Sync,
    Async,
    Reply,
}

#[derive(Debug, Clone, Copy, PartialEq, Eq, Structural)]
pub enum Visibility {
    Public,
    Private,
    Protected,
    Package,
}

#[derive(Debug, Clone, Copy, PartialEq, Eq, Structural)]
pub enum ClassRelationType {
    Inheritance,
    Composition,
    Aggregation,
    Association,
    Dependency,
    Realization,
}

#[derive(Debug, Clone, Copy, PartialEq, Eq, Structural)]
pub enum ErCardinality {
    ExactlyOne,
    ZeroOrOne,
    ZeroOrMore,
    OneOrMore,
}

// ----- flowchart -----
#[derive(Debug, Clone)]
pub struct FlowchartNode {
    pub id: String,
    pub label: String,
    pub shape: NodeShape,
}

#[derive(Debug, Clone)]
pub struct FlowchartEdge {
    pub from: String,
    pub to: String,
    pub label: Option<String>,
    pub style: EdgeStyle,
    pub arrow_head: ArrowType,
    pub arrow_tail: ArrowType,
    pub min_length: usize,
}

#[derive(Debug, Clone)]
pub struct Subgraph {
    pub id: String,
    pub title: String,
    pub nodes: Vec<String>,
}

#[derive(Debug, Clone)]
pub struct Flowchart {
    pub direction: FlowDirection,
    pub nodes: Vec<FlowchartNode>,
    pub edges: Vec<FlowchartEdge>,
    pub subgraphs: Vec<Subgraph>,
}

pub struct NodeModel {
    pub id: Seq<char>,
    pub label: Seq<char>,
    pub shape: NodeShape,
}

pub struct EdgeModel {
    pub from: Seq<char>,
    pub to: Seq<char>,
    pub label: Option<Seq<char>>,
    pub style: EdgeStyle,
    pub arrow_head: ArrowType,
    pub arrow_tail: ArrowType,
    pub min_length: nat,
}

pub struct SubgraphModel {
    pub id: Seq<char>,
    pub title: Seq<char>,
    pub nodes: Seq<Seq<char>>,
}

pub struct FlowchartModel {
    pub direction: FlowDirection,
    pub nodes: Seq<NodeModel>,
    pub edges: Seq<EdgeModel>,
    pub subgraphs: Seq<SubgraphModel>,
}

impl DeepView for FlowchartNode {
    type V = NodeModel;

    open spec fn deep_view(&self) -> NodeModel {
        NodeModel { id: self.id@, label: self.label@, shape: self.shape }
    }
}

impl DeepView for FlowchartEdge {
    type V = EdgeModel;

    open spec fn deep_view(&self) -> EdgeModel {
        EdgeModel {
            from: self.from@,
            to: self.to@,
            label: self.label.deep_view(),
            style: self.style,
            arrow_head: self.arrow_head,
            arrow_tail: self.arrow_tail,
            min_length: self.min_length as nat,
        }
    }
}

impl DeepView for Subgraph {
    type V = SubgraphModel;

    open spec fn deep_view(&self) -> SubgraphModel {
        SubgraphModel { id: self.id@, title: self.title@, nodes: self.nodes.deep_view() }
    }
}

impl DeepView for Flowchart {
    type V = FlowchartModel;

    open spec fn deep_view(&self) -> FlowchartModel {
        FlowchartModel {
            direction: self.direction,
            nodes: self.nodes.deep_view(),
            edges: self.edges.deep_view(),
            subgraphs: self.subgraphs.deep_view(),
        }
    }
}


// ----- sequence diagram -----
#[derive(Debug, Clone)]
pub struct Participant {
    pub id: String,
    pub alias: Option<String>,
}

#[derive(Debug, Clone)]
pub struct SequenceMessage {
    pub from: String,
    pub to: String,
    pub label: String,
    pub msg_type: MessageType,
    pub kind: MessageKind,
}

#[derive(Debug, Clone)]
pub struct Activation {
    pub participant: String,
}

/// The kinds of control block of a sequence diagram.
#[derive(Debug, Clone, Copy, PartialEq, Eq, Structural)]
pub enum SequenceBlockType {
    Alt,
    Opt,
    Loop,
    Par,
    Critical,
}

/// A control block of a sequence diagram: its kind and label, the elements
/// of its first branch, and each further branch (`else`/`and`) with its
/// label and elements.
#[derive(Debug)]
pub struct SequenceBlock {
    pub block_type: SequenceBlockType,
    pub label: String,
    pub messages: Vec<SequenceElement>,
    pub else_branches: Vec<(String, Vec<SequenceElement>)>,
}

/// An element of a sequence diagram, in source order.
#[derive(Debug)]
pub enum SequenceElement {
    Message(SequenceMessage),
    Activation(Activation),
    Deactivation(Activation),
    Note { participant: String, position: String, text: String },
    Block(SequenceBlock),
}

#[derive(Debug)]
pub struct SequenceDiagram {
    pub participants: Vec<Participant>,
    pub elements: Vec<SequenceElement>,
}

pub struct ParticipantModel {
    pub id: Seq<char>,
    pub alias: Option<Seq<char>>,
}

pub struct MessageModel {
    pub from: Seq<char>,
    pub to: Seq<char>,
    pub label: Seq<char>,
    pub msg_type: MessageType,
    pub kind: MessageKind,
}

pub enum ElementModel {
    Message(MessageModel),
    Activation(Seq<char>),
    Deactivation(Seq<char>),
    Note { participant: Seq<char>, position: Seq<char>, text: Seq<char> },
    Block {
        block_type: SequenceBlockType,
        label: Seq<char>,
        messages: Seq<ElementModel>,
        else_branches: Seq<(Seq<char>, Seq<ElementModel>)>,
    },
}

pub struct SequenceModel {
    pub participants: Seq<ParticipantModel>,
    pub elements: Seq<ElementModel>,
}

impl DeepView for Participant {
    type V = ParticipantModel;

    open spec fn deep_view(&self) -> ParticipantModel {
        ParticipantModel { id: self.id@, alias: self.alias.deep_view() }
    }
}

impl DeepView for SequenceMessage {
    type V = MessageModel;

    open spec fn deep_view(&self) -> MessageModel {
        MessageModel {
            from: self.from@,
            to: self.to@,
            label: self.label@,
            msg_type: self.msg_type,
            kind: self.kind,
        }
    }
}

/// The model of an element; a block's elements by `elements_model`.
pub open spec fn element_model(e: SequenceElement) -> ElementModel
    decreases e,
{
    match e {
        SequenceElement::Message(m) => ElementModel::Message(m.deep_view()),
        SequenceElement::Activation(a) => ElementModel::Activation(a.participant@),
        SequenceElement::Deactivation(a) => ElementModel::Deactivation(a.participant@),
        SequenceElement::Note { participant, position, text } => ElementModel::Note {
            participant: participant@,
            position: position@,
            text: text@,
        },
        SequenceElement::Block(b) => ElementModel::Block {
            block_type: b.block_type,
            label: b.label@,
            messages: elements_model(b.messages@),
            else_branches: branches_model(b.else_branches@),
        },
    }
}

/// The models of a run of elements.
pub open spec fn elements_model(s: Seq<SequenceElement>) -> Seq<ElementModel>
    decreases s,
{
    if s.len() == 0 {
        Seq::empty()
    } else {
        elements_model(s.subrange(0, s.len() - 1)).push(element_model(s[s.len() - 1]))
    }
}

/// The models of a block's further branches.
pub open spec fn branches_model(s: Seq<(String, Vec<SequenceElement>)>) -> Seq<(Seq<char>, Seq<ElementModel>)>
    decreases s,
{
    if s.len() == 0 {
        Seq::empty()
    } else {
        branches_model(s.subrange(0, s.len() - 1)).push(
            (s[s.len() - 1].0@, elements_model(s[s.len() - 1].1@)),
        )
    }
}

impl DeepView for SequenceElement {
    type V = ElementModel;

    open spec fn deep_view(&self) -> ElementModel {
        element_model(*self)
    }
}

impl DeepView for SequenceDiagram {
    type V = SequenceModel;

    open spec fn deep_view(&self) -> SequenceModel {
        SequenceModel {
            participants: self.participants.deep_view(),
            elements: elements_model(self.elements@),
        }
    }
}

// ----- class diagram -----
#[derive(Debug, Clone)]
pub struct ClassMember {
    pub visibility: Visibility,
    pub name: String,
    pub is_static: bool,
    pub is_abstract: bool,
}

#[derive(Debug, Clone)]
pub struct ClassAttribute {
    pub member: ClassMember,
    pub type_annotation: Option<String>,
}

#[derive(Debug, Clone)]
pub struct ClassMethod {
    pub member: ClassMember,
    pub parameters: Vec<(String, Option<String>)>,
    pub return_type: Option<String>,
}

#[derive(Debug, Clone)]
pub struct ClassDefinition {
    pub name: String,
    pub stereotype: Option<String>,
    pub attributes: Vec<ClassAttribute>,
    pub methods: Vec<ClassMethod>,
    pub is_abstract: bool,
    pub is_interface: bool,
}

#[derive(Debug, Clone)]
pub struct ClassRelation {
    pub from: String,
    pub to: String,
    pub relation_type: ClassRelationType,
    pub label: Option<String>,
    pub multiplicity_from: Option<String>,
    pub multiplicity_to: Option<String>,
}

#[derive(Debug, Clone)]
pub struct ClassDiagram {
    pub classes: Vec<ClassDefinition>,
    pub relations: Vec<ClassRelation>,
}

pub struct MemberModel {
    pub visibility: Visibility,
    pub name: Seq<char>,
    pub is_static: bool,
    pub is_abstract: bool,
}

pub struct AttributeModel {
    pub member: MemberModel,
    pub type_annotation: Option<Seq<char>>,
}

pub struct MethodModel {
    pub member: MemberModel,
    pub parameters: Seq<(Seq<char>, Option<Seq<char>>)>,
    pub return_type: Option<Seq<char>>,
}

pub struct ClassModel {
    pub name: Seq<char>,
    pub stereotype: Option<Seq<char>>,
    pub attributes: Seq<AttributeModel>,
    pub methods: Seq<MethodModel>,
    pub is_abstract: bool,
    pub is_interface: bool,
}

pub struct RelationModel {
    pub from: Seq<char>,
    pub to: Seq<char>,
    pub relation_type: ClassRelationType,
    pub label: Option<Seq<char>>,
    pub multiplicity_from: Option<Seq<char>>,
    pub multiplicity_to: Option<Seq<char>>,
}

pub struct ClassDiagramModel {
    pub classes: Seq<ClassModel>,
    pub relations: Seq<RelationModel>,
}

impl DeepView for ClassMember {
    type V = MemberModel;

    open spec fn deep_view(&self) -> MemberModel {
        MemberModel {
            visibility: self.visibility,
            name: self.name@,
            is_static: self.is_static,
            is_abstract: self.is_abstract,
        }
    }
}

impl DeepView for ClassAttribute {
    type V = AttributeModel;

    open spec fn deep_view(&self) -> AttributeModel {
        AttributeModel {
            member: self.member.deep_view(),
            type_annotation: self.type_annotation.deep_view(),
        }
    }
}

impl DeepView for ClassMethod {
    type V = MethodModel;

    open spec fn deep_view(&self) -> MethodModel {
        MethodModel {
            member: self.member.deep_view(),
            parameters: self.parameters.deep_view(),
            return_type: self.return_type.deep_view(),
        }
    }
}

impl DeepView for ClassDefinition {
    type V = ClassModel;

    open spec fn deep_view(&self) -> ClassModel {
        ClassModel {
            name: self.name@,
            stereotype: self.stereotype.deep_view(),
            attributes: self.attributes.deep_view(),
            methods: self.methods.deep_view(),
            is_abstract: self.is_abstract,
            is_interface: self.is_interface,
        }
    }
}

impl DeepView for ClassRelation {
    type V = RelationModel;

    open spec fn deep_view(&self) -> RelationModel {
        RelationModel {
            from: self.from@,
            to: self.to@,
            relation_type: self.relation_type,
            label: self.label.deep_view(),
            multiplicity_from: self.multiplicity_from.deep_view(),
            multiplicity_to: self.multiplicity_to.deep_view(),
        }
    }
}

impl DeepView for ClassDiagram {
    type V = ClassDiagramModel;

    open spec fn deep_view(&self) -> ClassDiagramModel {
        ClassDiagramModel {
            classes: self.classes.deep_view(),
            relations: self.relations.deep_view(),
        }
    }
}

// ----- state diagram -----
/// A state. A composite state lists, as its children, the states declared
/// in its block (each with its own children) and then the transitions
/// written there; those states are in the diagram's list of states too.
#[derive(Debug)]
pub struct State {
    pub id: String,
    pub label: String,
    pub is_start: bool,
    pub is_end: bool,
    pub is_composite: bool,
    /// The composite state this state is declared in, if any.
    pub parent: Option<String>,
    pub children: Vec<StateElement>,
}

/// A child of a composite state.
#[derive(Debug)]
pub enum StateElement {
    State(State),
    Transition(StateTransition),
}

#[derive(Debug, Clone)]
pub struct StateTransition {
    pub from: String,
    pub to: String,
    pub label: Option<String>,
    /// The composite state this transition is written in, if any.
    pub parent: Option<String>,
}

#[derive(Debug)]
pub struct StateDiagram {
    pub states: Vec<State>,
    pub transitions: Vec<StateTransition>,
}

pub struct StateModel {
    pub id: Seq<char>,
    pub label: Seq<char>,
    pub is_start: bool,
    pub is_end: bool,
    pub is_composite: bool,
    pub parent: Option<Seq<char>>,
}

pub struct TransitionModel {
    pub from: Seq<char>,
    pub to: Seq<char>,
    pub label: Option<Seq<char>>,
    pub parent: Option<Seq<char>>,
}

/// A state with its children.
pub struct StateNodeModel {
    pub id: Seq<char>,
    pub label: Seq<char>,
    pub is_start: bool,
    pub is_end: bool,
    pub is_composite: bool,
    pub parent: Option<Seq<char>>,
    pub children: Seq<StateElementModel>,
}

pub enum StateElementModel {
    State(StateNodeModel),
    Transition(TransitionModel),
}

pub struct StateDiagramModel {
    pub states: Seq<StateNodeModel>,
    pub transitions: Seq<TransitionModel>,
}

/// The model of a state, its children by `state_elements_model`.
pub open spec fn state_node_model(s: State) -> StateNodeModel
    decreases s,
{
    StateNodeModel {
        id: s.id@,
        label: s.label@,
        is_start: s.is_start,
        is_end: s.is_end,
        is_composite: s.is_composite,
        parent: s.parent.deep_view(),
        children: state_elements_model(s.children@),
    }
}

/// The models of a run of state children.
pub open spec fn state_elements_model(s: Seq<StateElement>) -> Seq<StateElementModel>
    decreases s,
{
    if s.len() == 0 {
        Seq::empty()
    } else {
        let last = match s[s.len() - 1] {
            StateElement::State(c) => StateElementModel::State(state_node_model(c)),
            StateElement::Transition(t) => StateElementModel::Transition(t.deep_view()),
        };
        state_elements_model(s.subrange(0, s.len() - 1)).push(last)
    }
}

impl DeepView for State {
    type V = StateNodeModel;

    open spec fn deep_view(&self) -> StateNodeModel {
        state_node_model(*self)
    }
}

impl DeepView for StateTransition {
    type V = TransitionModel;

    open spec fn deep_view(&self) -> TransitionModel {
        TransitionModel {
            from: self.from@,
            to: self.to@,
            label: self.label.deep_view(),
            parent: self.parent.deep_view(),
        }
    }
}

impl DeepView for StateDiagram {
    type V = StateDiagramModel;

    open spec fn deep_view(&self) -> StateDiagramModel {
        StateDiagramModel {
            states: self.states@.map_values(|st: State| state_node_model(st)),
            transitions: self.transitions.deep_view(),
        }
    }
}

// ----- entity-relationship diagram -----
#[derive(Debug, Clone)]
pub struct ErAttribute {
    pub name: String,
    pub is_key: bool,
    pub is_composite: bool,
}

#[derive(Debug, Clone)]
pub struct ErEntity {
    pub name: String,
    pub attributes: Vec<ErAttribute>,
}

#[derive(Debug, Clone)]
pub struct ErRelationship {
    pub from: String,
    pub to: String,
    pub from_cardinality: ErCardinality,
    pub to_cardinality: ErCardinality,
    pub label: Option<String>,
}

#[derive(Debug, Clone)]
pub struct ErDiagram {
    pub entities: Vec<ErEntity>,
    pub relationships: Vec<ErRelationship>,
}

pub struct ErAttributeModel {
    pub name: Seq<char>,
    pub is_key: bool,
    pub is_composite: bool,
}

pub struct EntityModel {
    pub name: Seq<char>,
    pub attributes: Seq<ErAttributeModel>,
}

pub struct ErRelationshipModel {
    pub from: Seq<char>,
    pub to: Seq<char>,
    pub from_cardinality: ErCardinality,
    pub to_cardinality: ErCardinality,
    pub label: Option<Seq<char>>,
}

pub struct ErDiagramModel {
    pub entities: Seq<EntityModel>,
    pub relationships: Seq<ErRelationshipModel>,
}

impl DeepView for ErAttribute {
    type V = ErAttributeModel;

    open spec fn deep_view(&self) -> ErAttributeModel {
        ErAttributeModel { name: self.name@, is_key: self.is_key, is_composite: self.is_composite }
    }
}

impl DeepView for ErEntity {
    type V = EntityModel;

    open spec fn deep_view(&self) -> EntityModel {
        EntityModel { name: self.name@, attributes: self.attributes.deep_view() }
    }
}

impl DeepView for ErRelationship {
    type V = ErRelationshipModel;

    open spec fn deep_view(&self) -> ErRelationshipModel {
        ErRelationshipModel {
            from: self.from@,
            to: self.to@,
            from_cardinality: self.from_cardinality,
            to_cardinality: self.to_cardinality,
            label: self.label.deep_view(),
        }
    }
}

impl DeepView for ErDiagram {
    type V = ErDiagramModel;

    open spec fn deep_view(&self) -> ErDiagramModel {
        ErDiagramModel {
            entities: self.entities.deep_view(),
            relationships: self.relationships.deep_view(),
        }
    }
}


// ----- any diagram -----
/// A parsed Mermaid diagram of one of the supported kinds.
#[derive(Debug)]
pub enum MermaidDiagram {
    Flowchart(Flowchart),
    Sequence(SequenceDiagram),
    ClassDiagram(ClassDiagram),
    StateDiagram(StateDiagram),
    ErDiagram(ErDiagram),
}

/// The diagram kinds, each with its syntax tree.
#[derive(Debug)]
pub enum DiagramKind {
    Flowchart(Flowchart),
    Sequence(SequenceDiagram),
    ClassDiagram(ClassDiagram),
    StateDiagram(StateDiagram),
    ErDiagram(ErDiagram),
}

pub enum DiagramModel {
    Flowchart(FlowchartModel),
    Sequence(SequenceModel),
    ClassDiagram(ClassDiagramModel),
    StateDiagram(StateDiagramModel),
    ErDiagram(ErDiagramModel),
}

impl DeepView for MermaidDiagram {
    type V = DiagramModel;

    open spec fn deep_view(&self) -> DiagramModel {
        match self {
            MermaidDiagram::Flowchart(d) => DiagramModel::Flowchart(d.deep_view()),
            MermaidDiagram::Sequence(d) => DiagramModel::Sequence(d.deep_view()),
            MermaidDiagram::ClassDiagram(d) => DiagramModel::ClassDiagram(d.deep_view()),
            MermaidDiagram::StateDiagram(d) => DiagramModel::StateDiagram(d.deep_view()),
            MermaidDiagram::ErDiagram(d) => DiagramModel::ErDiagram(d.deep_view()),
        }
    }
}

} // verus!
