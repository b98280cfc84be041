//! Line-oriented parser for Mermaid diagram sources.
//!
//! Each diagram kind is read line by line; the meaning of a source is given
//! by spec functions that fold a per-line step over `lines(trim(input))`, and
//! every executable function is proved to compute exactly that model.
use vstd::prelude::*;
use crate::text::{
    after, ascii_lower, char_alphanumeric, chars_to_string, contains, contains_chars, decimal,
    decimal_chars,
    ends_with, eq_chars, find, find_char, find_chars, string_chars, str_to_lowercase, is_alphanumeric_char, lemma_find_bounds, lines,
    lemma_find_from_result, slice_to_vec, split_lines, starts_with, starts_with_chars, str_to_chars, trim, trim_chars,
    unicode_lower, split_char, split_char_exec, trim_end_matches, trim_end_matches_chars,
    ends_with_chars, trim_matches, trim_matches_chars, trim_start, lemma_trim_start_is_suffix,
    lemma_trim_end_is_prefix,
};
use super::types::{
    Activation, ArrowType, EdgeModel, EdgeStyle, ElementModel, FlowDirection, Flowchart,
    FlowchartEdge, FlowchartModel, FlowchartNode, MessageKind, MessageModel, MessageType, NodeModel,
    NodeShape, Participant, ParticipantModel, SequenceDiagram, SequenceElement, SequenceMessage,
    SequenceModel, Subgraph, SubgraphModel, SequenceBlockType, AttributeModel, ClassAttribute, ClassDefinition,
    ClassDiagram, ClassDiagramModel, ClassMember, ClassMethod, ClassModel, ClassRelation,
    ClassRelationType, MemberModel, MethodModel, RelationModel, Visibility, State, StateDiagram,
    StateDiagramModel, StateModel, StateTransition, TransitionModel, EntityModel, ErCardinality,
    ErDiagram, ErDiagramModel, ErEntity, ErRelationship, ErRelationshipModel, ErAttributeModel,
    DiagramModel, MermaidDiagram, ErAttribute, SequenceBlock, element_model, elements_model,
    branches_model, StateElement, StateElementModel, StateNodeModel, state_node_model,
    state_elements_model,
};

verus! {

broadcast use vstd::seq::group_seq_axioms;

/// A node as written in a source: identifier, label and shape.
pub type NodeInfo = (Seq<char>, Seq<char>, NodeShape);

pub open spec fn info_view(r: Option<(Vec<char>, Vec<char>, NodeShape)>) -> Option<NodeInfo> {
    match r {
        Some((a, b, c)) => Some((a@, b@, c)),
        None => None,
    }
}

/// Index of the first entry among `ops(k)..ops(n-1)` that occurs in `line`.
pub open spec fn first_op(line: Seq<char>, ops: spec_fn(int) -> Seq<char>, k: int, n: int) -> Option<
    int,
>
    decreases n - k,
{
    if k >= n {
        None
    } else if contains(line, ops(k)) {
        Some(k)
    } else {
        first_op(line, ops, k + 1, n)
    }
}

pub proof fn lemma_first_op_range(line: Seq<char>, ops: spec_fn(int) -> Seq<char>, k: int, n: int)
    ensures
        first_op(line, ops, k, n) matches Some(j) ==> k <= j < n && contains(line, ops(j)),
    decreases n - k,
{
    if k < n && !contains(line, ops(k)) {
        lemma_first_op_range(line, ops, k + 1, n);
    }
}

// =====================================================================
// Flowchart
// =====================================================================

/// Edge operators in the order they are tried: two-headed ones before the
/// one-headed operators they contain, and each operator before its prefixes.
/// Each entry: text, line style, head and tail arrows.
pub open spec fn edge_op(k: int) -> (Seq<char>, EdgeStyle, ArrowType, ArrowType) {
    if k == 0 {
        (seq!['<', '=', '=', '>'], EdgeStyle::Thick, ArrowType::Arrow, ArrowType::Arrow)
    } else if k == 1 {
        (seq!['<', '-', '-', '>'], EdgeStyle::Solid, ArrowType::Arrow, ArrowType::Arrow)
    } else if k == 2 {
        (seq!['=', '=', '>'], EdgeStyle::Thick, ArrowType::Arrow, ArrowType::NoArrow)
    } else if k == 3 {
        (seq!['-', '-', '-'], EdgeStyle::Solid, ArrowType::NoArrow, ArrowType::NoArrow)
    } else if k == 4 {
        (seq!['-', '-', '>'], EdgeStyle::Solid, ArrowType::Arrow, ArrowType::NoArrow)
    } else if k == 5 {
        (seq!['-', '.', '-', '>'], EdgeStyle::Dotted, ArrowType::Arrow, ArrowType::NoArrow)
    } else if k == 6 {
        (seq!['-', '.', '-'], EdgeStyle::Dotted, ArrowType::NoArrow, ArrowType::NoArrow)
    } else if k == 7 {
        (seq!['-', '-', 'o'], EdgeStyle::Solid, ArrowType::Circle, ArrowType::NoArrow)
    } else if k == 8 {
        (seq!['-', '-', 'x'], EdgeStyle::Solid, ArrowType::Cross, ArrowType::NoArrow)
    } else if k == 9 {
        (seq!['<', '-', '-'], EdgeStyle::Solid, ArrowType::NoArrow, ArrowType::Arrow)
    } else if k == 10 {
        (seq!['<', '=', '='], EdgeStyle::Thick, ArrowType::NoArrow, ArrowType::Arrow)
    } else if k == 11 {
        (seq!['<', '-', '.'], EdgeStyle::Dotted, ArrowType::NoArrow, ArrowType::Arrow)
    } else if k == 12 {
        (seq!['-', '>', '>'], EdgeStyle::Solid, ArrowType::Arrow, ArrowType::Arrow)
    } else if k == 13 {
        (seq!['-', '>'], EdgeStyle::Solid, ArrowType::Arrow, ArrowType::NoArrow)
    } else {
        (seq!['-', '-'], EdgeStyle::Solid, ArrowType::NoArrow, ArrowType::NoArrow)
    }
}

pub open spec fn edge_op_text() -> spec_fn(int) -> Seq<char> {
    |k: int| edge_op(k).0
}

/// Node delimiters, longest first: opening, closing text and the shape.
pub open spec fn shape_delims(k: int) -> (Seq<char>, Seq<char>, NodeShape) {
    if k == 0 {
        (seq!['(', '(', '('], seq![')', ')', ')'], NodeShape::DoubleCircle)
    } else if k == 1 {
        (seq!['[', '['], seq![']', ']'], NodeShape::Subroutine)
    } else if k == 2 {
        (seq!['(', '('], seq![')', ')'], NodeShape::Circle)
    } else if k == 3 {
        (seq!['[', '('], seq![')', ']'], NodeShape::Cylinder)
    } else if k == 4 {
        (seq!['(', '['], seq![']', ')'], NodeShape::Stadium)
    } else if k == 5 {
        (seq!['[', '/'], seq!['/', ']'], NodeShape::Parallelogram)
    } else if k == 6 {
        (seq!['[', '\\'], seq!['\\', ']'], NodeShape::ParallelogramAlt)
    } else if k == 7 {
        (seq!['[', '/'], seq!['\\', ']'], NodeShape::Trapezoid)
    } else if k == 8 {
        (seq!['[', '\\'], seq!['/', ']'], NodeShape::TrapezoidAlt)
    } else if k == 9 {
        (seq!['{', '{'], seq!['}', '}'], NodeShape::Hexagon)
    } else if k == 10 {
        (seq!['['], seq![']'], NodeShape::Rect)
    } else if k == 11 {
        (seq!['('], seq![')'], NodeShape::RoundedRect)
    } else {
        (seq!['{'], seq!['}'], NodeShape::Rhombus)
    }
}

/// The first delimiter pair from entry `k` on that encloses a label after a
/// non-empty identifier: `id[Label]`, `id((Label))`, ...
pub open spec fn shaped_node(p: Seq<char>, k: int) -> Option<NodeInfo>
    decreases 13 - k,
{
    if k < 0 || k >= 13 {
        None
    } else {
        let (open, close, shape) = shape_delims(k);
        match find(p, open) {
            Some(pos) => {
                let inner = after(p, pos + open.len());
                match find(inner, close) {
                    Some(end) => {
                        let id = trim(p.subrange(0, pos));
                        if id.len() > 0 {
                            Some((id, trim(inner.subrange(0, end)), shape))
                        } else {
                            shaped_node(p, k + 1)
                        }
                    },
                    None => shaped_node(p, k + 1),
                }
            },
            None => shaped_node(p, k + 1),
        }
    }
}

/// Texts that end a plain node identifier.
pub open spec fn id_stop(k: int) -> Seq<char> {
    if k == 0 {
        seq!['[', '[']
    } else if k == 1 {
        seq!['(', '(']
    } else if k == 2 {
        seq!['[', '/']
    } else if k == 3 {
        seq!['[', '\\']
    } else if k == 4 {
        seq!['[']
    } else if k == 5 {
        seq!['(']
    } else if k == 6 {
        seq!['{']
    } else {
        seq!['<']
    }
}

pub open spec fn id_stop_text() -> spec_fn(int) -> Seq<char> {
    |k: int| id_stop(k)
}

/// Characters of a bare identifier.
pub open spec fn is_id_char(c: char) -> bool {
    char_alphanumeric(c) || c == '_' || c == '-'
}

/// The longest prefix of identifier characters.
pub open spec fn id_prefix(s: Seq<char>) -> Seq<char>
    decreases s.len(),
{
    if s.len() > 0 && is_id_char(s[0]) {
        seq![s[0]] + id_prefix(s.drop_first())
    } else {
        Seq::empty()
    }
}

/// The identifier of a node reference: the text before its first bracket,
/// or else its leading identifier characters.
pub open spec fn node_id(part: Seq<char>) -> Option<Seq<char>> {
    let p = trim(part);
    match first_op(p, id_stop_text(), 0, 8) {
        Some(k) => Some(trim(p.subrange(0, find(p, id_stop(k)).unwrap()))),
        None => {
            let id = id_prefix(p);
            if id.len() == 0 {
                None
            } else {
                Some(id)
            }
        },
    }
}

/// A node reference: shaped if it has delimiters, else a rounded node
/// labelled with its own identifier.
pub open spec fn node_info(part: Seq<char>) -> Option<NodeInfo> {
    let p = trim(part);
    match shaped_node(p, 0) {
        Some(r) => Some(r),
        None => match node_id(p) {
            Some(id) => Some((id, id, NodeShape::RoundedRect)),
            None => None,
        },
    }
}

/// A node definition line: `id` followed by a delimited label.
pub open spec fn node_definition(line: Seq<char>) -> Option<NodeInfo> {
    shaped_node(trim(line), 0)
}

/// An edge line: source, target, optional `|label|`, style and arrow ends.
pub type EdgeInfo = (NodeInfo, NodeInfo, Option<Seq<char>>, EdgeStyle, ArrowType, ArrowType);

pub open spec fn edge_line(line: Seq<char>) -> Option<EdgeInfo> {
    match first_op(line, edge_op_text(), 0, 15) {
        None => None,
        Some(k) => {
            let (op, style, head, tail) = edge_op(k);
            let pos = find(line, op).unwrap();
            let from_part = trim(line.subrange(0, pos));
            let target = edge_target(after(line, pos + op.len()));
            match (node_info(from_part), node_info(target.0)) {
                (Some(f), Some(t)) => Some((f, t, target.1, style, head, tail)),
                _ => None,
            }
        },
    }
}

/// The target part after an edge operator, and the `|label|` before it.
pub open spec fn edge_target(rest: Seq<char>) -> (Seq<char>, Option<Seq<char>>) {
    if starts_with(rest, seq!['|']) {
        match find(after(rest, 1), seq!['|']) {
            Some(e) => (trim(after(rest, e + 2)), Some(trim(rest.subrange(1, e + 1)))),
            None => (trim(rest), None),
        }
    } else {
        (trim(rest), None)
    }
}

/// Layout direction named on the header line.
pub open spec fn flow_direction(first: Seq<char>) -> FlowDirection {
    let l = unicode_lower(first);
    if contains(l, seq!['t', 'b']) || contains(l, seq!['t', 'd']) {
        FlowDirection::TopDown
    } else if contains(l, seq!['b', 't']) {
        FlowDirection::BottomUp
    } else if contains(l, seq!['l', 'r']) {
        FlowDirection::LeftRight
    } else if contains(l, seq!['r', 'l']) {
        FlowDirection::RightLeft
    } else {
        FlowDirection::TopDown
    }
}

pub open spec fn kw_subgraph() -> Seq<char> {
    seq!['s', 'u', 'b', 'g', 'r', 'a', 'p', 'h', ' ']
}

pub open spec fn kw_end() -> Seq<char> {
    seq!['e', 'n', 'd']
}

pub open spec fn kw_comment() -> Seq<char> {
    seq!['%', '%']
}

pub open spec fn subgraph_id(n: nat) -> Seq<char> {
    seq!['s', 'u', 'b', 'g', 'r', 'a', 'p', 'h', '_'] + decimal(n)
}

/// Parser state between flowchart lines.
pub struct FlowState {
    pub nodes: Seq<NodeModel>,
    pub edges: Seq<EdgeModel>,
    pub subgraphs: Seq<SubgraphModel>,
    pub open_subgraph: Option<SubgraphModel>,
}

pub open spec fn has_node(nodes: Seq<NodeModel>, id: Seq<char>) -> bool {
    exists|i: int| 0 <= i < nodes.len() && nodes[i].id == id
}

pub open spec fn info_node(info: NodeInfo) -> NodeModel {
    NodeModel { id: info.0, label: info.1, shape: info.2 }
}

/// Registers a node the first time its identifier is seen.
pub open spec fn with_node(nodes: Seq<NodeModel>, info: NodeInfo) -> Seq<NodeModel> {
    if has_node(nodes, info.0) {
        nodes
    } else {
        nodes.push(info_node(info))
    }
}

/// How one flowchart line changes the parser state.
pub open spec fn flow_step(st: FlowState, raw: Seq<char>) -> FlowState {
    let line = trim(raw);
    if line.len() == 0 || starts_with(line, kw_comment()) {
        st
    } else if starts_with(line, kw_subgraph()) {
        FlowState {
            open_subgraph: Some(
                SubgraphModel {
                    id: subgraph_id(st.subgraphs.len()),
                    title: trim(after(line, 9)),
                    nodes: Seq::empty(),
                },
            ),
            ..st
        }
    } else if line == kw_end() {
        match st.open_subgraph {
            Some(sg) => FlowState {
                subgraphs: st.subgraphs.push(sg),
                open_subgraph: None,
                ..st
            },
            None => st,
        }
    } else {
        match edge_line(line) {
            Some((f, t, label, style, head, tail)) => FlowState {
                nodes: with_node(with_node(st.nodes, f), t),
                edges: st.edges.push(
                    EdgeModel {
                        from: f.0,
                        to: t.0,
                        label,
                        style,
                        arrow_head: head,
                        arrow_tail: tail,
                        min_length: 1,
                    },
                ),
                ..st
            },
            None => match node_definition(line) {
                Some(info) => FlowState {
                    nodes: st.nodes.push(info_node(info)),
                    open_subgraph: match st.open_subgraph {
                        Some(sg) => Some(SubgraphModel { nodes: sg.nodes.push(info.0), ..sg }),
                        None => None,
                    },
                    ..st
                },
                None => st,
            },
        }
    }
}

pub open spec fn flow_fold(ls: Seq<Seq<char>>, n: int) -> FlowState
    decreases n,
{
    if n <= 0 {
        FlowState {
            nodes: Seq::empty(),
            edges: Seq::empty(),
            subgraphs: Seq::empty(),
            open_subgraph: None,
        }
    } else {
        flow_step(flow_fold(ls, n - 1), ls[n - 1])
    }
}

/// The lines after the header line.
pub open spec fn body_lines(input: Seq<char>) -> Seq<Seq<char>> {
    let ls = lines(input);
    if ls.len() > 0 {
        ls.drop_first()
    } else {
        Seq::empty()
    }
}

/// The header line (empty if there is none).
pub open spec fn header_line(input: Seq<char>) -> Seq<char> {
    let ls = lines(input);
    if ls.len() > 0 {
        ls[0]
    } else {
        Seq::empty()
    }
}

/// The flowchart a source describes; a subgraph left open is dropped.
pub open spec fn flowchart_model(input: Seq<char>) -> FlowchartModel {
    let body = body_lines(input);
    let st = flow_fold(body, body.len() as int);
    FlowchartModel {
        direction: flow_direction(header_line(input)),
        nodes: st.nodes,
        edges: st.edges,
        subgraphs: st.subgraphs,
    }
}

// ----- executable flowchart parser -----

fn edge_op_exec(k: usize) -> (r: (Vec<char>, EdgeStyle, ArrowType, ArrowType))
    requires
        k < 15,
    ensures
        r.0@ == edge_op(k as int).0,
        r.1 == edge_op(k as int).1,
        r.2 == edge_op(k as int).2,
        r.3 == edge_op(k as int).3,
{
    if k == 0 {
        (vec!['<', '=', '=', '>'], EdgeStyle::Thick, ArrowType::Arrow, ArrowType::Arrow)
    } else if k == 1 {
        (vec!['<', '-', '-', '>'], EdgeStyle::Solid, ArrowType::Arrow, ArrowType::Arrow)
    } else if k == 2 {
        (vec!['=', '=', '>'], EdgeStyle::Thick, ArrowType::Arrow, ArrowType::NoArrow)
    } else if k == 3 {
        (vec!['-', '-', '-'], EdgeStyle::Solid, ArrowType::NoArrow, ArrowType::NoArrow)
    } else if k == 4 {
        (vec!['-', '-', '>'], EdgeStyle::Solid, ArrowType::Arrow, ArrowType::NoArrow)
    } else if k == 5 {
        (vec!['-', '.', '-', '>'], EdgeStyle::Dotted, ArrowType::Arrow, ArrowType::NoArrow)
    } else if k == 6 {
        (vec!['-', '.', '-'], EdgeStyle::Dotted, ArrowType::NoArrow, ArrowType::NoArrow)
    } else if k == 7 {
        (vec!['-', '-', 'o'], EdgeStyle::Solid, ArrowType::Circle, ArrowType::NoArrow)
    } else if k == 8 {
        (vec!['-', '-', 'x'], EdgeStyle::Solid, ArrowType::Cross, ArrowType::NoArrow)
    } else if k == 9 {
        (vec!['<', '-', '-'], EdgeStyle::Solid, ArrowType::NoArrow, ArrowType::Arrow)
    } else if k == 10 {
        (vec!['<', '=', '='], EdgeStyle::Thick, ArrowType::NoArrow, ArrowType::Arrow)
    } else if k == 11 {
        (vec!['<', '-', '.'], EdgeStyle::Dotted, ArrowType::NoArrow, ArrowType::Arrow)
    } else if k == 12 {
        (vec!['-', '>', '>'], EdgeStyle::Solid, ArrowType::Arrow, ArrowType::Arrow)
    } else if k == 13 {
        (vec!['-', '>'], EdgeStyle::Solid, ArrowType::Arrow, ArrowType::NoArrow)
    } else {
        (vec!['-', '-'], EdgeStyle::Solid, ArrowType::NoArrow, ArrowType::NoArrow)
    }
}

fn shape_delims_exec(k: usize) -> (r: (Vec<char>, Vec<char>, NodeShape))
    requires
        k < 13,
    ensures
        r.0@ == shape_delims(k as int).0,
        r.1@ == shape_delims(k as int).1,
        r.2 == shape_delims(k as int).2,
{
    if k == 0 {
        (vec!['(', '(', '('], vec![')', ')', ')'], NodeShape::DoubleCircle)
    } else if k == 1 {
        (vec!['[', '['], vec![']', ']'], NodeShape::Subroutine)
    } else if k == 2 {
        (vec!['(', '('], vec![')', ')'], NodeShape::Circle)
    } else if k == 3 {
        (vec!['[', '('], vec![')', ']'], NodeShape::Cylinder)
    } else if k == 4 {
        (vec!['(', '['], vec![']', ')'], NodeShape::Stadium)
    } else if k == 5 {
        (vec!['[', '/'], vec!['/', ']'], NodeShape::Parallelogram)
    } else if k == 6 {
        (vec!['[', '\\'], vec!['\\', ']'], NodeShape::ParallelogramAlt)
    } else if k == 7 {
        (vec!['[', '/'], vec!['\\', ']'], NodeShape::Trapezoid)
    } else if k == 8 {
        (vec!['[', '\\'], vec!['/', ']'], NodeShape::TrapezoidAlt)
    } else if k == 9 {
        (vec!['{', '{'], vec!['}', '}'], NodeShape::Hexagon)
    } else if k == 10 {
        (vec!['['], vec![']'], NodeShape::Rect)
    } else if k == 11 {
        (vec!['('], vec![')'], NodeShape::RoundedRect)
    } else {
        (vec!['{'], vec!['}'], NodeShape::Rhombus)
    }
}

fn id_stop_exec(k: usize) -> (r: Vec<char>)
    requires
        k < 8,
    ensures
        r@ == id_stop(k as int),
{
    if k == 0 {
        vec!['[', '[']
    } else if k == 1 {
        vec!['(', '(']
    } else if k == 2 {
        vec!['[', '/']
    } else if k == 3 {
        vec!['[', '\\']
    } else if k == 4 {
        vec!['[']
    } else if k == 5 {
        vec!['(']
    } else if k == 6 {
        vec!['{']
    } else {
        vec!['<']
    }
}

fn shaped_node_exec(p: &[char]) -> (r: Option<(Vec<char>, Vec<char>, NodeShape)>)
    ensures
        info_view(r) == shaped_node(p@, 0),
{
    let plen = p.len();
    let mut k: usize = 0;
    while k < 13
        invariant
            k <= 13,
            plen == p@.len(),
            shaped_node(p@, 0) == shaped_node(p@, k as int),
        decreases 13 - k,
    {
        let (open, close, shape) = shape_delims_exec(k);
        match find_chars(p, open.as_slice()) {
            Some(pos) => {
                proof {
                    lemma_find_bounds(p@, open@);
                }
                let inner = slice_to_vec(p, pos + open.len(), p.len());
                match find_chars(inner.as_slice(), close.as_slice()) {
                    Some(end) => {
                        proof {
                            lemma_find_bounds(inner@, close@);
                        }
                        let head = slice_to_vec(p, 0, pos);
                        let id = trim_chars(head.as_slice());
                        if id.len() > 0 {
                            let lab = slice_to_vec(inner.as_slice(), 0, end);
                            let label = trim_chars(lab.as_slice());
                            return Some((id, label, shape));
                        }
                    },
                    None => {},
                }
            },
            None => {},
        }
        k += 1;
    }
    None
}

/// The first entry of a table that occurs in `line`.
fn first_edge_op(line: &[char]) -> (r: Option<usize>)
    ensures
        r matches Some(k) ==> k < 15 && first_op(line@, edge_op_text(), 0, 15) == Some(k as int),
        r is None ==> first_op(line@, edge_op_text(), 0, 15) is None,
{
    let mut k: usize = 0;
    while k < 15
        invariant
            k <= 15,
            first_op(line@, edge_op_text(), 0, 15) == first_op(line@, edge_op_text(), k as int, 15),
        decreases 15 - k,
    {
        let (op, _, _, _) = edge_op_exec(k);
        if contains_chars(line, op.as_slice()) {
            return Some(k);
        }
        k += 1;
    }
    None
}

fn first_id_stop(p: &[char]) -> (r: Option<usize>)
    ensures
        r matches Some(k) ==> k < 8 && first_op(p@, id_stop_text(), 0, 8) == Some(k as int),
        r is None ==> first_op(p@, id_stop_text(), 0, 8) is None,
{
    let mut k: usize = 0;
    while k < 8
        invariant
            k <= 8,
            first_op(p@, id_stop_text(), 0, 8) == first_op(p@, id_stop_text(), k as int, 8),
        decreases 8 - k,
    {
        let stop = id_stop_exec(k);
        if contains_chars(p, stop.as_slice()) {
            return Some(k);
        }
        k += 1;
    }
    None
}

fn id_prefix_exec(s: &[char]) -> (r: Vec<char>)
    ensures
        r@ == id_prefix(s@),
{
    let mut i: usize = 0;
    while i < s.len() && (is_alphanumeric_char(s[i]) || s[i] == '_' || s[i] == '-')
        invariant
            i <= s@.len(),
            forall|m: int| 0 <= m < i ==> is_id_char(#[trigger] s@[m]),
        decreases s@.len() - i,
    {
        i += 1;
    }
    proof {
        lemma_id_prefix_len(s@, i as int);
    }
    slice_to_vec(s, 0, i)
}

proof fn lemma_id_prefix_len(s: Seq<char>, i: int)
    requires
        0 <= i <= s.len(),
        forall|m: int| 0 <= m < i ==> is_id_char(#[trigger] s[m]),
        i == s.len() || !is_id_char(s[i]),
    ensures
        id_prefix(s) == s.subrange(0, i),
    decreases i,
{
    if i > 0 {
        lemma_id_prefix_len(s.drop_first(), i - 1);
        assert(seq![s[0]] + s.drop_first().subrange(0, i - 1) == s.subrange(0, i));
    } else {
        if s.len() > 0 {
            assert(!is_id_char(s[0]));
        }
    }
}

fn node_id_exec(part: &[char]) -> (r: Option<Vec<char>>)
    ensures
        r matches Some(v) ==> node_id(part@) == Some(v@),
        r is None ==> node_id(part@) is None,
{
    let p = trim_chars(part);
    match first_id_stop(p.as_slice()) {
        Some(k) => {
            let stop = id_stop_exec(k);
            proof {
                lemma_first_op_range(p@, id_stop_text(), 0, 8);
                lemma_find_bounds(p@, stop@);
            }
            let pos = find_chars(p.as_slice(), stop.as_slice()).unwrap();
            let head = slice_to_vec(p.as_slice(), 0, pos);
            Some(trim_chars(head.as_slice()))
        },
        None => {
            let id = id_prefix_exec(p.as_slice());
            if id.len() == 0 {
                None
            } else {
                Some(id)
            }
        },
    }
}

fn node_info_exec(part: &[char]) -> (r: Option<(Vec<char>, Vec<char>, NodeShape)>)
    ensures
        info_view(r) == node_info(part@),
{
    let p = trim_chars(part);
    match shaped_node_exec(p.as_slice()) {
        Some(r) => Some(r),
        None => match node_id_exec(p.as_slice()) {
            Some(id) => {
                let label = id.clone();
                Some((id, label, NodeShape::RoundedRect))
            },
            None => None,
        },
    }
}

/// Splits a node reference into identifier, label and shape: `A[Start]`
/// gives `("A", "Start", Rect)`, a bare `D` gives `("D", "D", RoundedRect)`.
pub fn extract_node_info(part: &str) -> (r: Option<(String, String, NodeShape)>)
    ensures
        r matches Some((id, label, shape)) ==> node_info(part@) == Some((id@, label@, shape)),
        r is None ==> node_info(part@) is None,
{
    let chars = str_to_chars(part);
    match node_info_exec(chars.as_slice()) {
        Some((id, label, shape)) => Some(
            (chars_to_string(id.as_slice()), chars_to_string(label.as_slice()), shape),
        ),
        None => None,
    }
}


type ExecInfo = (Vec<char>, Vec<char>, NodeShape);

type ExecEdge = (ExecInfo, ExecInfo, Option<Vec<char>>, EdgeStyle, ArrowType, ArrowType);

pub open spec fn opt_chars(o: Option<Vec<char>>) -> Option<Seq<char>> {
    match o {
        Some(v) => Some(v@),
        None => None,
    }
}

spec fn edge_view(r: Option<ExecEdge>) -> Option<EdgeInfo> {
    match r {
        Some((f, t, l, s, h, tl)) => Some(((f.0@, f.1@, f.2), (t.0@, t.1@, t.2), opt_chars(l), s, h, tl)),
        None => None,
    }
}

fn edge_line_exec(line: &[char]) -> (r: Option<ExecEdge>)
    ensures
        edge_view(r) == edge_line(line@),
{
    let k = match first_edge_op(line) {
        Some(k) => k,
        None => return None,
    };
    let (op, style, head, tail) = edge_op_exec(k);
    proof {
        lemma_first_op_range(line@, edge_op_text(), 0, 15);
        lemma_find_bounds(line@, op@);
    }
    let llen = line.len();
    let pos = find_chars(line, op.as_slice()).unwrap();
    let head_part = slice_to_vec(line, 0, pos);
    let from_part = trim_chars(head_part.as_slice());
    let rest = slice_to_vec(line, pos + op.len(), llen);
    let (to_part, label) = edge_target_exec(rest.as_slice());
    assert(from_part@ == trim(line@.subrange(0, pos as int)));
    assert(rest@ == after(line@, pos + op@.len()));
    let f = match node_info_exec(from_part.as_slice()) {
        Some(f) => f,
        None => return None,
    };
    let t = match node_info_exec(to_part.as_slice()) {
        Some(t) => t,
        None => return None,
    };
    Some((f, t, label, style, head, tail))
}

fn edge_target_exec(rest: &[char]) -> (r: (Vec<char>, Option<Vec<char>>))
    ensures
        (r.0@, opt_chars(r.1)) == edge_target(rest@),
{
    let bar = vec!['|'];
    assert(bar@ == seq!['|']);
    if starts_with_chars(rest, bar.as_slice()) {
        let tail_part = slice_to_vec(rest, 1, rest.len());
        assert(tail_part@ == after(rest@, 1));
        match find_char(tail_part.as_slice(), '|') {
            Some(e) => {
                proof {
                    lemma_find_bounds(tail_part@, seq!['|']);
                }
                let after_label = slice_to_vec(rest, e + 2, rest.len());
                let lab = slice_to_vec(rest, 1, e + 1);
                let r0 = trim_chars(after_label.as_slice());
                let r1 = trim_chars(lab.as_slice());
                assert(r0@ == trim(after(rest@, e + 2)));
                assert(r1@ == trim(rest@.subrange(1, e + 1)));
                assert(find(after(rest@, 1), seq!['|']) == Some(e as int));
                (r0, Some(r1))
            },
            None => (trim_chars(rest), None),
        }
    } else {
        (trim_chars(rest), None)
    }
}

fn contains_lit(s: &[char], a: char, b: char) -> (r: bool)
    ensures
        r == contains(s@, seq![a, b]),
{
    let p = vec![a, b];
    contains_chars(s, p.as_slice())
}

fn flow_direction_exec(first: &[char]) -> (r: FlowDirection)
    ensures
        r == flow_direction(first@),
{
    let s = chars_to_string(first);
    let lower_s = str_to_lowercase(s.as_str());
    let l = string_chars(&lower_s);
    if contains_lit(l.as_slice(), 't', 'b') || contains_lit(l.as_slice(), 't', 'd') {
        FlowDirection::TopDown
    } else if contains_lit(l.as_slice(), 'b', 't') {
        FlowDirection::BottomUp
    } else if contains_lit(l.as_slice(), 'l', 'r') {
        FlowDirection::LeftRight
    } else if contains_lit(l.as_slice(), 'r', 'l') {
        FlowDirection::RightLeft
    } else {
        FlowDirection::TopDown
    }
}

fn opt_string(o: Option<Vec<char>>) -> (r: Option<String>)
    ensures
        r.deep_view() == opt_chars(o),
{
    match o {
        Some(v) => Some(chars_to_string(v.as_slice())),
        None => None,
    }
}

/// Executable parser state between flowchart lines.
struct FlowBuilder {
    nodes: Vec<FlowchartNode>,
    edges: Vec<FlowchartEdge>,
    subgraphs: Vec<Subgraph>,
    open_subgraph: Option<Subgraph>,
}

impl FlowBuilder {
    spec fn state(&self) -> FlowState {
        FlowState {
            nodes: self.nodes.deep_view(),
            edges: self.edges.deep_view(),
            subgraphs: self.subgraphs.deep_view(),
            open_subgraph: self.open_subgraph.deep_view(),
        }
    }
}

fn has_node_exec(nodes: &Vec<FlowchartNode>, id: &[char]) -> (r: bool)
    ensures
        r == has_node(nodes.deep_view(), id@),
{
    let mut i: usize = 0;
    while i < nodes.len()
        invariant
            i <= nodes@.len(),
            forall|m: int| 0 <= m < i ==> nodes.deep_view()[m].id != id@,
        decreases nodes@.len() - i,
    {
        let nid = string_chars(&nodes[i].id);
        if eq_chars(nid.as_slice(), id) {
            assert(nodes.deep_view()[i as int].id == id@);
            return true;
        }
        i += 1;
    }
    false
}

fn make_node(info: ExecInfo) -> (n: FlowchartNode)
    ensures
        n.deep_view() == info_node((info.0@, info.1@, info.2)),
{
    FlowchartNode {
        id: chars_to_string(info.0.as_slice()),
        label: chars_to_string(info.1.as_slice()),
        shape: info.2,
    }
}

fn add_node_once(nodes: &mut Vec<FlowchartNode>, info: ExecInfo)
    ensures
        final(nodes).deep_view() == with_node(old(nodes).deep_view(), (info.0@, info.1@, info.2)),
{
    if !has_node_exec(nodes, info.0.as_slice()) {
        let ghost before = nodes.deep_view();
        let n = make_node(info);
        nodes.push(n);
        assert(nodes.deep_view() =~= before.push(info_node((info.0@, info.1@, info.2))));
    }
}

fn flow_step_exec(b: &mut FlowBuilder, raw: &[char])
    ensures
        final(b).state() == flow_step(old(b).state(), raw@),
{
    let line = trim_chars(raw);
    let comment = vec!['%', '%'];
    if line.len() == 0 || starts_with_chars(line.as_slice(), comment.as_slice()) {
        return;
    }
    let kw = vec!['s', 'u', 'b', 'g', 'r', 'a', 'p', 'h', ' '];
    if starts_with_chars(line.as_slice(), kw.as_slice()) {
        let t = slice_to_vec(line.as_slice(), 9, line.len());
        let title = trim_chars(t.as_slice());
        let mut id = vec!['s', 'u', 'b', 'g', 'r', 'a', 'p', 'h', '_'];
        let mut digits = decimal_chars(b.subgraphs.len());
        id.append(&mut digits);
        b.open_subgraph = Some(
            Subgraph {
                id: chars_to_string(id.as_slice()),
                title: chars_to_string(title.as_slice()),
                nodes: Vec::new(),
            },
        );
        assert(b.open_subgraph.deep_view() matches Some(sg) && sg.nodes =~= Seq::<Seq<char>>::empty());
        return;
    }
    let end_kw = vec!['e', 'n', 'd'];
    if eq_chars(line.as_slice(), end_kw.as_slice()) {
        let ghost before = b.subgraphs.deep_view();
        if let Some(sg) = b.open_subgraph.take() {
            b.subgraphs.push(sg);
            assert(b.subgraphs.deep_view() =~= before.push(sg.deep_view()));
        }
        return;
    }
    match edge_line_exec(line.as_slice()) {
        Some((f, t, label, style, head, tail)) => {
            let from = chars_to_string(f.0.as_slice());
            let to = chars_to_string(t.0.as_slice());
            add_node_once(&mut b.nodes, f);
            add_node_once(&mut b.nodes, t);
            let ghost before = b.edges.deep_view();
            let e = FlowchartEdge {
                from,
                to,
                label: opt_string(label),
                style,
                arrow_head: head,
                arrow_tail: tail,
                min_length: 1,
            };
            b.edges.push(e);
            assert(b.edges.deep_view() =~= before.push(e.deep_view()));
        },
        None => {
            match shaped_node_exec_trimmed(line.as_slice()) {
                Some(info) => {
                    let ghost before = b.nodes.deep_view();
                    let id = chars_to_string(info.0.as_slice());
                    let n = make_node(info);
                    b.nodes.push(n);
                    assert(b.nodes.deep_view() =~= before.push(n.deep_view()));
                    if let Some(sg) = &mut b.open_subgraph {
                        let ghost before_ids = sg.nodes.deep_view();
                        sg.nodes.push(id);
                        assert(sg.nodes.deep_view() =~= before_ids.push(id@));
                    }
                },
                None => {},
            }
        },
    }
}

fn shaped_node_exec_trimmed(line: &[char]) -> (r: Option<ExecInfo>)
    ensures
        info_view(r) == node_definition(line@),
{
    let p = trim_chars(line);
    shaped_node_exec(p.as_slice())
}

fn parse_flowchart(input: &[char]) -> (r: Flowchart)
    ensures
        r.deep_view() == flowchart_model(input@),
{
    let ls = split_lines(input);
    let ghost lv = ls@.map_values(|l: Vec<char>| l@);
    let empty: Vec<char> = Vec::new();
    let direction = if ls.len() > 0 {
        flow_direction_exec(ls[0].as_slice())
    } else {
        flow_direction_exec(empty.as_slice())
    };
    let mut b = FlowBuilder {
        nodes: Vec::new(),
        edges: Vec::new(),
        subgraphs: Vec::new(),
        open_subgraph: None,
    };
    let ghost body = body_lines(input@);
    assert(b.nodes.deep_view() =~= Seq::<NodeModel>::empty());
    assert(b.edges.deep_view() =~= Seq::<EdgeModel>::empty());
    assert(b.subgraphs.deep_view() =~= Seq::<SubgraphModel>::empty());
    assert(b.state() == flow_fold(body, 0));
    let mut i: usize = 1;
    while i < ls.len()
        invariant
            1 <= i <= ls@.len() || (ls@.len() == 0 && i == 1),
            lv == ls@.map_values(|l: Vec<char>| l@),
            lv == lines(input@),
            body == body_lines(input@),
            i >= 1,
            b.state() == flow_fold(body, i - 1),
            body.len() == if ls@.len() > 0 { ls@.len() - 1 } else { 0 },
        decreases ls@.len() - i,
    {
        assert(body[i - 1] == ls@[i as int]@);
        flow_step_exec(&mut b, ls[i].as_slice());
        i += 1;
    }
    assert(i - 1 == body.len());
    assert(direction == flow_direction(header_line(input@))) by {
        if ls@.len() > 0 {
            assert(lv[0] == ls@[0]@);
        } else {
            assert(empty@ =~= Seq::<char>::empty());
        }
    }
    Flowchart { direction, nodes: b.nodes, edges: b.edges, subgraphs: b.subgraphs }
}


// =====================================================================
// Shared helpers
// =====================================================================

/// The text before and after the first occurrence of `p`.
pub open spec fn split_once(s: Seq<char>, p: Seq<char>) -> Option<(Seq<char>, Seq<char>)> {
    match find(s, p) {
        Some(i) => Some((s.subrange(0, i), after(s, i + p.len()))),
        None => None,
    }
}

fn split_once_exec(s: &[char], p: &[char]) -> (r: Option<(Vec<char>, Vec<char>)>)
    ensures
        r matches Some((a, b)) ==> split_once(s@, p@) == Some((a@, b@)),
        r is None ==> split_once(s@, p@) is None,
{
    let sl = s.len();
    match find_chars(s, p) {
        Some(i) => {
            proof {
                lemma_find_bounds(s@, p@);
            }
            let a = slice_to_vec(s, 0, i);
            let b = slice_to_vec(s, i + p.len(), sl);
            Some((a, b))
        },
        None => None,
    }
}

/// `line` starts with `kw`, and what follows it.
fn strip_prefix_exec(line: &[char], kw: &[char]) -> (r: Option<Vec<char>>)
    ensures
        r matches Some(v) ==> starts_with(line@, kw@) && v@ == after(line@, kw@.len() as int),
        r is None ==> !starts_with(line@, kw@),
{
    if starts_with_chars(line, kw) {
        Some(slice_to_vec(line, kw.len(), line.len()))
    } else {
        None
    }
}

fn to_string_vec(v: &Vec<char>) -> (r: String)
    ensures
        r@ == v@,
{
    chars_to_string(v.as_slice())
}

// =====================================================================
// Sequence diagram
// =====================================================================

/// Message arrows, longest first: text, line type and message kind.
pub open spec fn msg_op(k: int) -> (Seq<char>, MessageType, MessageKind) {
    if k == 0 {
        (seq!['-', '-', '>', '>'], MessageType::Dotted, MessageKind::Reply)
    } else if k == 1 {
        (seq!['-', '>', '>'], MessageType::Solid, MessageKind::Sync)
    } else if k == 2 {
        (seq!['>', '>', '+'], MessageType::Solid, MessageKind::Async)
    } else if k == 3 {
        (seq!['>', '>', '-'], MessageType::Solid, MessageKind::Async)
    } else if k == 4 {
        (seq!['-', '-', '>'], MessageType::Dotted, MessageKind::Sync)
    } else if k == 5 {
        (seq!['-', '>'], MessageType::Solid, MessageKind::Sync)
    } else if k == 6 {
        (seq!['-', 'x'], MessageType::Solid, MessageKind::Sync)
    } else {
        (seq!['-', ')'], MessageType::Solid, MessageKind::Sync)
    }
}

pub open spec fn msg_op_text() -> spec_fn(int) -> Seq<char> {
    |k: int| msg_op(k).0
}

/// A message line `From->>To: label`.
pub open spec fn sequence_message(line: Seq<char>) -> Option<MessageModel> {
    match first_op(line, msg_op_text(), 0, 8) {
        None => None,
        Some(k) => {
            let (op, msg_type, kind) = msg_op(k);
            let pos = find(line, op).unwrap();
            let target = colon_parts(after(line, pos + op.len()));
            Some(
                MessageModel {
                    from: trim(line.subrange(0, pos)),
                    to: target.0,
                    label: target.1,
                    msg_type,
                    kind,
                },
            )
        },
    }
}

/// `To: label` split at its first colon; without a colon the label is empty.
pub open spec fn colon_parts(rest: Seq<char>) -> (Seq<char>, Seq<char>) {
    match split_once(rest, seq![':']) {
        Some((a, b)) => (trim(a), trim(b)),
        None => (trim(rest), Seq::empty()),
    }
}

fn colon_parts_exec(rest: &[char]) -> (r: (Vec<char>, Vec<char>))
    ensures
        (r.0@, r.1@) == colon_parts(rest@),
{
    let colon = vec![':'];
    assert(colon@ == seq![':']);
    match split_once_exec(rest, colon.as_slice()) {
        Some((a, b)) => (trim_chars(a.as_slice()), trim_chars(b.as_slice())),
        None => {
            let e: Vec<char> = Vec::new();
            assert(e@ =~= Seq::<char>::empty());
            (trim_chars(rest), e)
        },
    }
}

pub open spec fn kw_participant() -> Seq<char> {
    seq!['p', 'a', 'r', 't', 'i', 'c', 'i', 'p', 'a', 'n', 't', ' ']
}

pub open spec fn kw_actor() -> Seq<char> {
    seq!['a', 'c', 't', 'o', 'r', ' ']
}

pub open spec fn kw_activate() -> Seq<char> {
    seq!['a', 'c', 't', 'i', 'v', 'a', 't', 'e', ' ']
}

pub open spec fn kw_deactivate() -> Seq<char> {
    seq!['d', 'e', 'a', 'c', 't', 'i', 'v', 'a', 't', 'e', ' ']
}

pub open spec fn kw_as() -> Seq<char> {
    seq![' ', 'a', 's', ' ']
}

/// `participant Id` or `participant Id as Alias`.
pub open spec fn participant_decl(rest: Seq<char>) -> ParticipantModel {
    match split_once(rest, kw_as()) {
        Some((a, b)) => ParticipantModel { id: trim(a), alias: Some(trim(b)) },
        None => ParticipantModel { id: trim(rest), alias: None },
    }
}

/// `line` is the keyword `kw` alone or followed by a space and a label; the
/// label, trimmed.
pub open spec fn kw_label(line: Seq<char>, kw: Seq<char>) -> Option<Seq<char>> {
    if line == kw {
        Some(Seq::empty())
    } else if starts_with(line, kw.push(' ')) {
        Some(trim(after(line, kw.len() as int + 1)))
    } else {
        None
    }
}

/// The start of a control block: `loop`, `alt`, `opt`, `par` or `critical`,
/// and its label.
pub open spec fn block_start(line: Seq<char>) -> Option<(SequenceBlockType, Seq<char>)> {
    if let Some(l) = kw_label(line, seq!['l', 'o', 'o', 'p']) {
        Some((SequenceBlockType::Loop, l))
    } else if let Some(l) = kw_label(line, seq!['a', 'l', 't']) {
        Some((SequenceBlockType::Alt, l))
    } else if let Some(l) = kw_label(line, seq!['o', 'p', 't']) {
        Some((SequenceBlockType::Opt, l))
    } else if let Some(l) = kw_label(line, seq!['p', 'a', 'r']) {
        Some((SequenceBlockType::Par, l))
    } else if let Some(l) = kw_label(line, seq!['c', 'r', 'i', 't', 'i', 'c', 'a', 'l']) {
        Some((SequenceBlockType::Critical, l))
    } else {
        None
    }
}

/// The start of a further branch of a block: `else` (or `and` in a `par`
/// block), and its label.
pub open spec fn branch_start(line: Seq<char>) -> Option<Seq<char>> {
    if let Some(l) = kw_label(line, seq!['e', 'l', 's', 'e']) {
        Some(l)
    } else {
        kw_label(line, seq!['a', 'n', 'd'])
    }
}

/// Where a note stands, and what follows that: `right of `, `left of ` or
/// `over `.
pub open spec fn note_place(rest: Seq<char>) -> Option<(Seq<char>, Seq<char>)> {
    if starts_with(rest, "right of "@) {
        Some(("right"@, after(rest, 9)))
    } else if starts_with(rest, "left of "@) {
        Some(("left"@, after(rest, 8)))
    } else if starts_with(rest, "over "@) {
        Some(("over"@, after(rest, 5)))
    } else {
        None
    }
}

/// `Note <place> Participant: text` (or `note ...`): participant, position
/// and text.
pub open spec fn note_line(line: Seq<char>) -> Option<(Seq<char>, Seq<char>, Seq<char>)> {
    if starts_with(line, "Note "@) || starts_with(line, "note "@) {
        match note_place(after(line, 5)) {
            Some((pos, tail)) => match split_once(tail, seq![':']) {
                Some((who, text)) => Some((trim(who), pos, trim(text))),
                None => None,
            },
            None => None,
        }
    } else {
        None
    }
}

/// A control block still open: its kind and label, the elements of its
/// first branch, and its further branches so far.
pub struct FrameModel {
    pub block_type: SequenceBlockType,
    pub label: Seq<char>,
    pub messages: Seq<ElementModel>,
    pub branches: Seq<(Seq<char>, Seq<ElementModel>)>,
}

/// Parser state between sequence-diagram lines: the participants, the
/// top-level elements, and the control blocks open, innermost last.
pub struct SeqState {
    pub participants: Seq<ParticipantModel>,
    pub elements: Seq<ElementModel>,
    pub frames: Seq<FrameModel>,
}

/// A block frame with `e` added to its last branch.
pub open spec fn frame_add(f: FrameModel, e: ElementModel) -> FrameModel {
    if f.branches.len() == 0 {
        FrameModel { messages: f.messages.push(e), ..f }
    } else {
        let last = f.branches[f.branches.len() - 1];
        FrameModel { branches: f.branches.update(f.branches.len() - 1, (last.0, last.1.push(e))), ..f }
    }
}

/// The state with `e` added where the parser stands: in the innermost open
/// block, else at the top level.
pub open spec fn seq_add(st: SeqState, e: ElementModel) -> SeqState {
    if st.frames.len() == 0 {
        SeqState { elements: st.elements.push(e), ..st }
    } else {
        SeqState {
            frames: st.frames.update(st.frames.len() - 1, frame_add(st.frames[st.frames.len() - 1], e)),
            ..st
        }
    }
}

/// The block a finished frame makes.
pub open spec fn frame_block(f: FrameModel) -> ElementModel {
    ElementModel::Block { block_type: f.block_type, label: f.label, messages: f.messages, else_branches: f.branches }
}

/// The state with its innermost block closed (there is one).
pub open spec fn seq_close(st: SeqState) -> SeqState
    recommends
        st.frames.len() > 0,
{
    seq_add(SeqState { frames: st.frames.drop_last(), ..st }, frame_block(st.frames.last()))
}

/// How one sequence-diagram line changes the state. Keywords come first:
/// participants, then `end`, block starts and branches (an `end` or a branch
/// outside any block is ignored), notes; other lines are messages or
/// (de)activations, or are ignored.
pub open spec fn seq_step(st: SeqState, raw: Seq<char>) -> SeqState {
    let line = trim(raw);
    if line.len() == 0 || starts_with(line, kw_comment()) {
        st
    } else if starts_with(line, kw_participant()) {
        SeqState {
            participants: st.participants.push(participant_decl(after(line, 12))),
            ..st
        }
    } else if starts_with(line, kw_actor()) {
        SeqState {
            participants: st.participants.push(
                ParticipantModel { id: trim(after(line, 6)), alias: None },
            ),
            ..st
        }
    } else if line == kw_end() {
        if st.frames.len() > 0 {
            seq_close(st)
        } else {
            st
        }
    } else if let Some((t, l)) = block_start(line) {
        SeqState {
            frames: st.frames.push(
                FrameModel { block_type: t, label: l, messages: Seq::empty(), branches: Seq::empty() },
            ),
            ..st
        }
    } else if let Some(l) = branch_start(line) {
        if st.frames.len() > 0 {
            let f = st.frames.last();
            SeqState {
                frames: st.frames.update(
                    st.frames.len() - 1,
                    FrameModel { branches: f.branches.push((l, Seq::empty())), ..f },
                ),
                ..st
            }
        } else {
            st
        }
    } else if let Some((who, pos, text)) = note_line(line) {
        seq_add(st, ElementModel::Note { participant: who, position: pos, text })
    } else {
        match sequence_message(line) {
            Some(m) => seq_add(st, ElementModel::Message(m)),
            None => if starts_with(line, kw_activate()) {
                seq_add(st, ElementModel::Activation(trim(after(line, 9))))
            } else if starts_with(line, kw_deactivate()) {
                seq_add(st, ElementModel::Deactivation(trim(after(line, 11))))
            } else {
                st
            },
        }
    }
}

pub open spec fn seq_fold(ls: Seq<Seq<char>>, n: int) -> SeqState
    decreases n,
{
    if n <= 0 {
        SeqState { participants: Seq::empty(), elements: Seq::empty(), frames: Seq::empty() }
    } else {
        seq_step(seq_fold(ls, n - 1), ls[n - 1])
    }
}

/// The state with every open block closed, innermost first.
pub open spec fn seq_close_all(st: SeqState) -> SeqState
    decreases st.frames.len(),
{
    if st.frames.len() == 0 {
        st
    } else {
        seq_close_all(seq_close(st))
    }
}

/// The sequence diagram a source describes (its first line is the header);
/// blocks still open at the end are closed there.
pub open spec fn sequence_model(input: Seq<char>) -> SequenceModel {
    let body = body_lines(input);
    let st = seq_close_all(seq_fold(body, body.len() as int));
    SequenceModel { participants: st.participants, elements: st.elements }
}

fn msg_op_exec(k: usize) -> (r: (Vec<char>, MessageType, MessageKind))
    requires
        k < 8,
    ensures
        r.0@ == msg_op(k as int).0,
        r.1 == msg_op(k as int).1,
        r.2 == msg_op(k as int).2,
{
    if k == 0 {
        (vec!['-', '-', '>', '>'], MessageType::Dotted, MessageKind::Reply)
    } else if k == 1 {
        (vec!['-', '>', '>'], MessageType::Solid, MessageKind::Sync)
    } else if k == 2 {
        (vec!['>', '>', '+'], MessageType::Solid, MessageKind::Async)
    } else if k == 3 {
        (vec!['>', '>', '-'], MessageType::Solid, MessageKind::Async)
    } else if k == 4 {
        (vec!['-', '-', '>'], MessageType::Dotted, MessageKind::Sync)
    } else if k == 5 {
        (vec!['-', '>'], MessageType::Solid, MessageKind::Sync)
    } else if k == 6 {
        (vec!['-', 'x'], MessageType::Solid, MessageKind::Sync)
    } else {
        (vec!['-', ')'], MessageType::Solid, MessageKind::Sync)
    }
}

fn sequence_message_exec(line: &[char]) -> (r: Option<SequenceMessage>)
    ensures
        r.deep_view() == sequence_message(line@),
{
    let ll = line.len();
    let mut k: usize = 0;
    while k < 8
        invariant
            k <= 8,
            ll == line@.len(),
            first_op(line@, msg_op_text(), 0, 8) == first_op(line@, msg_op_text(), k as int, 8),
        decreases 8 - k,
    {
        let (op, msg_type, kind) = msg_op_exec(k);
        assert(msg_op_text()(k as int) == op@);
        if contains_chars(line, op.as_slice()) {
            assert(first_op(line@, msg_op_text(), 0, 8) == Some(k as int));
            proof {
                lemma_find_bounds(line@, op@);
            }
            let pos = find_chars(line, op.as_slice()).unwrap();
            let head = slice_to_vec(line, 0, pos);
            let from = trim_chars(head.as_slice());
            let rest = slice_to_vec(line, pos + op.len(), ll);
            let (to, label) = colon_parts_exec(rest.as_slice());
            assert(from@ == trim(line@.subrange(0, pos as int)));
            assert(rest@ == after(line@, pos + op@.len()));
            let m = SequenceMessage {
                from: to_string_vec(&from),
                to: to_string_vec(&to),
                label: to_string_vec(&label),
                msg_type,
                kind,
            };
            return Some(m);
        }
        k += 1;
    }
    None
}

/// An open control block while a sequence diagram is parsed.
struct SeqFrame {
    block_type: SequenceBlockType,
    label: String,
    messages: Vec<SequenceElement>,
    branches: Vec<(String, Vec<SequenceElement>)>,
}

spec fn frame_model(f: SeqFrame) -> FrameModel {
    FrameModel {
        block_type: f.block_type,
        label: f.label@,
        messages: elements_model(f.messages@),
        branches: branches_model(f.branches@),
    }
}

struct SeqBuilder {
    participants: Vec<Participant>,
    elements: Vec<SequenceElement>,
    frames: Vec<SeqFrame>,
}

impl SeqBuilder {
    spec fn state(&self) -> SeqState {
        SeqState {
            participants: self.participants.deep_view(),
            elements: elements_model(self.elements@),
            frames: self.frames@.map_values(|f: SeqFrame| frame_model(f)),
        }
    }
}

proof fn lemma_elements_push(s: Seq<SequenceElement>, e: SequenceElement)
    ensures
        elements_model(s.push(e)) == elements_model(s).push(element_model(e)),
{
    assert(s.push(e).subrange(0, s.len() as int) =~= s);
}

proof fn lemma_branches_push(s: Seq<(String, Vec<SequenceElement>)>, x: (String, Vec<SequenceElement>))
    ensures
        branches_model(s.push(x)) == branches_model(s).push((x.0@, elements_model(x.1@))),
{
    assert(s.push(x).subrange(0, s.len() as int) =~= s);
}

proof fn lemma_branches_len(s: Seq<(String, Vec<SequenceElement>)>)
    ensures
        branches_model(s).len() == s.len(),
    decreases s.len(),
{
    if s.len() > 0 {
        lemma_branches_len(s.subrange(0, s.len() - 1));
    }
}

fn elements_push(v: &mut Vec<SequenceElement>, e: SequenceElement)
    ensures
        elements_model(final(v)@) == elements_model(old(v)@).push(element_model(e)),
{
    proof {
        lemma_elements_push(v@, e);
    }
    v.push(e);
}

fn frame_push(f: &mut SeqFrame, e: SequenceElement)
    ensures
        frame_model(*final(f)) == frame_add(frame_model(*old(f)), element_model(e)),
{
    if f.branches.len() == 0 {
        elements_push(&mut f.messages, e);
    } else {
        let ghost bs = f.branches@;
        let popped = f.branches.pop().unwrap();
        proof {
            assert(bs.drop_last().push(popped) =~= bs);
            lemma_branches_push(bs.drop_last(), popped);
            lemma_branches_len(bs);
        }
        let (l, mut v) = popped;
        let ghost v0 = v;
        elements_push(&mut v, e);
        proof {
            lemma_branches_push(bs.drop_last(), (l, v));
        }
        f.branches.push((l, v));
        assert(branches_model(f.branches@) =~= branches_model(bs).update(
            bs.len() - 1,
            (l@, elements_model(v0@).push(element_model(e))),
        ));
    }
}

fn builder_add(b: &mut SeqBuilder, e: SequenceElement)
    ensures
        final(b).state() == seq_add(old(b).state(), element_model(e)),
        final(b).frames@.len() == old(b).frames@.len(),
{
    if b.frames.len() == 0 {
        elements_push(&mut b.elements, e);
    } else {
        let ghost fs = b.frames@;
        let mut f = b.frames.pop().unwrap();
        frame_push(&mut f, e);
        b.frames.push(f);
        assert(b.frames@ == fs.update(fs.len() - 1, f));
        assert(b.frames@.map_values(|g: SeqFrame| frame_model(g)) =~= fs.map_values(|g: SeqFrame| frame_model(g)).update(
            fs.len() - 1,
            frame_model(f),
        ));
    }
}

fn builder_close(b: &mut SeqBuilder)
    requires
        old(b).frames@.len() > 0,
    ensures
        final(b).state() == seq_close(old(b).state()),
        final(b).frames@.len() == old(b).frames@.len() - 1,
{
    let ghost st = b.state();
    let f = b.frames.pop().unwrap();
    let ghost fm = frame_model(f);
    assert(fm == st.frames.last());
    assert(b.frames@.map_values(|g: SeqFrame| frame_model(g)) =~= st.frames.drop_last());
    let blk = SequenceElement::Block(
        SequenceBlock { block_type: f.block_type, label: f.label, messages: f.messages, else_branches: f.branches },
    );
    assert(element_model(blk) == frame_block(fm));
    builder_add(b, blk);
}

fn kw_label_exec(line: &[char], kw: &[char]) -> (r: Option<Vec<char>>)
    ensures
        opt_chars(r) == kw_label(line@, kw@),
{
    if eq_chars(line, kw) {
        let e: Vec<char> = Vec::new();
        assert(e@ =~= Seq::<char>::empty());
        return Some(e);
    }
    let mut k = slice_to_vec(kw, 0, kw.len());
    if kw.len() >= line.len() {
        proof {
            assert(!starts_with(line@, kw@.push(' ')));
        }
        return None;
    }
    k.push(' ');
    assert(k@ =~= kw@.push(' '));
    if starts_with_chars(line, k.as_slice()) {
        let rest = slice_to_vec(line, kw.len() + 1, line.len());
        Some(trim_chars(rest.as_slice()))
    } else {
        None
    }
}

fn block_start_exec(line: &[char]) -> (r: Option<(SequenceBlockType, Vec<char>)>)
    ensures
        match r {
            Some((t, l)) => block_start(line@) == Some((t, l@)),
            None => block_start(line@) is None,
        },
{
    let kws = [
        (vec!['l', 'o', 'o', 'p'], SequenceBlockType::Loop),
        (vec!['a', 'l', 't'], SequenceBlockType::Alt),
        (vec!['o', 'p', 't'], SequenceBlockType::Opt),
        (vec!['p', 'a', 'r'], SequenceBlockType::Par),
        (vec!['c', 'r', 'i', 't', 'i', 'c', 'a', 'l'], SequenceBlockType::Critical),
    ];
    assert(kws[0].0@ == seq!['l', 'o', 'o', 'p']);
    assert(kws[1].0@ == seq!['a', 'l', 't']);
    assert(kws[2].0@ == seq!['o', 'p', 't']);
    assert(kws[3].0@ == seq!['p', 'a', 'r']);
    assert(kws[4].0@ == seq!['c', 'r', 'i', 't', 'i', 'c', 'a', 'l']);
    if let Some(l) = kw_label_exec(line, kws[0].0.as_slice()) {
        return Some((SequenceBlockType::Loop, l));
    }
    if let Some(l) = kw_label_exec(line, kws[1].0.as_slice()) {
        return Some((SequenceBlockType::Alt, l));
    }
    if let Some(l) = kw_label_exec(line, kws[2].0.as_slice()) {
        return Some((SequenceBlockType::Opt, l));
    }
    if let Some(l) = kw_label_exec(line, kws[3].0.as_slice()) {
        return Some((SequenceBlockType::Par, l));
    }
    if let Some(l) = kw_label_exec(line, kws[4].0.as_slice()) {
        return Some((SequenceBlockType::Critical, l));
    }
    None
}

fn branch_start_exec(line: &[char]) -> (r: Option<Vec<char>>)
    ensures
        opt_chars(r) == branch_start(line@),
{
    let e = vec!['e', 'l', 's', 'e'];
    let a = vec!['a', 'n', 'd'];
    assert(e@ == seq!['e', 'l', 's', 'e']);
    assert(a@ == seq!['a', 'n', 'd']);
    match kw_label_exec(line, e.as_slice()) {
        Some(l) => Some(l),
        None => kw_label_exec(line, a.as_slice()),
    }
}

fn note_line_exec(line: &[char]) -> (r: Option<(Vec<char>, Vec<char>, Vec<char>)>)
    ensures
        match r {
            Some((a, b, c)) => note_line(line@) == Some((a@, b@, c@)),
            None => note_line(line@) is None,
        },
{
    let n1 = str_to_chars("Note ");
    let n2 = str_to_chars("note ");
    if !(starts_with_chars(line, n1.as_slice()) || starts_with_chars(line, n2.as_slice())) {
        return None;
    }
    proof {
        reveal_strlit("Note ");
        reveal_strlit("note ");
    }
    let rest = slice_to_vec(line, 5, line.len());
    let right = str_to_chars("right of ");
    let left = str_to_chars("left of ");
    let over = str_to_chars("over ");
    proof {
        reveal_strlit("right of ");
        reveal_strlit("left of ");
        reveal_strlit("over ");
    }
    let (pos, tail) = if starts_with_chars(rest.as_slice(), right.as_slice()) {
        (str_to_chars("right"), slice_to_vec(rest.as_slice(), 9, rest.len()))
    } else if starts_with_chars(rest.as_slice(), left.as_slice()) {
        (str_to_chars("left"), slice_to_vec(rest.as_slice(), 8, rest.len()))
    } else if starts_with_chars(rest.as_slice(), over.as_slice()) {
        (str_to_chars("over"), slice_to_vec(rest.as_slice(), 5, rest.len()))
    } else {
        return None;
    };
    assert(note_place(after(line@, 5)) == Some((pos@, tail@)));
    let colon = vec![':'];
    assert(colon@ == seq![':']);
    match split_once_exec(tail.as_slice(), colon.as_slice()) {
        Some((who, text)) => Some((trim_chars(who.as_slice()), pos, trim_chars(text.as_slice()))),
        None => None,
    }
}

fn push_participant(v: &mut Vec<Participant>, p: Participant)
    ensures
        final(v).deep_view() == old(v).deep_view().push(p.deep_view()),
{
    let ghost before = v.deep_view();
    v.push(p);
    assert(v.deep_view() =~= before.push(p.deep_view()));
}

fn seq_step_exec(b: &mut SeqBuilder, raw: &[char])
    ensures
        final(b).state() == seq_step(old(b).state(), raw@),
        final(b).frames@.len() <= old(b).frames@.len() + 1,
{
    let line = trim_chars(raw);
    let comment = vec!['%', '%'];
    if line.len() == 0 || starts_with_chars(line.as_slice(), comment.as_slice()) {
        return;
    }
    let kw_p = vec!['p', 'a', 'r', 't', 'i', 'c', 'i', 'p', 'a', 'n', 't', ' '];
    if let Some(rest) = strip_prefix_exec(line.as_slice(), kw_p.as_slice()) {
        let as_kw = vec![' ', 'a', 's', ' '];
        let p = match split_once_exec(rest.as_slice(), as_kw.as_slice()) {
            Some((a, b2)) => {
                let id = trim_chars(a.as_slice());
                let alias = trim_chars(b2.as_slice());
                Participant { id: to_string_vec(&id), alias: Some(to_string_vec(&alias)) }
            },
            None => {
                let id = trim_chars(rest.as_slice());
                Participant { id: to_string_vec(&id), alias: None }
            },
        };
        push_participant(&mut b.participants, p);
        return;
    }
    let kw_a = vec!['a', 'c', 't', 'o', 'r', ' '];
    if let Some(rest) = strip_prefix_exec(line.as_slice(), kw_a.as_slice()) {
        let id = trim_chars(rest.as_slice());
        push_participant(&mut b.participants, Participant { id: to_string_vec(&id), alias: None });
        return;
    }
    let end = vec!['e', 'n', 'd'];
    assert(end@ == kw_end());
    if eq_chars(line.as_slice(), end.as_slice()) {
        if b.frames.len() > 0 {
            builder_close(b);
        }
        return;
    }
    if let Some((t, l)) = block_start_exec(line.as_slice()) {
        let ghost fs = b.frames@;
        let f = SeqFrame { block_type: t, label: to_string_vec(&l), messages: Vec::new(), branches: Vec::new() };
        assert(elements_model(f.messages@) =~= Seq::<ElementModel>::empty());
        assert(branches_model(f.branches@) =~= Seq::<(Seq<char>, Seq<ElementModel>)>::empty());
        b.frames.push(f);
        assert(b.frames@.map_values(|g: SeqFrame| frame_model(g)) =~= fs.map_values(|g: SeqFrame| frame_model(g)).push(
            frame_model(f),
        ));
        return;
    }
    if let Some(l) = branch_start_exec(line.as_slice()) {
        if b.frames.len() > 0 {
            let ghost fs = b.frames@;
            let mut f = b.frames.pop().unwrap();
            let ghost f0 = f;
            let e: Vec<SequenceElement> = Vec::new();
            assert(elements_model(e@) =~= Seq::<ElementModel>::empty());
            let lbl = to_string_vec(&l);
            proof {
                lemma_branches_push(f.branches@, (lbl, e));
            }
            f.branches.push((lbl, e));
            assert(frame_model(f) == FrameModel {
                branches: frame_model(f0).branches.push((l@, Seq::<ElementModel>::empty())),
                ..frame_model(f0)
            });
            b.frames.push(f);
            assert(b.frames@.map_values(|g: SeqFrame| frame_model(g)) =~= fs.map_values(|g: SeqFrame| frame_model(g)).update(
                fs.len() - 1,
                frame_model(f),
            ));
        }
        return;
    }
    if let Some((who, pos, text)) = note_line_exec(line.as_slice()) {
        builder_add(
            b,
            SequenceElement::Note {
                participant: to_string_vec(&who),
                position: to_string_vec(&pos),
                text: to_string_vec(&text),
            },
        );
        return;
    }
    match sequence_message_exec(line.as_slice()) {
        Some(m) => {
            builder_add(b, SequenceElement::Message(m));
        },
        None => {
            let kw_act = vec!['a', 'c', 't', 'i', 'v', 'a', 't', 'e', ' '];
            let kw_deact = vec!['d', 'e', 'a', 'c', 't', 'i', 'v', 'a', 't', 'e', ' '];
            if let Some(rest) = strip_prefix_exec(line.as_slice(), kw_act.as_slice()) {
                let who = trim_chars(rest.as_slice());
                builder_add(b, SequenceElement::Activation(Activation { participant: to_string_vec(&who) }));
            } else if let Some(rest) = strip_prefix_exec(line.as_slice(), kw_deact.as_slice()) {
                let who = trim_chars(rest.as_slice());
                builder_add(b, SequenceElement::Deactivation(Activation { participant: to_string_vec(&who) }));
            }
        },
    }
}

fn parse_sequence(input: &[char]) -> (r: SequenceDiagram)
    ensures
        r.deep_view() == sequence_model(input@),
{
    let ls = split_lines(input);
    let ghost lv = ls@.map_values(|l: Vec<char>| l@);
    let mut b = SeqBuilder { participants: Vec::new(), elements: Vec::new(), frames: Vec::new() };
    let ghost body = body_lines(input@);
    assert(b.participants.deep_view() =~= Seq::<ParticipantModel>::empty());
    assert(elements_model(b.elements@) =~= Seq::<ElementModel>::empty());
    assert(b.frames@.map_values(|g: SeqFrame| frame_model(g)) =~= Seq::<FrameModel>::empty());
    let mut i: usize = 1;
    while i < ls.len()
        invariant
            1 <= i <= ls@.len() || (ls@.len() == 0 && i == 1),
            lv == ls@.map_values(|l: Vec<char>| l@),
            lv == lines(input@),
            body == body_lines(input@),
            b.state() == seq_fold(body, i - 1),
            body.len() == if ls@.len() > 0 { ls@.len() - 1 } else { 0 },
        decreases ls@.len() - i,
    {
        assert(body[i - 1] == ls@[i as int]@);
        seq_step_exec(&mut b, ls[i].as_slice());
        i += 1;
    }
    assert(i - 1 == body.len());
    while b.frames.len() > 0
        invariant
            seq_close_all(b.state()) == seq_close_all(seq_fold(body, body.len() as int)),
        decreases b.frames@.len(),
    {
        builder_close(&mut b);
    }
    SequenceDiagram { participants: b.participants, elements: b.elements }
}

// =====================================================================
// Class diagram
// =====================================================================

/// Relation operators in the order they are tried.
pub open spec fn rel_op(k: int) -> (Seq<char>, ClassRelationType) {
    if k == 0 {
        (seq!['<', '|', '-', '-'], ClassRelationType::Inheritance)
    } else if k == 1 {
        (seq!['*', '-', '-'], ClassRelationType::Composition)
    } else if k == 2 {
        (seq!['o', '-', '-'], ClassRelationType::Aggregation)
    } else if k == 3 {
        (seq!['-', '-', '>'], ClassRelationType::Association)
    } else if k == 4 {
        (seq!['-', '-'], ClassRelationType::Association)
    } else if k == 5 {
        (seq!['.', '.', '>'], ClassRelationType::Dependency)
    } else if k == 6 {
        (seq!['.', '.', '|', '>'], ClassRelationType::Realization)
    } else {
        (seq!['.', '.'], ClassRelationType::Dependency)
    }
}

pub open spec fn rel_op_text() -> spec_fn(int) -> Seq<char> {
    |k: int| rel_op(k).0
}

/// A relation line `From <op> To`, optionally followed by `: label`.
pub open spec fn class_relation(line: Seq<char>) -> Option<RelationModel> {
    match first_op(line, rel_op_text(), 0, 8) {
        None => None,
        Some(k) => {
            let (op, kind) = rel_op(k);
            let pos = find(line, op).unwrap();
            let (to, label) = typed_name(after(line, pos + op.len()));
            Some(
                RelationModel {
                    from: trim(line.subrange(0, pos)),
                    to,
                    relation_type: kind,
                    label,
                    multiplicity_from: None,
                    multiplicity_to: None,
                },
            )
        },
    }
}

/// The visibility a member line starts with.
pub open spec fn member_visibility(c: char) -> Option<Visibility> {
    if c == '+' {
        Some(Visibility::Public)
    } else if c == '-' {
        Some(Visibility::Private)
    } else if c == '#' {
        Some(Visibility::Protected)
    } else if c == '~' {
        Some(Visibility::Package)
    } else {
        None
    }
}

pub open spec fn plain_member(vis: Visibility, name: Seq<char>) -> MemberModel {
    MemberModel { visibility: vis, name, is_static: false, is_abstract: false }
}

/// `name: Type` split at its first colon.
pub open spec fn typed_name(s: Seq<char>) -> (Seq<char>, Option<Seq<char>>) {
    match split_once(s, seq![':']) {
        Some((a, b)) => (trim(a), Some(trim(b))),
        None => (trim(s), None),
    }
}

pub open spec fn class_attribute(vis: Visibility, member: Seq<char>) -> AttributeModel {
    let (name, ty) = typed_name(member);
    AttributeModel { member: plain_member(vis, name), type_annotation: ty }
}

/// A method whose first `)` comes before its first `(` cannot be sliced.
pub open spec fn method_panics(member: Seq<char>) -> bool {
    match (find(member, seq!['(']), find(member, seq![')'])) {
        (Some(p), Some(c)) => c <= p,
        _ => false,
    }
}

pub open spec fn method_param(p: Seq<char>) -> (Seq<char>, Option<Seq<char>>) {
    typed_name(trim(p))
}

/// `name(p: T, q): R`.
pub open spec fn class_method(vis: Visibility, member: Seq<char>) -> Option<MethodModel> {
    match find(member, seq!['(']) {
        None => None,
        Some(p) => match find(member, seq![')']) {
            None => None,
            Some(c) => {
                let params = member.subrange(p + 1, c);
                let return_type = if c + 1 < member.len() {
                    let tail = trim(after(member, c + 1));
                    if starts_with(tail, seq![':']) {
                        Some(trim(after(tail, 1)))
                    } else {
                        None
                    }
                } else {
                    None
                };
                let parameters = if params.len() == 0 {
                    Seq::empty()
                } else {
                    split_char(params, ',').map_values(|q: Seq<char>| method_param(q))
                };
                Some(
                    MethodModel {
                        member: plain_member(vis, trim(member.subrange(0, p))),
                        parameters,
                        return_type,
                    },
                )
            },
        },
    }
}

pub open spec fn new_class(name: Seq<char>, stereotype: Option<Seq<char>>) -> ClassModel {
    ClassModel {
        name,
        stereotype,
        attributes: Seq::empty(),
        methods: Seq::empty(),
        is_abstract: false,
        is_interface: false,
    }
}

pub open spec fn kw_class() -> Seq<char> {
    seq!['c', 'l', 'a', 's', 's', ' ']
}

/// `Name`, or `<<Stereotype>> Name`; `None` if the stereotype is unclosed.
pub open spec fn class_header(rest: Seq<char>) -> Option<(Seq<char>, Option<Seq<char>>)> {
    if starts_with(rest, seq!['<', '<']) {
        match find(rest, seq!['>', '>']) {
            Some(e) => Some((trim(after(rest, e + 2)), Some(trim(rest.subrange(2, e))))),
            None => None,
        }
    } else {
        Some((trim(rest), None))
    }
}

/// Parser state between class-diagram lines.
pub struct ClassState {
    pub classes: Seq<ClassModel>,
    pub relations: Seq<RelationModel>,
    pub current: Option<ClassModel>,
}

/// A member line inside an open class body.
pub open spec fn class_member_step(c: ClassModel, line: Seq<char>) -> ClassModel {
    match member_visibility(line[0]) {
        Some(vis) => {
            let member = trim(after(line, 1));
            if contains(member, seq!['(']) {
                match class_method(vis, member) {
                    Some(m) => ClassModel { methods: c.methods.push(m), ..c },
                    None => c,
                }
            } else {
                ClassModel { attributes: c.attributes.push(class_attribute(vis, member)), ..c }
            }
        },
        None => c,
    }
}

/// How one class-diagram line changes the state; `None` is a syntax error.
pub open spec fn class_step(st: ClassState, raw: Seq<char>) -> Option<ClassState> {
    let line = trim(raw);
    if line.len() == 0 || starts_with(line, kw_comment()) {
        Some(st)
    } else if line == seq!['}'] {
        Some(
            match st.current {
                Some(c) => ClassState { classes: st.classes.push(c), current: None, ..st },
                None => st,
            },
        )
    } else if starts_with(line, kw_class()) {
        match class_header(after(line, 6)) {
            None => None,
            Some((name, stereotype)) => Some(
                if ends_with(name, seq!['{']) {
                    ClassState {
                        current: Some(new_class(trim(trim_end_matches(name, '{')), stereotype)),
                        ..st
                    }
                } else {
                    ClassState { classes: st.classes.push(new_class(name, stereotype)), ..st }
                },
            ),
        }
    } else {
        match st.current {
            Some(c) => Some(ClassState { current: Some(class_member_step(c, line)), ..st }),
            None => Some(
                match class_relation(line) {
                    Some(r) => ClassState { relations: st.relations.push(r), ..st },
                    None => st,
                },
            ),
        }
    }
}

/// The line would make the slicing of a method's parameters between its brackets fail.
pub open spec fn class_step_panics(st: ClassState, raw: Seq<char>) -> bool {
    let line = trim(raw);
    &&& line.len() > 0
    &&& !starts_with(line, kw_comment())
    &&& line != seq!['}']
    &&& !starts_with(line, kw_class())
    &&& st.current is Some
    &&& member_visibility(line[0]) is Some
    &&& contains(trim(after(line, 1)), seq!['('])
    &&& method_panics(trim(after(line, 1)))
}

pub open spec fn class_init() -> ClassState {
    ClassState { classes: Seq::empty(), relations: Seq::empty(), current: None }
}

pub open spec fn class_fold(ls: Seq<Seq<char>>, n: int) -> Option<ClassState>
    decreases n,
{
    if n <= 0 {
        Some(class_init())
    } else {
        match class_fold(ls, n - 1) {
            Some(st) => class_step(st, ls[n - 1]),
            None => None,
        }
    }
}

/// Some line reached by the parser is a method that cannot be sliced.
pub open spec fn class_fold_panics(ls: Seq<Seq<char>>, n: int) -> bool
    decreases n,
{
    n > 0 && (class_fold_panics(ls, n - 1) || (class_fold(ls, n - 1) matches Some(st)
        && class_step_panics(st, ls[n - 1])))
}

pub proof fn lemma_class_panics_mono(ls: Seq<Seq<char>>, m: int, n: int)
    requires
        0 <= m <= n,
        class_fold_panics(ls, m),
    ensures
        class_fold_panics(ls, n),
    decreases n - m,
{
    if m < n {
        lemma_class_panics_mono(ls, m, n - 1);
    }
}

/// The class diagram a source describes, or `None` on an unclosed stereotype.
pub open spec fn class_model(input: Seq<char>) -> Option<ClassDiagramModel> {
    let body = body_lines(input);
    match class_fold(body, body.len() as int) {
        Some(st) => Some(ClassDiagramModel { classes: st.classes, relations: st.relations }),
        None => None,
    }
}

/// The class parser reaches a method line it cannot slice.
pub open spec fn class_source_panics(input: Seq<char>) -> bool {
    let body = body_lines(input);
    class_fold_panics(body, body.len() as int)
}

fn rel_op_exec(k: usize) -> (r: (Vec<char>, ClassRelationType))
    requires
        k < 8,
    ensures
        r.0@ == rel_op(k as int).0,
        r.1 == rel_op(k as int).1,
{
    if k == 0 {
        (vec!['<', '|', '-', '-'], ClassRelationType::Inheritance)
    } else if k == 1 {
        (vec!['*', '-', '-'], ClassRelationType::Composition)
    } else if k == 2 {
        (vec!['o', '-', '-'], ClassRelationType::Aggregation)
    } else if k == 3 {
        (vec!['-', '-', '>'], ClassRelationType::Association)
    } else if k == 4 {
        (vec!['-', '-'], ClassRelationType::Association)
    } else if k == 5 {
        (vec!['.', '.', '>'], ClassRelationType::Dependency)
    } else if k == 6 {
        (vec!['.', '.', '|', '>'], ClassRelationType::Realization)
    } else {
        (vec!['.', '.'], ClassRelationType::Dependency)
    }
}

fn class_relation_exec(line: &[char]) -> (r: Option<ClassRelation>)
    ensures
        r.deep_view() == class_relation(line@),
{
    let ll = line.len();
    let mut k: usize = 0;
    while k < 8
        invariant
            k <= 8,
            ll == line@.len(),
            first_op(line@, rel_op_text(), 0, 8) == first_op(line@, rel_op_text(), k as int, 8),
        decreases 8 - k,
    {
        let (op, kind) = rel_op_exec(k);
        assert(rel_op_text()(k as int) == op@);
        if contains_chars(line, op.as_slice()) {
            assert(first_op(line@, rel_op_text(), 0, 8) == Some(k as int));
            proof {
                lemma_find_bounds(line@, op@);
            }
            let pos = find_chars(line, op.as_slice()).unwrap();
            let head = slice_to_vec(line, 0, pos);
            let from = trim_chars(head.as_slice());
            let rest = slice_to_vec(line, pos + op.len(), ll);
            let (to, label) = typed_name_exec(rest.as_slice());
            return Some(
                ClassRelation {
                    from: to_string_vec(&from),
                    to,
                    relation_type: kind,
                    label,
                    multiplicity_from: None,
                    multiplicity_to: None,
                },
            );
        }
        k += 1;
    }
    None
}

fn member_visibility_exec(c: char) -> (r: Option<Visibility>)
    ensures
        r == member_visibility(c),
{
    if c == '+' {
        Some(Visibility::Public)
    } else if c == '-' {
        Some(Visibility::Private)
    } else if c == '#' {
        Some(Visibility::Protected)
    } else if c == '~' {
        Some(Visibility::Package)
    } else {
        None
    }
}

fn typed_name_exec(s: &[char]) -> (r: (String, Option<String>))
    ensures
        (r.0@, r.1.deep_view()) == typed_name(s@),
{
    let colon = vec![':'];
    assert(colon@ == seq![':']);
    match split_once_exec(s, colon.as_slice()) {
        Some((a, b)) => {
            let n = trim_chars(a.as_slice());
            let t = trim_chars(b.as_slice());
            (to_string_vec(&n), Some(to_string_vec(&t)))
        },
        None => {
            let n = trim_chars(s);
            (to_string_vec(&n), None)
        },
    }
}

fn class_method_exec(vis: Visibility, member: &[char]) -> (r: Option<ClassMethod>)
    requires
        !method_panics(member@),
    ensures
        r.deep_view() == class_method(vis, member@),
{
    let ml = member.len();
    let p = match find_char(member, '(') {
        Some(p) => p,
        None => return None,
    };
    let c = match find_char(member, ')') {
        Some(c) => c,
        None => return None,
    };
    proof {
        lemma_find_bounds(member@, seq!['(']);
        lemma_find_bounds(member@, seq![')']);
    }
    let head = slice_to_vec(member, 0, p);
    let name = trim_chars(head.as_slice());
    let params = slice_to_vec(member, p + 1, c);
    let return_type = if c + 1 < ml {
        let t = slice_to_vec(member, c + 1, ml);
        let tail = trim_chars(t.as_slice());
        let colon = vec![':'];
        assert(colon@ == seq![':']);
        if starts_with_chars(tail.as_slice(), colon.as_slice()) {
            let r = slice_to_vec(tail.as_slice(), 1, tail.len());
            let rt = trim_chars(r.as_slice());
            Some(to_string_vec(&rt))
        } else {
            None
        }
    } else {
        None
    };
    let mut parameters: Vec<(String, Option<String>)> = Vec::new();
    if params.len() > 0 {
        let pieces = split_char_exec(params.as_slice(), ',');
        let ghost pv = pieces@.map_values(|l: Vec<char>| l@);
        let mut i: usize = 0;
        while i < pieces.len()
            invariant
                i <= pieces@.len(),
                pv == pieces@.map_values(|l: Vec<char>| l@),
                pv == split_char(params@, ','),
                parameters.deep_view() == pv.subrange(0, i as int).map_values(
                    |q: Seq<char>| method_param(q),
                ),
            decreases pieces@.len() - i,
        {
            let t = trim_chars(pieces[i].as_slice());
            let param = typed_name_exec(t.as_slice());
            let ghost before = parameters.deep_view();
            parameters.push(param);
            assert(parameters.deep_view() =~= before.push(method_param(pv[i as int])));
            assert(pv.subrange(0, i + 1).map_values(|q: Seq<char>| method_param(q)) =~= pv.subrange(
                0,
                i as int,
            ).map_values(|q: Seq<char>| method_param(q)).push(method_param(pv[i as int])));
            i += 1;
        }
        assert(pv.subrange(0, pv.len() as int) == pv);
    } else {
        assert(parameters.deep_view() =~= Seq::<(Seq<char>, Option<Seq<char>>)>::empty());
    }
    Some(
        ClassMethod {
            member: ClassMember {
                visibility: vis,
                name: to_string_vec(&name),
                is_static: false,
                is_abstract: false,
            },
            parameters,
            return_type,
        },
    )
}

struct ClassBuilder {
    classes: Vec<ClassDefinition>,
    relations: Vec<ClassRelation>,
    current: Option<ClassDefinition>,
}

impl ClassBuilder {
    spec fn state(&self) -> ClassState {
        ClassState {
            classes: self.classes.deep_view(),
            relations: self.relations.deep_view(),
            current: self.current.deep_view(),
        }
    }
}

fn make_class(name: &Vec<char>, stereotype: Option<Vec<char>>) -> (c: ClassDefinition)
    ensures
        c.deep_view() == new_class(name@, opt_chars(stereotype)),
{
    let c = ClassDefinition {
        name: to_string_vec(name),
        stereotype: opt_string(stereotype),
        attributes: Vec::new(),
        methods: Vec::new(),
        is_abstract: false,
        is_interface: false,
    };
    assert(c.attributes.deep_view() =~= Seq::<AttributeModel>::empty());
    assert(c.methods.deep_view() =~= Seq::<MethodModel>::empty());
    c
}

fn class_header_exec(rest: &[char]) -> (r: Option<(Vec<char>, Option<Vec<char>>)>)
    ensures
        r matches Some((n, st)) ==> class_header(rest@) == Some((n@, opt_chars(st))),
        r is None ==> class_header(rest@) is None,
{
    let rl = rest.len();
    let open = vec!['<', '<'];
    let close = vec!['>', '>'];
    assert(open@ == seq!['<', '<']);
    assert(close@ == seq!['>', '>']);
    if starts_with_chars(rest, open.as_slice()) {
        match find_chars(rest, close.as_slice()) {
            Some(e) => {
                proof {
                    lemma_find_from_result(rest@, close@, 0);
                    if e < 2 {
                        assert(rest@.subrange(e as int, e + 2)[0] == '>');
                        assert(rest@.subrange(0, 2)[e as int] == '<');
                    }
                }
                let a = slice_to_vec(rest, e + 2, rl);
                let st = slice_to_vec(rest, 2, e);
                Some((trim_chars(a.as_slice()), Some(trim_chars(st.as_slice()))))
            },
            None => None,
        }
    } else {
        Some((trim_chars(rest), None))
    }
}

fn class_member_exec(c: &mut ClassDefinition, line: &[char])
    requires
        line@.len() > 0,
        !(member_visibility(line@[0]) is Some && contains(trim(after(line@, 1)), seq!['('])
            && method_panics(trim(after(line@, 1)))),
    ensures
        final(c).deep_view() == class_member_step(old(c).deep_view(), line@),
{
    match member_visibility_exec(line[0]) {
        Some(vis) => {
            let m = slice_to_vec(line, 1, line.len());
            let member = trim_chars(m.as_slice());
            let paren = vec!['('];
            assert(paren@ == seq!['(']);
            if contains_chars(member.as_slice(), paren.as_slice()) {
                match class_method_exec(vis, member.as_slice()) {
                    Some(meth) => {
                        let ghost before = c.methods.deep_view();
                        c.methods.push(meth);
                        assert(c.methods.deep_view() =~= before.push(meth.deep_view()));
                    },
                    None => {},
                }
            } else {
                let (name, ty) = typed_name_exec(member.as_slice());
                let attr = ClassAttribute {
                    member: ClassMember {
                        visibility: vis,
                        name,
                        is_static: false,
                        is_abstract: false,
                    },
                    type_annotation: ty,
                };
                let ghost before = c.attributes.deep_view();
                c.attributes.push(attr);
                assert(c.attributes.deep_view() =~= before.push(attr.deep_view()));
            }
        },
        None => {},
    }
}

fn class_step_exec(b: &mut ClassBuilder, raw: &[char]) -> (ok: bool)
    requires
        !class_step_panics(old(b).state(), raw@),
    ensures
        ok ==> class_step(old(b).state(), raw@) == Some(final(b).state()),
        !ok ==> class_step(old(b).state(), raw@) is None,
{
    let line = trim_chars(raw);
    let comment = vec!['%', '%'];
    if line.len() == 0 || starts_with_chars(line.as_slice(), comment.as_slice()) {
        return true;
    }
    let brace = vec!['}'];
    assert(brace@ == seq!['}']);
    if eq_chars(line.as_slice(), brace.as_slice()) {
        let ghost before = b.classes.deep_view();
        if let Some(c) = b.current.take() {
            b.classes.push(c);
            assert(b.classes.deep_view() =~= before.push(c.deep_view()));
        }
        return true;
    }
    let kw = vec!['c', 'l', 'a', 's', 's', ' '];
    if let Some(rest) = strip_prefix_exec(line.as_slice(), kw.as_slice()) {
        match class_header_exec(rest.as_slice()) {
            None => return false,
            Some((name, stereotype)) => {
                let open_brace = vec!['{'];
                assert(open_brace@ == seq!['{']);
                if ends_with_chars(name.as_slice(), open_brace.as_slice()) {
                    let t = trim_end_matches_chars(name.as_slice(), '{');
                    let nm = trim_chars(t.as_slice());
                    b.current = Some(make_class(&nm, stereotype));
                } else {
                    let ghost before = b.classes.deep_view();
                    let c = make_class(&name, stereotype);
                    b.classes.push(c);
                    assert(b.classes.deep_view() =~= before.push(c.deep_view()));
                }
                return true;
            },
        }
    }
    if let Some(c) = &mut b.current {
        class_member_exec(c, line.as_slice());
        return true;
    }
    match class_relation_exec(line.as_slice()) {
        Some(r) => {
            let ghost before = b.relations.deep_view();
            b.relations.push(r);
            assert(b.relations.deep_view() =~= before.push(r.deep_view()));
        },
        None => {},
    }
    true
}

fn parse_class(input: &[char]) -> (r: Option<ClassDiagram>)
    requires
        !class_source_panics(input@),
    ensures
        r.deep_view() == class_model(input@),
{
    let ls = split_lines(input);
    let ghost lv = ls@.map_values(|l: Vec<char>| l@);
    let mut b = ClassBuilder { classes: Vec::new(), relations: Vec::new(), current: None };
    let ghost body = body_lines(input@);
    assert(b.classes.deep_view() =~= Seq::<ClassModel>::empty());
    assert(b.relations.deep_view() =~= Seq::<RelationModel>::empty());
    let mut i: usize = 1;
    while i < ls.len()
        invariant
            1 <= i <= ls@.len() || (ls@.len() == 0 && i == 1),
            lv == ls@.map_values(|l: Vec<char>| l@),
            lv == lines(input@),
            body == body_lines(input@),
            class_fold(body, i - 1) == Some(b.state()),
            !class_fold_panics(body, body.len() as int),
            body.len() == if ls@.len() > 0 { ls@.len() - 1 } else { 0 },
        decreases ls@.len() - i,
    {
        assert(body[i - 1] == ls@[i as int]@);
        proof {
            if class_fold_panics(body, i as int) {
                lemma_class_panics_mono(body, i as int, body.len() as int);
            }
        }
        if !class_step_exec(&mut b, ls[i].as_slice()) {
            proof {
                assert(class_fold(body, i as int) is None);
                lemma_class_error_sticks(body, i as int, body.len() as int);
            }
            return None;
        }
        i += 1;
    }
    assert(i - 1 == body.len());
    Some(ClassDiagram { classes: b.classes, relations: b.relations })
}

pub proof fn lemma_class_error_sticks(ls: Seq<Seq<char>>, m: int, n: int)
    requires
        0 <= m <= n,
        class_fold(ls, m) is None,
    ensures
        class_fold(ls, n) is None,
    decreases n - m,
{
    if m < n {
        lemma_class_error_sticks(ls, m, n - 1);
    }
}


// =====================================================================
// State diagram
// =====================================================================

pub open spec fn star_id() -> Seq<char> {
    seq!['[', '*', ']']
}

pub open spec fn plain_state(id: Seq<char>, label: Seq<char>, parent: Option<Seq<char>>) -> StateModel {
    StateModel { id, label, is_start: false, is_end: false, is_composite: false, parent }
}

/// The pseudo-state `[*]` that every state diagram starts from.
pub open spec fn start_state() -> StateModel {
    StateModel {
        id: star_id(),
        label: star_id(),
        is_start: true,
        is_end: false,
        is_composite: false,
        parent: None,
    }
}

pub open spec fn end_state() -> StateModel {
    StateModel {
        id: star_id(),
        label: star_id(),
        is_start: false,
        is_end: true,
        is_composite: false,
        parent: None,
    }
}

pub open spec fn has_state(states: Seq<StateModel>, id: Seq<char>) -> bool {
    exists|i: int| 0 <= i < states.len() && states[i].id == id
}

/// Index of the first state with identifier `id`, searching from `k`.
pub open spec fn first_state(states: Seq<StateModel>, id: Seq<char>, k: int) -> Option<int>
    decreases states.len() - k,
{
    if k < 0 || k >= states.len() {
        None
    } else if states[k].id == id {
        Some(k)
    } else {
        first_state(states, id, k + 1)
    }
}

/// `state Id`, `state Id "Label"` or `state Id {` (which opens a composite
/// state); `None` if the label quote is unclosed.
pub open spec fn state_decl(rest: Seq<char>, parent: Option<Seq<char>>) -> Option<StateModel> {
    if ends_with(trim(rest), seq!['{']) {
        let id = trim(trim_end_matches(trim(rest), '{'));
        Some(StateModel { is_composite: true, ..plain_state(id, id, parent) })
    } else {
        match find(rest, seq!['"']) {
            Some(ls) => match find(after(rest, ls + 1), seq!['"']) {
                Some(e) => Some(
                    plain_state(trim(rest.subrange(0, ls)), rest.subrange(ls + 1, ls + 1 + e), parent),
                ),
                None => None,
            },
            None => Some(plain_state(trim(rest), trim(rest), parent)),
        }
    }
}

/// The states with a composite state declared: a state already named so
/// becomes composite, or the new one is added.
pub open spec fn with_composite(states: Seq<StateModel>, s: StateModel) -> Seq<StateModel> {
    match first_state(states, s.id, 0) {
        Some(j) => states.update(j, StateModel { is_composite: true, ..states[j] }),
        None => states.push(s),
    }
}

/// The composite state whose block is innermost open.
pub open spec fn open_parent(open: Seq<Seq<char>>) -> Option<Seq<char>> {
    if open.len() > 0 {
        Some(open.last())
    } else {
        None
    }
}

/// The states after a transition to `to`: reaching `[*]` marks it as final.
pub open spec fn mark_end(states: Seq<StateModel>, to: Seq<char>) -> Seq<StateModel> {
    if to == star_id() {
        match first_state(states, star_id(), 0) {
            Some(j) => states.update(j, StateModel { is_end: true, ..states[j] }),
            None => states.push(end_state()),
        }
    } else {
        states
    }
}

/// Adds a state for an endpoint that is neither known nor `[*]`.
pub open spec fn with_endpoint(
    states: Seq<StateModel>,
    known: bool,
    id: Seq<char>,
    parent: Option<Seq<char>>,
) -> Seq<StateModel> {
    if known {
        states
    } else {
        states.push(plain_state(id, id, parent))
    }
}

/// Parser state between state-diagram lines; `open` lists the composite
/// states whose `{` blocks are open, innermost last.
pub struct StateState {
    pub states: Seq<StateModel>,
    pub transitions: Seq<TransitionModel>,
    pub open: Seq<Seq<char>>,
}

pub open spec fn kw_state() -> Seq<char> {
    seq!['s', 't', 'a', 't', 'e', ' ']
}

pub open spec fn long_arrow() -> Seq<char> {
    seq!['-', '-', '>']
}

pub open spec fn short_arrow() -> Seq<char> {
    seq!['-', '>']
}

/// How one state-diagram line changes the state; `None` is a syntax error.
/// States and transitions inside a composite state's block record it as
/// their parent; `}` closes the innermost block.
pub open spec fn state_step(st: StateState, raw: Seq<char>) -> Option<StateState> {
    let line = trim(raw);
    let parent = open_parent(st.open);
    if line.len() == 0 || starts_with(line, kw_comment()) {
        Some(st)
    } else if line == seq!['}'] {
        if st.open.len() > 0 {
            Some(StateState { open: st.open.drop_last(), ..st })
        } else {
            Some(st)
        }
    } else if starts_with(line, kw_state()) {
        match state_decl(after(line, 6), parent) {
            Some(s) => if s.is_composite {
                Some(StateState { states: with_composite(st.states, s), open: st.open.push(s.id), ..st })
            } else {
                Some(StateState { states: st.states.push(s), ..st })
            },
            None => None,
        }
    } else if contains(line, long_arrow()) || contains(line, short_arrow()) {
        let arrow = if contains(line, long_arrow()) {
            long_arrow()
        } else {
            short_arrow()
        };
        let pos = find(line, arrow).unwrap();
        let from = trim(line.subrange(0, pos));
        let (to, label) = typed_name(after(line, pos + arrow.len()));
        let states1 = mark_end(st.states, to);
        let has_from = has_state(states1, from) || from == star_id();
        let has_to = has_state(states1, to) || to == star_id();
        Some(
            StateState {
                states: with_endpoint(with_endpoint(states1, has_from, from, parent), has_to, to, parent),
                transitions: st.transitions.push(TransitionModel { from, to, label, parent }),
                open: st.open,
            },
        )
    } else {
        Some(st)
    }
}

pub open spec fn state_fold(ls: Seq<Seq<char>>, n: int) -> Option<StateState>
    decreases n,
{
    if n <= 0 {
        Some(StateState { states: seq![start_state()], transitions: Seq::empty(), open: Seq::empty() })
    } else {
        match state_fold(ls, n - 1) {
            Some(st) => state_step(st, ls[n - 1]),
            None => None,
        }
    }
}

pub proof fn lemma_state_error_sticks(ls: Seq<Seq<char>>, m: int, n: int)
    requires
        0 <= m <= n,
        state_fold(ls, m) is None,
    ensures
        state_fold(ls, n) is None,
    decreases n - m,
{
    if m < n {
        lemma_state_error_sticks(ls, m, n - 1);
    }
}

/// The state diagram a source describes, or `None` on an unclosed label.
pub open spec fn state_model(input: Seq<char>) -> Option<StateDiagramModel> {
    let body = body_lines(input);
    match state_fold(body, body.len() as int) {
        Some(st) => Some(
            StateDiagramModel {
                states: st.states.map_values(
                    |m: StateModel| state_node(m, state_children(st.states, st.transitions, m.id, st.states.len())),
                ),
                transitions: st.transitions,
            },
        ),
        None => None,
    }
}

/// A state with the given children.
pub open spec fn state_node(m: StateModel, children: Seq<StateElementModel>) -> StateNodeModel {
    StateNodeModel {
        id: m.id,
        label: m.label,
        is_start: m.is_start,
        is_end: m.is_end,
        is_composite: m.is_composite,
        parent: m.parent,
        children,
    }
}

/// The transitions among `ts[..k]` written inside state `id`'s block.
pub open spec fn child_transitions(ts: Seq<TransitionModel>, id: Seq<char>, k: nat) -> Seq<StateElementModel>
    decreases k,
{
    if k == 0 || k > ts.len() {
        Seq::empty()
    } else {
        let rest = child_transitions(ts, id, (k - 1) as nat);
        if ts[k - 1].parent == Some(id) {
            rest.push(StateElementModel::Transition(ts[k - 1]))
        } else {
            rest
        }
    }
}

/// The states among `ss[..k]` declared inside state `id`'s block, each with
/// its own children to `fuel` levels.
pub open spec fn child_states(
    ss: Seq<StateModel>,
    ts: Seq<TransitionModel>,
    id: Seq<char>,
    fuel: nat,
    k: nat,
) -> Seq<StateElementModel>
    decreases fuel, k,
{
    if fuel == 0 || k == 0 || k > ss.len() {
        Seq::empty()
    } else {
        let rest = child_states(ss, ts, id, fuel, (k - 1) as nat);
        let m = ss[k - 1];
        if m.parent == Some(id) {
            let below = child_states(ss, ts, m.id, (fuel - 1) as nat, ss.len()) + child_transitions(
                ts,
                m.id,
                ts.len(),
            );
            rest.push(StateElementModel::State(state_node(m, below)))
        } else {
            rest
        }
    }
}

/// The children of state `id`: the states declared in its block (each with
/// its children, to `fuel` levels), then the transitions written there.
pub open spec fn state_children(ss: Seq<StateModel>, ts: Seq<TransitionModel>, id: Seq<char>, fuel: nat) -> Seq<
    StateElementModel,
> {
    child_states(ss, ts, id, fuel, ss.len()) + child_transitions(ts, id, ts.len())
}

/// A state while the diagram is parsed, before its children are gathered.
struct StateEntry {
    id: String,
    label: String,
    is_start: bool,
    is_end: bool,
    is_composite: bool,
    parent: Option<String>,
}

impl DeepView for StateEntry {
    type V = StateModel;

    closed spec fn deep_view(&self) -> StateModel {
        StateModel {
            id: self.id@,
            label: self.label@,
            is_start: self.is_start,
            is_end: self.is_end,
            is_composite: self.is_composite,
            parent: self.parent.deep_view(),
        }
    }
}

fn copy_opt_string(o: &Option<String>) -> (r: Option<String>)
    ensures
        r.deep_view() == o.deep_view(),
{
    match o {
        Some(x) => Some(x.clone()),
        None => None,
    }
}

/// Whether `o` is `id`.
fn parent_is(o: &Option<String>, id: &[char]) -> (r: bool)
    ensures
        r == (o.deep_view() == Some(id@)),
{
    match o {
        Some(p) => {
            let pc = string_chars(p);
            eq_chars(pc.as_slice(), id)
        },
        None => false,
    }
}

proof fn lemma_state_elements_push(s: Seq<StateElement>, e: StateElement)
    ensures
        state_elements_model(s.push(e)) == state_elements_model(s).push(
            match e {
                StateElement::State(c) => StateElementModel::State(state_node_model(c)),
                StateElement::Transition(t) => StateElementModel::Transition(t.deep_view()),
            },
        ),
{
    assert(s.push(e).subrange(0, s.len() as int) =~= s);
}

/// Adds the transitions written inside state `id`'s block to `out`.
fn push_child_transitions(out: &mut Vec<StateElement>, ts: &Vec<StateTransition>, id: &[char])
    ensures
        state_elements_model(final(out)@) == state_elements_model(old(out)@) + child_transitions(
            ts.deep_view(),
            id@,
            ts.len() as nat,
        ),
{
    let ghost base = state_elements_model(out@);
    let mut k: usize = 0;
    assert(base + Seq::<StateElementModel>::empty() =~= base);
    while k < ts.len()
        invariant
            k <= ts@.len(),
            state_elements_model(out@) == base + child_transitions(ts.deep_view(), id@, k as nat),
        decreases ts@.len() - k,
    {
        let ghost prev = child_transitions(ts.deep_view(), id@, k as nat);
        if parent_is(&ts[k].parent, id) {
            let t = StateTransition {
                from: ts[k].from.clone(),
                to: ts[k].to.clone(),
                label: copy_opt_string(&ts[k].label),
                parent: copy_opt_string(&ts[k].parent),
            };
            assert(t.deep_view() == ts.deep_view()[k as int]);
            proof {
                lemma_state_elements_push(out@, StateElement::Transition(t));
            }
            out.push(StateElement::Transition(t));
            assert(base + prev.push(StateElementModel::Transition(t.deep_view())) =~= (base + prev).push(
                StateElementModel::Transition(t.deep_view()),
            ));
        }
        k += 1;
    }
}

/// The states declared inside state `id`'s block, each with its children to
/// `fuel` levels.
fn child_states_exec(ss: &Vec<StateEntry>, ts: &Vec<StateTransition>, id: &[char], fuel: usize) -> (r: Vec<StateElement>)
    ensures
        state_elements_model(r@) == child_states(ss.deep_view(), ts.deep_view(), id@, fuel as nat, ss.len() as nat),
    decreases fuel,
{
    let mut out: Vec<StateElement> = Vec::new();
    assert(state_elements_model(out@) =~= Seq::<StateElementModel>::empty());
    if fuel == 0 {
        return out;
    }
    let mut k: usize = 0;
    while k < ss.len()
        invariant
            k <= ss@.len(),
            fuel > 0,
            state_elements_model(out@) == child_states(ss.deep_view(), ts.deep_view(), id@, fuel as nat, k as nat),
        decreases ss@.len() - k,
    {
        if parent_is(&ss[k].parent, id) {
            let cid = string_chars(&ss[k].id);
            let mut children = child_states_exec(ss, ts, cid.as_slice(), fuel - 1);
            push_child_transitions(&mut children, ts, cid.as_slice());
            let st = State {
                id: ss[k].id.clone(),
                label: ss[k].label.clone(),
                is_start: ss[k].is_start,
                is_end: ss[k].is_end,
                is_composite: ss[k].is_composite,
                parent: copy_opt_string(&ss[k].parent),
                children,
            };
            assert(state_node_model(st) == state_node(
                ss.deep_view()[k as int],
                child_states(ss.deep_view(), ts.deep_view(), cid@, (fuel - 1) as nat, ss.len() as nat)
                    + child_transitions(ts.deep_view(), cid@, ts.len() as nat),
            ));
            proof {
                lemma_state_elements_push(out@, StateElement::State(st));
            }
            out.push(StateElement::State(st));
        }
        k += 1;
    }
    out
}

/// The diagram's states with their children gathered.
fn nest_states(ss: &Vec<StateEntry>, ts: &Vec<StateTransition>) -> (r: Vec<State>)
    ensures
        r@.map_values(|st: State| state_node_model(st)) == ss.deep_view().map_values(
            |m: StateModel| state_node(m, state_children(ss.deep_view(), ts.deep_view(), m.id, ss.len() as nat)),
        ),
{
    let mut out: Vec<State> = Vec::new();
    let mut k: usize = 0;
    while k < ss.len()
        invariant
            k <= ss@.len(),
            out@.len() == k,
            forall|q: int|
                0 <= q < k ==> state_node_model(#[trigger] out@[q]) == state_node(
                    ss.deep_view()[q],
                    state_children(ss.deep_view(), ts.deep_view(), ss.deep_view()[q].id, ss.len() as nat),
                ),
        decreases ss@.len() - k,
    {
        let cid = string_chars(&ss[k].id);
        let mut children = child_states_exec(ss, ts, cid.as_slice(), ss.len());
        push_child_transitions(&mut children, ts, cid.as_slice());
        let st = State {
            id: ss[k].id.clone(),
            label: ss[k].label.clone(),
            is_start: ss[k].is_start,
            is_end: ss[k].is_end,
            is_composite: ss[k].is_composite,
            parent: copy_opt_string(&ss[k].parent),
            children,
        };
        out.push(st);
        k += 1;
    }
    assert(out@.map_values(|st: State| state_node_model(st)) =~= ss.deep_view().map_values(
        |m: StateModel| state_node(m, state_children(ss.deep_view(), ts.deep_view(), m.id, ss.len() as nat)),
    ));
    out
}

fn star_chars() -> (r: Vec<char>)
    ensures
        r@ == star_id(),
{
    vec!['[', '*', ']']
}

fn make_state(id: &Vec<char>, label: &Vec<char>, parent: &Option<Vec<char>>) -> (s: StateEntry)
    ensures
        s.deep_view() == plain_state(id@, label@, opt_chars(*parent)),
{
    StateEntry {
        id: to_string_vec(id),
        label: to_string_vec(label),
        is_start: false,
        is_end: false,
        is_composite: false,
        parent: opt_string(parent.clone()),
    }
}

fn state_decl_exec(rest: &[char], parent: &Option<Vec<char>>) -> (r: Option<StateEntry>)
    ensures
        r.deep_view() == state_decl(rest@, opt_chars(*parent)),
{
    let rl = rest.len();
    let tr = trim_chars(rest);
    let brace = vec!['{'];
    assert(brace@ == seq!['{']);
    if ends_with_chars(tr.as_slice(), brace.as_slice()) {
        let t = trim_end_matches_chars(tr.as_slice(), '{');
        let id = trim_chars(t.as_slice());
        let mut s = make_state(&id, &id, parent);
        s.is_composite = true;
        return Some(s);
    }
    match find_char(rest, '"') {
        Some(ls) => {
            proof {
                lemma_find_bounds(rest@, seq!['"']);
            }
            let tail = slice_to_vec(rest, ls + 1, rl);
            match find_char(tail.as_slice(), '"') {
                Some(e) => {
                    proof {
                        lemma_find_bounds(tail@, seq!['"']);
                    }
                    let head = slice_to_vec(rest, 0, ls);
                    let id = trim_chars(head.as_slice());
                    let label = slice_to_vec(rest, ls + 1, ls + 1 + e);
                    Some(make_state(&id, &label, parent))
                },
                None => None,
            }
        },
        None => {
            let id = trim_chars(rest);
            Some(make_state(&id, &id, parent))
        },
    }
}

fn has_state_exec(states: &Vec<StateEntry>, id: &[char]) -> (r: bool)
    ensures
        r == has_state(states.deep_view(), id@),
{
    let mut i: usize = 0;
    while i < states.len()
        invariant
            i <= states@.len(),
            forall|m: int| 0 <= m < i ==> states.deep_view()[m].id != id@,
        decreases states@.len() - i,
    {
        let sid = string_chars(&states[i].id);
        if eq_chars(sid.as_slice(), id) {
            assert(states.deep_view()[i as int].id == id@);
            return true;
        }
        i += 1;
    }
    false
}

fn mark_end_exec(states: &mut Vec<StateEntry>, to: &[char])
    ensures
        final(states).deep_view() == mark_end(old(states).deep_view(), to@),
{
    let star = star_chars();
    if !eq_chars(to, star.as_slice()) {
        return;
    }
    let ghost sv = states.deep_view();
    let mut i: usize = 0;
    while i < states.len()
        invariant
            i <= states@.len(),
            sv == states.deep_view(),
            sv == old(states).deep_view(),
            star@ == star_id(),
            to@ == star_id(),
            first_state(sv, star_id(), 0) == first_state(sv, star_id(), i as int),
        decreases states@.len() - i,
    {
        let sid = string_chars(&states[i].id);
        assert(sv[i as int] == states@[i as int].deep_view());
        assert(sid@ == states@[i as int].id@);
        if eq_chars(sid.as_slice(), star.as_slice()) {
            assert(star@ == star_id());
            assert(sv[i as int].id == star_id());
            let s = StateEntry {
                id: states[i].id.clone(),
                label: states[i].label.clone(),
                is_start: states[i].is_start,
                is_end: true,
                is_composite: states[i].is_composite,
                parent: states[i].parent.clone(),
            };
            states.set(i, s);
            assert(states.deep_view() =~= sv.update(
                i as int,
                StateModel { is_end: true, ..sv[i as int] },
            ));
            return;
        }
        i += 1;
    }
    let ghost before = states.deep_view();
    let e = StateEntry {
        id: to_string_vec(&star),
        label: to_string_vec(&star),
        is_start: false,
        is_end: true,
        is_composite: false,
        parent: None,
    };
    states.push(e);
    assert(states.deep_view() =~= before.push(end_state()));
}


fn add_endpoint(states: &mut Vec<StateEntry>, id: &Vec<char>, known: bool, parent: &Option<Vec<char>>)
    ensures
        final(states).deep_view() == with_endpoint(old(states).deep_view(), known, id@, opt_chars(*parent)),
{
    if !known {
        let ghost before = states.deep_view();
        let s = make_state(id, id, parent);
        states.push(s);
        assert(states.deep_view() =~= before.push(plain_state(id@, id@, opt_chars(*parent))));
    }
}

fn add_composite(states: &mut Vec<StateEntry>, s: StateEntry)
    ensures
        final(states).deep_view() == with_composite(old(states).deep_view(), s.deep_view()),
{
    let ghost sv = states.deep_view();
    let id = string_chars(&s.id);
    let mut i: usize = 0;
    while i < states.len()
        invariant
            i <= states@.len(),
            sv == states.deep_view(),
            sv == old(states).deep_view(),
            id@ == s.id@,
            first_state(sv, s.id@, 0) == first_state(sv, s.id@, i as int),
        decreases states@.len() - i,
    {
        let sid = string_chars(&states[i].id);
        assert(sv[i as int] == states@[i as int].deep_view());
        if eq_chars(sid.as_slice(), id.as_slice()) {
            let c = StateEntry {
                id: states[i].id.clone(),
                label: states[i].label.clone(),
                is_start: states[i].is_start,
                is_end: states[i].is_end,
                is_composite: true,
                parent: states[i].parent.clone(),
            };
            states.set(i, c);
            assert(states.deep_view() =~= sv.update(
                i as int,
                StateModel { is_composite: true, ..sv[i as int] },
            ));
            return;
        }
        i += 1;
    }
    states.push(s);
    assert(states.deep_view() =~= sv.push(s.deep_view()));
}

struct StateBuilder {
    states: Vec<StateEntry>,
    transitions: Vec<StateTransition>,
    open: Vec<Vec<char>>,
}

impl StateBuilder {
    spec fn state(&self) -> StateState {
        StateState {
            states: self.states.deep_view(),
            transitions: self.transitions.deep_view(),
            open: self.open.deep_view(),
        }
    }
}

fn open_parent_exec(open: &Vec<Vec<char>>) -> (r: Option<Vec<char>>)
    ensures
        opt_chars(r) == open_parent(open.deep_view()),
{
    let n = open.len();
    if n > 0 {
        let top = slice_to_vec(open[n - 1].as_slice(), 0, open[n - 1].len());
        assert(top@ =~= open@[n - 1]@);
        Some(top)
    } else {
        None
    }
}

fn state_step_exec(b: &mut StateBuilder, raw: &[char]) -> (ok: bool)
    ensures
        ok ==> state_step(old(b).state(), raw@) == Some(final(b).state()),
        !ok ==> state_step(old(b).state(), raw@) is None,
{
    let line = trim_chars(raw);
    let ll = line.len();
    let comment = vec!['%', '%'];
    if line.len() == 0 || starts_with_chars(line.as_slice(), comment.as_slice()) {
        return true;
    }
    let parent = open_parent_exec(&b.open);
    let close = vec!['}'];
    assert(close@ == seq!['}']);
    if eq_chars(line.as_slice(), close.as_slice()) {
        if b.open.len() > 0 {
            let ghost before = b.open.deep_view();
            b.open.pop();
            assert(b.open.deep_view() =~= before.drop_last());
        }
        return true;
    }
    let kw = vec!['s', 't', 'a', 't', 'e', ' '];
    if let Some(rest) = strip_prefix_exec(line.as_slice(), kw.as_slice()) {
        match state_decl_exec(rest.as_slice(), &parent) {
            Some(st) => {
                if st.is_composite {
                    let id = string_chars(&st.id);
                    add_composite(&mut b.states, st);
                    let ghost before = b.open.deep_view();
                    assert(id.deep_view() =~= id@);
                    b.open.push(id);
                    assert(b.open.deep_view() =~= before.push(id@));
                } else {
                    let ghost before = b.states.deep_view();
                    b.states.push(st);
                    assert(b.states.deep_view() =~= before.push(st.deep_view()));
                }
                return true;
            },
            None => return false,
        }
    }
    let long = vec!['-', '-', '>'];
    let short = vec!['-', '>'];
    assert(long@ == long_arrow());
    assert(short@ == short_arrow());
    let has_long = contains_chars(line.as_slice(), long.as_slice());
    if !has_long && !contains_chars(line.as_slice(), short.as_slice()) {
        return true;
    }
    let arrow = if has_long {
        long
    } else {
        short
    };
    proof {
        lemma_find_bounds(line@, arrow@);
    }
    let pos = find_chars(line.as_slice(), arrow.as_slice()).unwrap();
    let head = slice_to_vec(line.as_slice(), 0, pos);
    let from = trim_chars(head.as_slice());
    let rest = slice_to_vec(line.as_slice(), pos + arrow.len(), ll);
    let (to_s, label) = typed_name_exec(rest.as_slice());
    let to = string_chars(&to_s);
    mark_end_exec(&mut b.states, to.as_slice());
    let star = star_chars();
    let has_from = has_state_exec(&b.states, from.as_slice()) || eq_chars(
        from.as_slice(),
        star.as_slice(),
    );
    let has_to = has_state_exec(&b.states, to.as_slice()) || eq_chars(to.as_slice(), star.as_slice());
    add_endpoint(&mut b.states, &from, has_from, &parent);
    add_endpoint(&mut b.states, &to, has_to, &parent);
    let ghost before = b.transitions.deep_view();
    let t = StateTransition { from: to_string_vec(&from), to: to_s, label, parent: opt_string(parent) };
    b.transitions.push(t);
    assert(b.transitions.deep_view() =~= before.push(t.deep_view()));
    true
}

fn parse_state(input: &[char]) -> (r: Option<StateDiagram>)
    ensures
        r.deep_view() == state_model(input@),
{
    let ls = split_lines(input);
    let ghost lv = ls@.map_values(|l: Vec<char>| l@);
    let star = star_chars();
    let start = StateEntry {
        id: to_string_vec(&star),
        label: to_string_vec(&star),
        is_start: true,
        is_end: false,
        is_composite: false,
        parent: None,
    };
    let mut b = StateBuilder { states: vec![start], transitions: Vec::new(), open: Vec::new() };
    let ghost body = body_lines(input@);
    assert(b.states.deep_view() =~= seq![start_state()]);
    assert(b.transitions.deep_view() =~= Seq::<TransitionModel>::empty());
    assert(b.open.deep_view() =~= Seq::<Seq<char>>::empty());
    let mut i: usize = 1;
    while i < ls.len()
        invariant
            1 <= i <= ls@.len() || (ls@.len() == 0 && i == 1),
            lv == ls@.map_values(|l: Vec<char>| l@),
            lv == lines(input@),
            body == body_lines(input@),
            state_fold(body, i - 1) == Some(b.state()),
            body.len() == if ls@.len() > 0 { ls@.len() - 1 } else { 0 },
        decreases ls@.len() - i,
    {
        assert(body[i - 1] == ls@[i as int]@);
        if !state_step_exec(&mut b, ls[i].as_slice()) {
            proof {
                lemma_state_error_sticks(body, i as int, body.len() as int);
            }
            return None;
        }
        i += 1;
    }
    assert(i - 1 == body.len());
    let states = nest_states(&b.states, &b.transitions);
    Some(StateDiagram { states, transitions: b.transitions })
}

// =====================================================================
// Entity-relationship diagram
// =====================================================================

/// Relationship operators: text and the cardinalities of both ends.
pub open spec fn er_op(k: int) -> (Seq<char>, ErCardinality, ErCardinality) {
    if k == 0 {
        (seq!['|', '|', '-', '-', '|', '|'], ErCardinality::ExactlyOne, ErCardinality::ExactlyOne)
    } else if k == 1 {
        (seq!['|', '|', '-', '-', 'o', '{'], ErCardinality::ExactlyOne, ErCardinality::ZeroOrMore)
    } else if k == 2 {
        (seq!['|', '|', '-', '-', '|', '{'], ErCardinality::ExactlyOne, ErCardinality::OneOrMore)
    } else if k == 3 {
        (seq!['}', 'o', '-', '-', 'o', '{'], ErCardinality::ZeroOrMore, ErCardinality::ZeroOrMore)
    } else if k == 4 {
        (seq!['}', 'o', '-', '-', '|', '|'], ErCardinality::ZeroOrMore, ErCardinality::ExactlyOne)
    } else if k == 5 {
        (seq!['}', 'o', '-', '-', '|', '{'], ErCardinality::ZeroOrMore, ErCardinality::OneOrMore)
    } else if k == 6 {
        (seq!['|', 'o', '-', '-', 'o', '{'], ErCardinality::ZeroOrOne, ErCardinality::ZeroOrMore)
    } else if k == 7 {
        (seq!['|', 'o', '-', '-', '|', '|'], ErCardinality::ZeroOrOne, ErCardinality::ExactlyOne)
    } else {
        (seq!['|', 'o', '-', '-', '|', '{'], ErCardinality::ZeroOrOne, ErCardinality::OneOrMore)
    }
}

pub open spec fn er_op_text() -> spec_fn(int) -> Seq<char> {
    |k: int| er_op(k).0
}

/// The target of a relationship: a quoted name or the trimmed rest.
pub open spec fn er_target(rest: Seq<char>) -> Option<Seq<char>> {
    if starts_with(rest, seq!['"']) {
        match find(after(rest, 1), seq!['"']) {
            Some(e) => Some(trim_matches(rest.subrange(0, e + 1), '"')),
            None => None,
        }
    } else {
        Some(trim(rest))
    }
}

/// What follows a relationship operator: the target, and the label after a
/// colon with its quotes removed.
pub open spec fn er_tail(rest: Seq<char>) -> (Seq<char>, Option<Seq<char>>) {
    match split_once(rest, seq![':']) {
        Some((a, b)) => (trim(a), Some(trim_matches(trim(b), '"'))),
        None => (trim(rest), None),
    }
}

/// A relationship line `A ||--o{ B : label`.
pub open spec fn er_relationship(line: Seq<char>) -> Option<ErRelationshipModel> {
    match first_op(line, er_op_text(), 0, 9) {
        None => None,
        Some(k) => {
            let (op, from_card, to_card) = er_op(k);
            let pos = find(line, op).unwrap();
            let (target, label) = er_tail(after(line, pos + op.len()));
            match er_target(target) {
                Some(to) => Some(
                    ErRelationshipModel {
                        from: trim(line.subrange(0, pos)),
                        to,
                        from_cardinality: from_card,
                        to_cardinality: to_card,
                        label,
                    },
                ),
                None => None,
            }
        },
    }
}

pub open spec fn bare_entity(name: Seq<char>) -> EntityModel {
    EntityModel { name, attributes: Seq::empty() }
}

/// The first entity from position `k` on with the given name.
pub open spec fn entity_from(es: Seq<EntityModel>, name: Seq<char>, k: int) -> Option<int>
    decreases es.len() - k,
{
    if k < 0 || k >= es.len() {
        None
    } else if es[k].name == name {
        Some(k)
    } else {
        entity_from(es, name, k + 1)
    }
}

/// The entities with one named `name` added if there is none yet.
pub open spec fn with_entity(es: Seq<EntityModel>, name: Seq<char>) -> Seq<EntityModel> {
    if entity_from(es, name, 0) is Some {
        es
    } else {
        es.push(bare_entity(name))
    }
}

/// The entities with `name` given these attributes: the entity already
/// named so is updated, or a new one is added.
pub open spec fn set_entity(es: Seq<EntityModel>, name: Seq<char>, attrs: Seq<ErAttributeModel>) -> Seq<
    EntityModel,
> {
    match entity_from(es, name, 0) {
        Some(i) => es.update(i, EntityModel { name, attributes: attrs }),
        None => es.push(EntityModel { name, attributes: attrs }),
    }
}

/// An attribute line of an entity block; a leading `*` marks a key.
pub open spec fn er_attribute(line: Seq<char>) -> ErAttributeModel {
    if starts_with(line, seq!['*']) {
        ErAttributeModel { name: trim(after(line, 1)), is_key: true, is_composite: false }
    } else {
        ErAttributeModel { name: line, is_key: false, is_composite: false }
    }
}

/// Parser state between ER lines: the entity whose `{` block is open and
/// the attributes read in it so far.
pub struct ErState {
    pub entities: Seq<EntityModel>,
    pub relationships: Seq<ErRelationshipModel>,
    pub current: Option<Seq<char>>,
    pub attrs: Seq<ErAttributeModel>,
}

/// Closes the open entity block, if any.
pub open spec fn er_flush(st: ErState) -> ErState {
    match st.current {
        Some(n) => ErState {
            entities: set_entity(st.entities, n, st.attrs),
            current: None,
            attrs: Seq::empty(),
            ..st
        },
        None => st,
    }
}

pub open spec fn er_rel_marker(k: int) -> Seq<char> {
    if k == 0 {
        seq!['|', '|', '-', '-']
    } else if k == 1 {
        seq!['}', 'o', '-', '-']
    } else {
        seq!['|', 'o', '-', '-']
    }
}

/// How one ER line changes the state. Inside an entity block every line up
/// to `}` is an attribute. Outside, a relationship also declares the two
/// entities it joins, `NAME {` opens a block and a bare name declares an
/// entity; an entity is listed once, where it is first named.
pub open spec fn er_step(st: ErState, raw: Seq<char>) -> ErState {
    let line = trim(raw);
    if line.len() == 0 || starts_with(line, kw_comment()) {
        st
    } else if st.current is Some {
        if line == seq!['}'] {
            er_flush(st)
        } else {
            ErState { attrs: st.attrs.push(er_attribute(line)), ..st }
        }
    } else if contains(line, er_rel_marker(0)) || contains(line, er_rel_marker(1)) || contains(
        line,
        er_rel_marker(2),
    ) {
        match er_relationship(line) {
            Some(r) => ErState {
                entities: with_entity(with_entity(st.entities, r.from), r.to),
                relationships: st.relationships.push(r),
                ..st
            },
            None => st,
        }
    } else if contains(line, seq!['{']) {
        ErState { current: Some(trim(trim_end_matches(line, '{'))), attrs: Seq::empty(), ..st }
    } else if line == seq!['}'] || contains(line, seq!['-', '-']) {
        st
    } else {
        ErState { entities: with_entity(st.entities, line), ..st }
    }
}

pub open spec fn er_fold(ls: Seq<Seq<char>>, n: int) -> ErState
    decreases n,
{
    if n <= 0 {
        ErState {
            entities: Seq::empty(),
            relationships: Seq::empty(),
            current: None,
            attrs: Seq::empty(),
        }
    } else {
        er_step(er_fold(ls, n - 1), ls[n - 1])
    }
}

/// The ER diagram a source describes; an entity block left open is kept.
pub open spec fn er_model(input: Seq<char>) -> ErDiagramModel {
    let body = body_lines(input);
    let st = er_flush(er_fold(body, body.len() as int));
    ErDiagramModel { entities: st.entities, relationships: st.relationships }
}

fn er_op_exec(k: usize) -> (r: (Vec<char>, ErCardinality, ErCardinality))
    requires
        k < 9,
    ensures
        r.0@ == er_op(k as int).0,
        r.1 == er_op(k as int).1,
        r.2 == er_op(k as int).2,
{
    if k == 0 {
        (vec!['|', '|', '-', '-', '|', '|'], ErCardinality::ExactlyOne, ErCardinality::ExactlyOne)
    } else if k == 1 {
        (vec!['|', '|', '-', '-', 'o', '{'], ErCardinality::ExactlyOne, ErCardinality::ZeroOrMore)
    } else if k == 2 {
        (vec!['|', '|', '-', '-', '|', '{'], ErCardinality::ExactlyOne, ErCardinality::OneOrMore)
    } else if k == 3 {
        (vec!['}', 'o', '-', '-', 'o', '{'], ErCardinality::ZeroOrMore, ErCardinality::ZeroOrMore)
    } else if k == 4 {
        (vec!['}', 'o', '-', '-', '|', '|'], ErCardinality::ZeroOrMore, ErCardinality::ExactlyOne)
    } else if k == 5 {
        (vec!['}', 'o', '-', '-', '|', '{'], ErCardinality::ZeroOrMore, ErCardinality::OneOrMore)
    } else if k == 6 {
        (vec!['|', 'o', '-', '-', 'o', '{'], ErCardinality::ZeroOrOne, ErCardinality::ZeroOrMore)
    } else if k == 7 {
        (vec!['|', 'o', '-', '-', '|', '|'], ErCardinality::ZeroOrOne, ErCardinality::ExactlyOne)
    } else {
        (vec!['|', 'o', '-', '-', '|', '{'], ErCardinality::ZeroOrOne, ErCardinality::OneOrMore)
    }
}

fn er_target_exec(rest: &[char]) -> (r: Option<Vec<char>>)
    ensures
        opt_chars(r) == er_target(rest@),
{
    let q = vec!['"'];
    assert(q@ == seq!['"']);
    if starts_with_chars(rest, q.as_slice()) {
        let tail = slice_to_vec(rest, 1, rest.len());
        match find_char(tail.as_slice(), '"') {
            Some(e) => {
                proof {
                    lemma_find_bounds(tail@, seq!['"']);
                }
                let quoted = slice_to_vec(rest, 0, e + 1);
                Some(trim_matches_chars(quoted.as_slice(), '"'))
            },
            None => None,
        }
    } else {
        Some(trim_chars(rest))
    }
}

fn er_tail_exec(rest: &[char]) -> (r: (Vec<char>, Option<Vec<char>>))
    ensures
        (r.0@, opt_chars(r.1)) == er_tail(rest@),
{
    let colon = vec![':'];
    assert(colon@ == seq![':']);
    match split_once_exec(rest, colon.as_slice()) {
        Some((a, b)) => {
            let t = trim_chars(a.as_slice());
            let l = trim_chars(b.as_slice());
            (t, Some(trim_matches_chars(l.as_slice(), '"')))
        },
        None => (trim_chars(rest), None),
    }
}

fn er_relationship_exec(line: &[char]) -> (r: Option<ErRelationship>)
    ensures
        r.deep_view() == er_relationship(line@),
{
    let ll = line.len();
    let mut k: usize = 0;
    while k < 9
        invariant
            k <= 9,
            ll == line@.len(),
            first_op(line@, er_op_text(), 0, 9) == first_op(line@, er_op_text(), k as int, 9),
        decreases 9 - k,
    {
        let (op, from_card, to_card) = er_op_exec(k);
        assert(er_op_text()(k as int) == op@);
        if contains_chars(line, op.as_slice()) {
            assert(first_op(line@, er_op_text(), 0, 9) == Some(k as int));
            proof {
                lemma_find_bounds(line@, op@);
            }
            let pos = find_chars(line, op.as_slice()).unwrap();
            let head = slice_to_vec(line, 0, pos);
            let from = trim_chars(head.as_slice());
            let rest = slice_to_vec(line, pos + op.len(), ll);
            let (target, label) = er_tail_exec(rest.as_slice());
            return match er_target_exec(target.as_slice()) {
                Some(to) => Some(
                    ErRelationship {
                        from: to_string_vec(&from),
                        to: to_string_vec(&to),
                        from_cardinality: from_card,
                        to_cardinality: to_card,
                        label: opt_string(label),
                    },
                ),
                None => None,
            };
        }
        k += 1;
    }
    None
}

struct ErBuilder {
    entities: Vec<ErEntity>,
    relationships: Vec<ErRelationship>,
    current: Option<Vec<char>>,
    attrs: Vec<ErAttribute>,
}

impl ErBuilder {
    spec fn state(&self) -> ErState {
        ErState {
            entities: self.entities.deep_view(),
            relationships: self.relationships.deep_view(),
            current: opt_chars(self.current),
            attrs: self.attrs.deep_view(),
        }
    }
}

fn entity_index(es: &Vec<ErEntity>, name: &[char]) -> (r: Option<usize>)
    ensures
        r matches Some(i) ==> entity_from(es.deep_view(), name@, 0) == Some(i as int) && i < es@.len(),
        r is None ==> entity_from(es.deep_view(), name@, 0) is None,
{
    let ghost dv = es.deep_view();
    let mut i: usize = 0;
    while i < es.len()
        invariant
            i <= es@.len(),
            dv == es.deep_view(),
            dv.len() == es@.len(),
            entity_from(dv, name@, 0) == entity_from(dv, name@, i as int),
        decreases es@.len() - i,
    {
        let n = string_chars(&es[i].name);
        assert(dv[i as int].name == es@[i as int].name@);
        if eq_chars(n.as_slice(), name) {
            return Some(i);
        }
        i += 1;
    }
    None
}

fn with_entity_exec(v: &mut Vec<ErEntity>, name: &Vec<char>)
    ensures
        final(v).deep_view() == with_entity(old(v).deep_view(), name@),
{
    if entity_index(v, name.as_slice()).is_none() {
        let ghost before = v.deep_view();
        let e = ErEntity { name: to_string_vec(name), attributes: Vec::new() };
        assert(e.attributes.deep_view() =~= Seq::<ErAttributeModel>::empty());
        v.push(e);
        assert(v.deep_view() =~= before.push(bare_entity(name@)));
    }
}

fn er_flush_exec(b: &mut ErBuilder)
    ensures
        final(b).state() == er_flush(old(b).state()),
{
    if let Some(n) = b.current.take() {
        let mut attrs: Vec<ErAttribute> = Vec::new();
        std::mem::swap(&mut attrs, &mut b.attrs);
        assert(b.attrs.deep_view() =~= Seq::<ErAttributeModel>::empty());
        let ghost before = b.entities.deep_view();
        let e = ErEntity { name: to_string_vec(&n), attributes: attrs };
        match entity_index(&b.entities, n.as_slice()) {
            Some(i) => {
                b.entities.set(i, e);
                assert(b.entities.deep_view() =~= before.update(
                    i as int,
                    EntityModel { name: n@, attributes: attrs.deep_view() },
                ));
            },
            None => {
                b.entities.push(e);
                assert(b.entities.deep_view() =~= before.push(
                    EntityModel { name: n@, attributes: attrs.deep_view() },
                ));
            },
        }
    }
}

fn er_attribute_exec(line: &[char]) -> (r: ErAttribute)
    ensures
        r.deep_view() == er_attribute(line@),
{
    let star = vec!['*'];
    assert(star@ == seq!['*']);
    if starts_with_chars(line, star.as_slice()) {
        let rest = slice_to_vec(line, 1, line.len());
        let n = trim_chars(rest.as_slice());
        assert(rest@ == after(line@, 1));
        ErAttribute { name: to_string_vec(&n), is_key: true, is_composite: false }
    } else {
        let n = slice_to_vec(line, 0, line.len());
        assert(n@ =~= line@);
        ErAttribute { name: to_string_vec(&n), is_key: false, is_composite: false }
    }
}

fn er_step_exec(b: &mut ErBuilder, raw: &[char])
    ensures
        final(b).state() == er_step(old(b).state(), raw@),
{
    let line = trim_chars(raw);
    let comment = vec!['%', '%'];
    if line.len() == 0 || starts_with_chars(line.as_slice(), comment.as_slice()) {
        return;
    }
    let close = vec!['}'];
    assert(close@ == seq!['}']);
    if b.current.is_some() {
        if eq_chars(line.as_slice(), close.as_slice()) {
            er_flush_exec(b);
        } else {
            let ghost before = b.attrs.deep_view();
            let a = er_attribute_exec(line.as_slice());
            b.attrs.push(a);
            assert(b.attrs.deep_view() =~= before.push(a.deep_view()));
        }
        return;
    }
    let m0 = vec!['|', '|', '-', '-'];
    let m1 = vec!['}', 'o', '-', '-'];
    let m2 = vec!['|', 'o', '-', '-'];
    assert(m0@ == er_rel_marker(0));
    assert(m1@ == er_rel_marker(1));
    assert(m2@ == er_rel_marker(2));
    if contains_chars(line.as_slice(), m0.as_slice()) || contains_chars(
        line.as_slice(),
        m1.as_slice(),
    ) || contains_chars(line.as_slice(), m2.as_slice()) {
        match er_relationship_exec(line.as_slice()) {
            Some(r) => {
                let from = string_chars(&r.from);
                let to = string_chars(&r.to);
                with_entity_exec(&mut b.entities, &from);
                with_entity_exec(&mut b.entities, &to);
                let ghost before = b.relationships.deep_view();
                b.relationships.push(r);
                assert(b.relationships.deep_view() =~= before.push(r.deep_view()));
            },
            None => {},
        }
        return;
    }
    let brace = vec!['{'];
    let dashes = vec!['-', '-'];
    assert(brace@ == seq!['{']);
    assert(dashes@ == seq!['-', '-']);
    if contains_chars(line.as_slice(), brace.as_slice()) {
        let t = trim_end_matches_chars(line.as_slice(), '{');
        b.current = Some(trim_chars(t.as_slice()));
        b.attrs = Vec::new();
        assert(b.attrs.deep_view() =~= Seq::<ErAttributeModel>::empty());
    } else if eq_chars(line.as_slice(), close.as_slice()) || contains_chars(
        line.as_slice(),
        dashes.as_slice(),
    ) {
    } else {
        with_entity_exec(&mut b.entities, &line);
    }
}

fn parse_er(input: &[char]) -> (r: ErDiagram)
    ensures
        r.deep_view() == er_model(input@),
{
    let ls = split_lines(input);
    let ghost lv = ls@.map_values(|l: Vec<char>| l@);
    let mut b = ErBuilder {
        entities: Vec::new(),
        relationships: Vec::new(),
        current: None,
        attrs: Vec::new(),
    };
    let ghost body = body_lines(input@);
    assert(b.entities.deep_view() =~= Seq::<EntityModel>::empty());
    assert(b.relationships.deep_view() =~= Seq::<ErRelationshipModel>::empty());
    assert(b.attrs.deep_view() =~= Seq::<ErAttributeModel>::empty());
    let mut i: usize = 1;
    while i < ls.len()
        invariant
            1 <= i <= ls@.len() || (ls@.len() == 0 && i == 1),
            lv == ls@.map_values(|l: Vec<char>| l@),
            lv == lines(input@),
            body == body_lines(input@),
            b.state() == er_fold(body, i - 1),
            body.len() == if ls@.len() > 0 { ls@.len() - 1 } else { 0 },
        decreases ls@.len() - i,
    {
        assert(body[i - 1] == ls@[i as int]@);
        er_step_exec(&mut b, ls[i].as_slice());
        i += 1;
    }
    assert(i - 1 == body.len());
    er_flush_exec(&mut b);
    ErDiagram { entities: b.entities, relationships: b.relationships }
}


// =====================================================================
// Diagram detection
// =====================================================================

pub open spec fn class_error() -> Seq<char> {
    "Class parse error: \"Missing >> in stereotype\""@
}

pub open spec fn state_error() -> Seq<char> {
    "State parse error: \"Missing closing quote in state label\""@
}

pub open spec fn is_flowchart_header(first: Seq<char>) -> bool {
    starts_with(first, "flowchart"@) || starts_with(first, "graph"@)
}

pub open spec fn is_sequence_header(first: Seq<char>) -> bool {
    starts_with(first, "sequenceDiagram"@) || starts_with(first, "sequence"@)
}

pub open spec fn is_class_header(first: Seq<char>) -> bool {
    starts_with(first, "classDiagram"@) || starts_with(first, "class"@)
}

pub open spec fn is_state_header(first: Seq<char>) -> bool {
    starts_with(first, "stateDiagram"@) || starts_with(first, "state"@)
}

pub open spec fn is_er_header(first: Seq<char>) -> bool {
    starts_with(first, "erDiagram"@) || starts_with(first, "er"@)
}

/// The source from its first line that is not a `%%` comment or `%%{init}%%`
/// directive, trimmed.
pub open spec fn skip_comments(t: Seq<char>) -> Seq<char>
    decreases t.len(),
{
    if starts_with(t, kw_comment()) {
        match find(t, seq!['\n']) {
            Some(i) => {
                proof {
                    lemma_find_bounds(t, seq!['\n']);
                    lemma_trim_start_is_suffix(after(t, i + 1));
                    lemma_trim_end_is_prefix(trim_start(after(t, i + 1)));
                }
                skip_comments(trim(after(t, i + 1)))
            },
            None => Seq::empty(),
        }
    } else {
        t
    }
}

/// The part of a source that the diagram parsers read: trimmed, with
/// leading comment lines skipped.
pub open spec fn diagram_source(input: Seq<char>) -> Seq<char> {
    skip_comments(trim(input))
}

/// The text of a header line before its first space.
pub open spec fn first_word(first: Seq<char>) -> Seq<char> {
    match find(first, seq![' ']) {
        Some(i) => first.subrange(0, i),
        None => first,
    }
}

pub open spec fn unsupported_diagram_error(first: Seq<char>) -> Seq<char> {
    "Unsupported Mermaid diagram type '"@ + first_word(first) + supported_types_tail()
}

pub open spec fn supported_types_tail() -> Seq<char> {
    "'. Supported types: flowchart, graph, sequenceDiagram, classDiagram, stateDiagram, erDiagram"@
}

/// What a Mermaid source means: the first line of the source, after leading
/// `%%` lines, picks the diagram kind and that kind's parser reads the source
/// from there. An empty source is an empty flowchart; a header of no known
/// kind is an error naming it and listing the supported kinds.
pub open spec fn mermaid_model(input: Seq<char>) -> Result<DiagramModel, Seq<char>> {
    let t = diagram_source(input);
    let first = header_line(t);
    if is_flowchart_header(first) {
        Ok(DiagramModel::Flowchart(flowchart_model(t)))
    } else if is_sequence_header(first) {
        Ok(DiagramModel::Sequence(sequence_model(t)))
    } else if is_class_header(first) {
        match class_model(t) {
            Some(m) => Ok(DiagramModel::ClassDiagram(m)),
            None => Err(class_error()),
        }
    } else if is_state_header(first) {
        match state_model(t) {
            Some(m) => Ok(DiagramModel::StateDiagram(m)),
            None => Err(state_error()),
        }
    } else if is_er_header(first) {
        Ok(DiagramModel::ErDiagram(er_model(t)))
    } else if first.len() == 0 {
        Ok(DiagramModel::Flowchart(flowchart_model(t)))
    } else {
        Err(unsupported_diagram_error(first))
    }
}

/// Sources whose class body holds a method with `)` before `(`; the
/// parameter slice of such a method is out of order.
pub open spec fn mermaid_panics(input: Seq<char>) -> bool {
    let t = diagram_source(input);
    let first = header_line(t);
    !is_flowchart_header(first) && !is_sequence_header(first) && is_class_header(first)
        && class_source_panics(t)
}

fn lit_prefix(first: &[char], lit: &str) -> (b: bool)
    ensures
        b == starts_with(first@, lit@),
{
    let p = str_to_chars(lit);
    starts_with_chars(first, p.as_slice())
}

fn header_exec(t: &[char]) -> (r: Vec<char>)
    ensures
        r@ == header_line(t@),
{
    let ls = split_lines(t);
    let ghost lv = ls@.map_values(|l: Vec<char>| l@);
    if ls.len() > 0 {
        assert(lv[0] == ls@[0]@);
        slice_to_vec(ls[0].as_slice(), 0, ls[0].len())
    } else {
        let e: Vec<char> = Vec::new();
        assert(e@ =~= Seq::<char>::empty());
        e
    }
}

/// Which parser a header line selects: 0 flowchart, 1 sequence, 2 class,
/// 3 state, 4 ER, 5 none.
fn header_kind(first: &[char]) -> (k: u8)
    ensures
        k == 0 <==> is_flowchart_header(first@),
        k == 1 <==> !is_flowchart_header(first@) && is_sequence_header(first@),
        k == 2 <==> !is_flowchart_header(first@) && !is_sequence_header(first@) && is_class_header(
            first@,
        ),
        k == 3 <==> !is_flowchart_header(first@) && !is_sequence_header(first@)
            && !is_class_header(first@) && is_state_header(first@),
        k == 4 <==> !is_flowchart_header(first@) && !is_sequence_header(first@)
            && !is_class_header(first@) && !is_state_header(first@) && is_er_header(first@),
        k <= 5,
{
    if lit_prefix(first, "flowchart") || lit_prefix(first, "graph") {
        0
    } else if lit_prefix(first, "sequenceDiagram") || lit_prefix(first, "sequence") {
        1
    } else if lit_prefix(first, "classDiagram") || lit_prefix(first, "class") {
        2
    } else if lit_prefix(first, "stateDiagram") || lit_prefix(first, "state") {
        3
    } else if lit_prefix(first, "erDiagram") || lit_prefix(first, "er") {
        4
    } else {
        5
    }
}

fn skip_comments_exec(t: &[char]) -> (r: Vec<char>)
    ensures
        r@ == skip_comments(t@),
{
    let mut cur = slice_to_vec(t, 0, t.len());
    assert(cur@ == t@);
    let comment = vec!['%', '%'];
    assert(comment@ == kw_comment());
    loop
        invariant
            skip_comments(cur@) == skip_comments(t@),
            comment@ == kw_comment(),
        decreases cur@.len(),
    {
        if !starts_with_chars(cur.as_slice(), comment.as_slice()) {
            return cur;
        }
        match find_char(cur.as_slice(), '\n') {
            Some(i) => {
                proof {
                    lemma_find_bounds(cur@, seq!['\n']);
                    lemma_trim_start_is_suffix(after(cur@, i + 1));
                    lemma_trim_end_is_prefix(trim_start(after(cur@, i + 1)));
                }
                assert(seq!['\n'].len() == 1);
                assert(i + 1 <= cur@.len());
                assert(cur@.len() == cur.len());
                let rest = slice_to_vec(cur.as_slice(), i + 1, cur.len());
                assert(rest@ == after(cur@, i + 1));
                cur = trim_chars(rest.as_slice());
            },
            None => {
                return Vec::new();
            },
        }
    }
}

fn unsupported_message(first: &[char]) -> (r: String)
    ensures
        r@ == unsupported_diagram_error(first@),
{
    let mut msg = str_to_chars("Unsupported Mermaid diagram type '");
    let mut word = match find_char(first, ' ') {
        Some(i) => {
            proof {
                lemma_find_bounds(first@, seq![' ']);
            }
            slice_to_vec(first, 0, i)
        },
        None => slice_to_vec(first, 0, first.len()),
    };
    assert(word@ == first_word(first@));
    msg.append(&mut word);
    let mut tail = str_to_chars(
        "'. Supported types: flowchart, graph, sequenceDiagram, classDiagram, stateDiagram, erDiagram",
    );
    msg.append(&mut tail);
    chars_to_string(msg.as_slice())
}

/// Parses a Mermaid source into its syntax tree. The first line that is not
/// a `%%` comment selects the diagram kind; an empty source is an empty
/// flowchart and a header of no known kind is an error. An unclosed class
/// stereotype or state label is an error whose message names the diagram
/// kind.
pub fn parse_mermaid(input: &str) -> (r: Result<MermaidDiagram, String>)
    requires
        !mermaid_panics(input@),
    ensures
        r matches Ok(d) ==> mermaid_model(input@) == Ok::<DiagramModel, Seq<char>>(d.deep_view()),
        r matches Err(e) ==> mermaid_model(input@) == Err::<DiagramModel, Seq<char>>(e@),
{
    let chars = str_to_chars(input);
    let tt = trim_chars(chars.as_slice());
    let t = skip_comments_exec(tt.as_slice());
    assert(t@ == diagram_source(input@));
    let first = header_exec(t.as_slice());
    let k = header_kind(first.as_slice());
    if k == 5 && first.len() > 0 {
        return Err(unsupported_message(first.as_slice()));
    }
    if k == 1 {
        Ok(MermaidDiagram::Sequence(parse_sequence(t.as_slice())))
    } else if k == 2 {
        match parse_class(t.as_slice()) {
            Some(d) => Ok(MermaidDiagram::ClassDiagram(d)),
            None => Err("Class parse error: \"Missing >> in stereotype\"".to_string()),
        }
    } else if k == 3 {
        match parse_state(t.as_slice()) {
            Some(d) => Ok(MermaidDiagram::StateDiagram(d)),
            None => Err("State parse error: \"Missing closing quote in state label\"".to_string()),
        }
    } else if k == 4 {
        Ok(MermaidDiagram::ErDiagram(parse_er(t.as_slice())))
    } else {
        Ok(MermaidDiagram::Flowchart(parse_flowchart(t.as_slice())))
    }
}

fn class_step_would_panic(b: &ClassBuilder, raw: &[char]) -> (r: bool)
    ensures
        r == class_step_panics(b.state(), raw@),
{
    let line = trim_chars(raw);
    let comment = vec!['%', '%'];
    let brace = vec!['}'];
    let kw = vec!['c', 'l', 'a', 's', 's', ' '];
    assert(brace@ == seq!['}']);
    if line.len() == 0 || starts_with_chars(line.as_slice(), comment.as_slice()) || eq_chars(
        line.as_slice(),
        brace.as_slice(),
    ) || starts_with_chars(line.as_slice(), kw.as_slice()) || b.current.is_none() {
        return false;
    }
    if member_visibility_exec(line[0]).is_none() {
        return false;
    }
    let m = slice_to_vec(line.as_slice(), 1, line.len());
    let member = trim_chars(m.as_slice());
    let paren = vec!['('];
    assert(paren@ == seq!['(']);
    if !contains_chars(member.as_slice(), paren.as_slice()) {
        return false;
    }
    match (find_char(member.as_slice(), '('), find_char(member.as_slice(), ')')) {
        (Some(p), Some(c)) => c <= p,
        _ => false,
    }
}

/// Whether `parse_mermaid` accepts the source: false exactly for class
/// diagrams holding a method whose first `)` comes before its first `(`.
pub fn mermaid_source_supported(input: &str) -> (b: bool)
    ensures
        b == !mermaid_panics(input@),
{
    let chars = str_to_chars(input);
    let tt = trim_chars(chars.as_slice());
    let t = skip_comments_exec(tt.as_slice());
    let first = header_exec(t.as_slice());
    if header_kind(first.as_slice()) != 2 {
        return true;
    }
    let ls = split_lines(t.as_slice());
    let ghost lv = ls@.map_values(|l: Vec<char>| l@);
    let ghost body = body_lines(t@);
    let mut b = ClassBuilder { classes: Vec::new(), relations: Vec::new(), current: None };
    assert(b.classes.deep_view() =~= Seq::<ClassModel>::empty());
    assert(b.relations.deep_view() =~= Seq::<RelationModel>::empty());
    assert(mermaid_panics(input@) == class_fold_panics(body, body.len() as int));
    let mut i: usize = 1;
    while i < ls.len()
        invariant
            mermaid_panics(input@) == class_fold_panics(body, body.len() as int),
            1 <= i <= ls@.len() || (ls@.len() == 0 && i == 1),
            lv == ls@.map_values(|l: Vec<char>| l@),
            lv == lines(t@),
            body == body_lines(t@),
            class_fold(body, i - 1) == Some(b.state()),
            !class_fold_panics(body, i - 1),
            body.len() == if ls@.len() > 0 { ls@.len() - 1 } else { 0 },
        decreases ls@.len() - i,
    {
        assert(body[i - 1] == ls@[i as int]@);
        if class_step_would_panic(&b, ls[i].as_slice()) {
            proof {
                assert(class_fold_panics(body, i as int));
                lemma_class_panics_mono(body, i as int, body.len() as int);
            }
            return false;
        }
        let ghost st0 = b.state();
        if !class_step_exec(&mut b, ls[i].as_slice()) {
            proof {
                assert(class_fold(body, i as int) is None);
                assert(!class_fold_panics(body, i as int));
                lemma_class_no_panic_after_error(body, i as int, body.len() as int);
            }
            return true;
        }
        assert(!class_fold_panics(body, i as int));
        i += 1;
    }
    assert(i - 1 == body.len());
    true
}

/// After a syntax error the class parser reads no further line.
proof fn lemma_class_no_panic_after_error(ls: Seq<Seq<char>>, m: int, n: int)
    requires
        0 < m <= n,
        class_fold(ls, m) is None,
        !class_fold_panics(ls, m),
    ensures
        !class_fold_panics(ls, n),
    decreases n - m,
{
    if m < n {
        lemma_class_no_panic_after_error(ls, m, n - 1);
        lemma_class_error_sticks(ls, m, n - 1);
    }
}

// ----- laws -----

/// Every edge leaves and enters a node of the chart.
pub open spec fn edges_join_nodes(nodes: Seq<NodeModel>, edges: Seq<EdgeModel>) -> bool {
    forall|k: int| 0 <= k < edges.len() ==> has_node(nodes, #[trigger] edges[k].from) && has_node(nodes, edges[k].to)
}

proof fn lemma_has_node_push(nodes: Seq<NodeModel>, n: NodeModel, id: Seq<char>)
    requires
        has_node(nodes, id),
    ensures
        has_node(nodes.push(n), id),
{
    let i = choose|i: int| 0 <= i < nodes.len() && nodes[i].id == id;
    assert(nodes.push(n)[i].id == id);
}

proof fn lemma_with_node(nodes: Seq<NodeModel>, info: NodeInfo)
    ensures
        has_node(with_node(nodes, info), info.0),
        forall|id: Seq<char>| has_node(nodes, id) ==> #[trigger] has_node(with_node(nodes, info), id),
{
    if !has_node(nodes, info.0) {
        let m = nodes.push(info_node(info));
        assert(m[nodes.len() as int].id == info.0);
        assert forall|id: Seq<char>| has_node(nodes, id) implies #[trigger] has_node(m, id) by {
            lemma_has_node_push(nodes, info_node(info), id);
        }
    }
}

proof fn lemma_flow_step_joins(st: FlowState, raw: Seq<char>)
    requires
        edges_join_nodes(st.nodes, st.edges),
    ensures
        edges_join_nodes(flow_step(st, raw).nodes, flow_step(st, raw).edges),
{
    let line = trim(raw);
    let next = flow_step(st, raw);
    if line.len() == 0 || starts_with(line, kw_comment()) || starts_with(line, kw_subgraph()) || line
        == kw_end() {
    } else {
        match edge_line(line) {
            Some((f, t, label, style, head, tail)) => {
                let n1 = with_node(st.nodes, f);
                let n2 = with_node(n1, t);
                lemma_with_node(st.nodes, f);
                lemma_with_node(n1, t);
                assert forall|k: int| 0 <= k < next.edges.len() implies has_node(n2, #[trigger] next.edges[k].from)
                    && has_node(n2, next.edges[k].to) by {
                    if k < st.edges.len() {
                        assert(next.edges[k] == st.edges[k]);
                    }
                }
            },
            None => match node_definition(line) {
                Some(info) => {
                    assert forall|k: int| 0 <= k < next.edges.len() implies has_node(next.nodes, #[trigger] next.edges[k].from)
                        && has_node(next.nodes, next.edges[k].to) by {
                        lemma_has_node_push(st.nodes, info_node(info), st.edges[k].from);
                        lemma_has_node_push(st.nodes, info_node(info), st.edges[k].to);
                    }
                },
                None => {},
            },
        }
    }
}

proof fn lemma_flow_fold_joins(ls: Seq<Seq<char>>, n: int)
    ensures
        edges_join_nodes(flow_fold(ls, n).nodes, flow_fold(ls, n).edges),
    decreases n,
{
    if n > 0 {
        lemma_flow_fold_joins(ls, n - 1);
        lemma_flow_step_joins(flow_fold(ls, n - 1), ls[n - 1]);
    }
}

/// Every edge of a parsed flowchart joins two of its nodes: an edge line
/// registers the nodes it names.
pub proof fn flowchart_edges_join_nodes(input: Seq<char>)
    ensures
        edges_join_nodes(flowchart_model(input).nodes, flowchart_model(input).edges),
{
    let body = body_lines(input);
    lemma_flow_fold_joins(body, body.len() as int);
}


/// A body line that the flowchart parser reads as an edge: not blank, not a
/// comment, not a subgraph's start or end, and an edge line.
pub open spec fn plain_edge_line(raw: Seq<char>) -> bool {
    let line = trim(raw);
    &&& line.len() > 0
    &&& !starts_with(line, kw_comment())
    &&& !starts_with(line, kw_subgraph())
    &&& line != kw_end()
    &&& edge_line(line) is Some
}

pub open spec fn line_edge(raw: Seq<char>) -> EdgeInfo {
    edge_line(trim(raw)).unwrap()
}

/// The identifiers the first `n` edge lines name, source then target.
pub open spec fn endpoint_ids(ls: Seq<Seq<char>>, n: int) -> Seq<Seq<char>>
    decreases n,
{
    if n <= 0 {
        Seq::empty()
    } else {
        let e = line_edge(ls[n - 1]);
        endpoint_ids(ls, n - 1).push(e.0.0).push(e.1.0)
    }
}

/// The distinct entries of `s`, in the order they first appear.
pub open spec fn first_seen(s: Seq<Seq<char>>) -> Seq<Seq<char>>
    decreases s.len(),
{
    if s.len() == 0 {
        Seq::empty()
    } else {
        let d = first_seen(s.drop_last());
        if d.contains(s.last()) {
            d
        } else {
            d.push(s.last())
        }
    }
}

pub open spec fn node_ids(nodes: Seq<NodeModel>) -> Seq<Seq<char>> {
    nodes.map_values(|nd: NodeModel| nd.id)
}

proof fn lemma_with_node_ids(nodes: Seq<NodeModel>, info: NodeInfo)
    ensures
        node_ids(with_node(nodes, info)) == if node_ids(nodes).contains(info.0) {
            node_ids(nodes)
        } else {
            node_ids(nodes).push(info.0)
        },
{
    let ids = node_ids(nodes);
    if has_node(nodes, info.0) {
        let i = choose|i: int| 0 <= i < nodes.len() && nodes[i].id == info.0;
        assert(ids[i] == info.0);
    } else {
        assert(!ids.contains(info.0)) by {
            if ids.contains(info.0) {
                let i = choose|i: int| 0 <= i < ids.len() && ids[i] == info.0;
                assert(nodes[i].id == info.0);
            }
        }
        assert(node_ids(nodes.push(info_node(info))) =~= ids.push(info.0));
    }
}

proof fn lemma_plain_fold(ls: Seq<Seq<char>>, n: int)
    requires
        0 <= n <= ls.len(),
        forall|i: int| 0 <= i < ls.len() ==> plain_edge_line(#[trigger] ls[i]),
    ensures
        flow_fold(ls, n).edges.len() == n,
        forall|i: int|
            0 <= i < n ==> {
                &&& (#[trigger] flow_fold(ls, n).edges[i]).from == line_edge(ls[i]).0.0
                &&& flow_fold(ls, n).edges[i].to == line_edge(ls[i]).1.0
                &&& flow_fold(ls, n).edges[i].min_length == 1
            },
        node_ids(flow_fold(ls, n).nodes) == first_seen(endpoint_ids(ls, n)),
        flow_fold(ls, n).subgraphs.len() == 0,
        flow_fold(ls, n).open_subgraph is None,
    decreases n,
{
    if n > 0 {
        lemma_plain_fold(ls, n - 1);
        let st = flow_fold(ls, n - 1);
        let e = line_edge(ls[n - 1]);
        assert(plain_edge_line(ls[n - 1]));
        let ids = endpoint_ids(ls, n - 1);
        assert(flow_fold(ls, n) == flow_step(st, ls[n - 1]));
        assert(flow_fold(ls, n).nodes == with_node(with_node(st.nodes, e.0), e.1));
        lemma_with_node_ids(st.nodes, e.0);
        lemma_with_node_ids(with_node(st.nodes, e.0), e.1);
        let x = ids.push(e.0.0);
        assert(x.drop_last() == ids);
        assert(x.last() == e.0.0);
        assert(first_seen(x) == if first_seen(ids).contains(e.0.0) {
            first_seen(ids)
        } else {
            first_seen(ids).push(e.0.0)
        });
        let y = x.push(e.1.0);
        assert(y.drop_last() == x);
        assert(y.last() == e.1.0);
        assert(first_seen(y) == if first_seen(x).contains(e.1.0) {
            first_seen(x)
        } else {
            first_seen(x).push(e.1.0)
        });
        assert(endpoint_ids(ls, n) == y);
    }
}

/// A flowchart whose body lines are all edges has those edges, in line
/// order and of length 1, and as its nodes every identifier they name,
/// once each, in the order of first appearance; it has no subgraphs.
pub proof fn edge_lines_give_edges_and_nodes(input: Seq<char>)
    requires
        forall|i: int| 0 <= i < body_lines(input).len() ==> plain_edge_line(#[trigger] body_lines(input)[i]),
    ensures
        ({
            let body = body_lines(input);
            let m = flowchart_model(input);
            &&& m.edges.len() == body.len()
            &&& forall|i: int|
                0 <= i < body.len() ==> {
                    &&& (#[trigger] m.edges[i]).from == line_edge(body[i]).0.0
                    &&& m.edges[i].to == line_edge(body[i]).1.0
                    &&& m.edges[i].min_length == 1
                }
            &&& node_ids(m.nodes) == first_seen(endpoint_ids(body, body.len() as int))
            &&& m.subgraphs.len() == 0
        }),
{
    let body = body_lines(input);
    lemma_plain_fold(body, body.len() as int);
}

/// The same for a whole Mermaid source as `parse_mermaid` reads it: when
/// its header (after leading comments) names a flowchart and every later
/// line is an edge, the diagram is that flowchart.
pub proof fn flowchart_sources_give_their_edges(input: Seq<char>)
    requires
        is_flowchart_header(header_line(diagram_source(input))),
        forall|i: int|
            0 <= i < body_lines(diagram_source(input)).len() ==> plain_edge_line(
                #[trigger] body_lines(diagram_source(input))[i],
            ),
    ensures
        ({
            let body = body_lines(diagram_source(input));
            &&& mermaid_model(input) matches Ok(DiagramModel::Flowchart(m))
            &&& m.edges.len() == body.len()
            &&& forall|i: int|
                0 <= i < body.len() ==> {
                    &&& (#[trigger] m.edges[i]).from == line_edge(body[i]).0.0
                    &&& m.edges[i].to == line_edge(body[i]).1.0
                    &&& m.edges[i].min_length == 1
                }
            &&& node_ids(m.nodes) == first_seen(endpoint_ids(body, body.len() as int))
            &&& m.subgraphs.len() == 0
        }),
{
    edge_lines_give_edges_and_nodes(diagram_source(input));
}

} // verus!
