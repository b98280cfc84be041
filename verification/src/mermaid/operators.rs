//! What the operators of Mermaid's line syntax mean: the line style and arrow
//! ends of a flowchart edge, the line style and kind of a sequence message,
//! and the kind of a class relation follow from the operator's characters.
use vstd::prelude::*;
use super::parser::{
    shape_delims, class_relation, edge_line, edge_op, edge_op_text, first_op, lemma_first_op_range, msg_op, msg_op_text,
    rel_op, rel_op_text, sequence_message,
};
use crate::text::contains;
use super::types::{ArrowType, ClassRelationType, EdgeStyle, MessageKind, MessageType};

verus! {

/// Whether `c` occurs in `s`.
pub open spec fn occurs(s: Seq<char>, c: char) -> bool
    decreases s.len(),
{
    s.len() > 0 && (s[0] == c || occurs(s.drop_first(), c))
}

/// The line style and arrow ends an edge operator's characters call for: a
/// `.` makes the line dotted and a `=` thick (otherwise solid); a last `>`,
/// `o` or `x` is an arrow, circle or cross head; a first `<`, or a `>` just
/// before the last character, is an arrow tail.
pub open spec fn edge_op_meaning(t: Seq<char>, style: EdgeStyle, head: ArrowType, tail: ArrowType) -> bool {
    &&& (style == EdgeStyle::Dotted <==> occurs(t, '.'))
    &&& (style == EdgeStyle::Thick <==> occurs(t, '='))
    &&& (style == EdgeStyle::Solid <==> !occurs(t, '.') && !occurs(t, '='))
    &&& (head == ArrowType::Arrow <==> t.last() == '>')
    &&& (head == ArrowType::Circle <==> t.last() == 'o')
    &&& (head == ArrowType::Cross <==> t.last() == 'x')
    &&& (tail == ArrowType::Arrow <==> t[0] == '<' || t[t.len() - 2] == '>')
    &&& t.len() >= 2
}

/// The kind of message a sequence arrow's characters call for: one that
/// starts with `--` is dotted (otherwise solid); one that starts with `>`
/// is asynchronous; a dotted one that ends in `>>` is a reply; the rest are
/// synchronous.
pub open spec fn msg_op_meaning(t: Seq<char>, line: MessageType, kind: MessageKind) -> bool {
    let dotted = t.len() >= 2 && t[0] == '-' && t[1] == '-';
    &&& (line == MessageType::Dotted <==> dotted)
    &&& (kind == MessageKind::Async <==> t[0] == '>')
    &&& (kind == MessageKind::Reply <==> dotted && t.last() == '>' && t[t.len() - 2] == '>')
    &&& t.len() >= 2
}

/// The relation a class-diagram operator's characters call for, by the
/// character it starts with: `<` (`<|--`) inheritance, `*` composition,
/// `o` aggregation, `-` association; a dotted operator (starting with `.`)
/// is a realization when it has a `|` (`..|>`) and a dependency otherwise.
pub open spec fn rel_op_meaning(t: Seq<char>, kind: ClassRelationType) -> bool {
    &&& (kind == ClassRelationType::Inheritance <==> t[0] == '<')
    &&& (kind == ClassRelationType::Composition <==> t[0] == '*')
    &&& (kind == ClassRelationType::Aggregation <==> t[0] == 'o')
    &&& (kind == ClassRelationType::Association <==> t[0] == '-')
    &&& (kind == ClassRelationType::Realization <==> t[0] == '.' && occurs(t, '|'))
    &&& (kind == ClassRelationType::Dependency <==> t[0] == '.' && !occurs(t, '|'))
    &&& t.len() >= 2
}

/// Each edge operator means what its characters say.
pub proof fn edge_operators_mean_their_characters(k: int)
    requires
        0 <= k < 15,
    ensures
        edge_op_meaning(edge_op(k).0, edge_op(k).1, edge_op(k).2, edge_op(k).3),
{
    reveal_with_fuel(occurs, 5);
    if k == 0 {
        assert(edge_op_meaning(edge_op(0).0, edge_op(0).1, edge_op(0).2, edge_op(0).3));
    } else if k == 1 {
        assert(edge_op_meaning(edge_op(1).0, edge_op(1).1, edge_op(1).2, edge_op(1).3));
    } else if k == 2 {
        assert(edge_op_meaning(edge_op(2).0, edge_op(2).1, edge_op(2).2, edge_op(2).3));
    } else if k == 3 {
        assert(edge_op_meaning(edge_op(3).0, edge_op(3).1, edge_op(3).2, edge_op(3).3));
    } else if k == 4 {
        assert(edge_op_meaning(edge_op(4).0, edge_op(4).1, edge_op(4).2, edge_op(4).3));
    } else if k == 5 {
        assert(edge_op_meaning(edge_op(5).0, edge_op(5).1, edge_op(5).2, edge_op(5).3));
    } else if k == 6 {
        assert(edge_op_meaning(edge_op(6).0, edge_op(6).1, edge_op(6).2, edge_op(6).3));
    } else if k == 7 {
        assert(edge_op_meaning(edge_op(7).0, edge_op(7).1, edge_op(7).2, edge_op(7).3));
    } else if k == 8 {
        assert(edge_op_meaning(edge_op(8).0, edge_op(8).1, edge_op(8).2, edge_op(8).3));
    } else if k == 9 {
        assert(edge_op_meaning(edge_op(9).0, edge_op(9).1, edge_op(9).2, edge_op(9).3));
    } else if k == 10 {
        assert(edge_op_meaning(edge_op(10).0, edge_op(10).1, edge_op(10).2, edge_op(10).3));
    } else if k == 11 {
        assert(edge_op_meaning(edge_op(11).0, edge_op(11).1, edge_op(11).2, edge_op(11).3));
    } else if k == 12 {
        assert(edge_op_meaning(edge_op(12).0, edge_op(12).1, edge_op(12).2, edge_op(12).3));
    } else if k == 13 {
        assert(edge_op_meaning(edge_op(13).0, edge_op(13).1, edge_op(13).2, edge_op(13).3));
    } else if k == 14 {
        assert(edge_op_meaning(edge_op(14).0, edge_op(14).1, edge_op(14).2, edge_op(14).3));
    }
}

/// Each message arrow means what its characters say.
pub proof fn message_arrows_mean_their_characters(k: int)
    requires
        0 <= k < 8,
    ensures
        msg_op_meaning(msg_op(k).0, msg_op(k).1, msg_op(k).2),
{
    if k == 0 {
        assert(msg_op_meaning(msg_op(0).0, msg_op(0).1, msg_op(0).2));
    } else if k == 1 {
        assert(msg_op_meaning(msg_op(1).0, msg_op(1).1, msg_op(1).2));
    } else if k == 2 {
        assert(msg_op_meaning(msg_op(2).0, msg_op(2).1, msg_op(2).2));
    } else if k == 3 {
        assert(msg_op_meaning(msg_op(3).0, msg_op(3).1, msg_op(3).2));
    } else if k == 4 {
        assert(msg_op_meaning(msg_op(4).0, msg_op(4).1, msg_op(4).2));
    } else if k == 5 {
        assert(msg_op_meaning(msg_op(5).0, msg_op(5).1, msg_op(5).2));
    } else if k == 6 {
        assert(msg_op_meaning(msg_op(6).0, msg_op(6).1, msg_op(6).2));
    } else if k == 7 {
        assert(msg_op_meaning(msg_op(7).0, msg_op(7).1, msg_op(7).2));
    }
}

/// Each class relation operator means what its characters say.
pub proof fn relation_operators_mean_their_characters(k: int)
    requires
        0 <= k < 8,
    ensures
        rel_op_meaning(rel_op(k).0, rel_op(k).1),
{
    reveal_with_fuel(occurs, 5);
    if k == 0 {
        assert(rel_op_meaning(rel_op(0).0, rel_op(0).1));
    } else if k == 1 {
        assert(rel_op_meaning(rel_op(1).0, rel_op(1).1));
    } else if k == 2 {
        assert(rel_op_meaning(rel_op(2).0, rel_op(2).1));
    } else if k == 3 {
        assert(rel_op_meaning(rel_op(3).0, rel_op(3).1));
    } else if k == 4 {
        assert(rel_op_meaning(rel_op(4).0, rel_op(4).1));
    } else if k == 5 {
        assert(rel_op_meaning(rel_op(5).0, rel_op(5).1));
    } else if k == 6 {
        assert(rel_op_meaning(rel_op(6).0, rel_op(6).1));
    } else if k == 7 {
        assert(rel_op_meaning(rel_op(7).0, rel_op(7).1));
    }
}

/// A parsed flowchart edge has the line style and arrow ends that the
/// operator it was read at (one that occurs in the line) calls for: a line
/// written with `-.->` is dotted, one with `==>` thick, one with `-->`
/// solid, and so on.
pub proof fn edges_follow_their_operator(line: Seq<char>)
    ensures
        edge_line(line) matches Some(e) ==> exists|op: Seq<char>|
            contains(line, op) && #[trigger] edge_op_meaning(op, e.3, e.4, e.5),
{
    lemma_first_op_range(line, edge_op_text(), 0, 15);
    if let Some(k) = first_op(line, edge_op_text(), 0, 15) {
        edge_operators_mean_their_characters(k);
        assert(contains(line, edge_op(k).0));
        if let Some(e) = edge_line(line) {
            assert(e.3 == edge_op(k).1 && e.4 == edge_op(k).2 && e.5 == edge_op(k).3);
            assert(edge_op_meaning(edge_op(k).0, e.3, e.4, e.5));
        }
    }
}

/// A parsed sequence message has the line style and kind that the arrow it
/// was read at (one that occurs in the line) calls for: `-->>` and `-->`
/// are dotted, `->>` and `->` solid, and `-->>` is a reply.
pub proof fn messages_follow_their_arrow(line: Seq<char>)
    ensures
        sequence_message(line) matches Some(m) ==> exists|op: Seq<char>|
            contains(line, op) && #[trigger] msg_op_meaning(op, m.msg_type, m.kind),
{
    lemma_first_op_range(line, msg_op_text(), 0, 8);
    if let Some(k) = first_op(line, msg_op_text(), 0, 8) {
        message_arrows_mean_their_characters(k);
        assert(contains(line, msg_op(k).0));
    }
}

/// A parsed class relation has the kind that the operator it was read at
/// (one that occurs in the line) calls for: `<|--` is inheritance, `*--`
/// composition, `o--` aggregation, and so on.
pub proof fn relations_follow_their_operator(line: Seq<char>)
    ensures
        class_relation(line) matches Some(r) ==> exists|op: Seq<char>|
            contains(line, op) && #[trigger] rel_op_meaning(op, r.relation_type),
{
    lemma_first_op_range(line, rel_op_text(), 0, 8);
    if let Some(k) = first_op(line, rel_op_text(), 0, 8) {
        relation_operators_mean_their_characters(k);
        assert(contains(line, rel_op(k).0));
    }
}

/// Each pair of node delimiters names a shape of its own, and closes with
/// as many characters as it opens with.
pub proof fn delimiters_name_distinct_shapes(j: int, k: int)
    requires
        0 <= j < 13,
        0 <= k < 13,
    ensures
        j != k ==> shape_delims(j).2 != shape_delims(k).2,
        shape_delims(k).0.len() == shape_delims(k).1.len(),
{
}

} // verus!
