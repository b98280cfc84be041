//! The MathML tree of a formula: built from the XML events of the MathML that
//! the LaTeX converter produces. Laying the tree out in SVG is done by the
//! caller.
use vstd::prelude::*;
use crate::text::{chars_to_string, eq_chars, starts_with, str_to_chars, string_chars};
use crate::xml::{escape_chars, escape_seq};
use quick_xml::events::BytesStart;
use quick_xml::events::Event::{Empty, End, Eof, Start, Text};

verus! {

/// A node of a MathML formula. Numeric attributes are kept as their text:
/// `line_thickness` is the `linethickness` attribute of a fraction, and a
/// `Space` holds the number of `em` of an `mspace` width (empty when none).
/// Each row of a `Table` is a `Row` of its cells.
#[derive(Debug)]
pub enum MathNode {
    Row(Vec<MathNode>),
    Ident(String),
    Number(String),
    Operator(String),
    Text(String),
    Sup { base: Box<MathNode>, sup: Box<MathNode> },
    Sub { base: Box<MathNode>, sub: Box<MathNode> },
    SubSup { base: Box<MathNode>, sub: Box<MathNode>, sup: Box<MathNode> },
    Frac { num: Box<MathNode>, den: Box<MathNode>, line_thickness: Option<String> },
    Sqrt { radicand: Box<MathNode> },
    Root { radicand: Box<MathNode>, index: Box<MathNode> },
    UnderOver { base: Box<MathNode>, under: Option<Box<MathNode>>, over: Option<Box<MathNode>> },
    Space(String),
    Table { rows: Vec<MathNode>, column_align: Vec<String> },
    StretchyOp { op: String, form: String },
}

/// The mathematical model of a `MathNode`: strings are `Seq<char>`.
pub enum MathTree {
    Row(Seq<MathTree>),
    Ident(Seq<char>),
    Number(Seq<char>),
    Operator(Seq<char>),
    Text(Seq<char>),
    Sup { base: Box<MathTree>, sup: Box<MathTree> },
    Sub { base: Box<MathTree>, sub: Box<MathTree> },
    SubSup { base: Box<MathTree>, sub: Box<MathTree>, sup: Box<MathTree> },
    Frac { num: Box<MathTree>, den: Box<MathTree>, line_thickness: Option<Seq<char>> },
    Sqrt { radicand: Box<MathTree> },
    Root { radicand: Box<MathTree>, index: Box<MathTree> },
    UnderOver { base: Box<MathTree>, under: Option<Box<MathTree>>, over: Option<Box<MathTree>> },
    Space(Seq<char>),
    Table { rows: Seq<MathTree>, column_align: Seq<Seq<char>> },
    StretchyOp { op: Seq<char>, form: Seq<char> },
}

pub open spec fn opt_str(o: Option<String>) -> Option<Seq<char>> {
    match o {
        Some(s) => Some(s@),
        None => None,
    }
}

pub open spec fn tree_of(node: MathNode) -> MathTree
    decreases node,
{
    match node {
        MathNode::Row(v) => MathTree::Row(trees_of(v@)),
        MathNode::Ident(t) => MathTree::Ident(t@),
        MathNode::Number(t) => MathTree::Number(t@),
        MathNode::Operator(t) => MathTree::Operator(t@),
        MathNode::Text(t) => MathTree::Text(t@),
        MathNode::Sup { base, sup } => MathTree::Sup {
            base: Box::new(tree_of(*base)),
            sup: Box::new(tree_of(*sup)),
        },
        MathNode::Sub { base, sub } => MathTree::Sub {
            base: Box::new(tree_of(*base)),
            sub: Box::new(tree_of(*sub)),
        },
        MathNode::SubSup { base, sub, sup } => MathTree::SubSup {
            base: Box::new(tree_of(*base)),
            sub: Box::new(tree_of(*sub)),
            sup: Box::new(tree_of(*sup)),
        },
        MathNode::Frac { num, den, line_thickness } => MathTree::Frac {
            num: Box::new(tree_of(*num)),
            den: Box::new(tree_of(*den)),
            line_thickness: opt_str(line_thickness),
        },
        MathNode::Sqrt { radicand } => MathTree::Sqrt { radicand: Box::new(tree_of(*radicand)) },
        MathNode::Root { radicand, index } => MathTree::Root {
            radicand: Box::new(tree_of(*radicand)),
            index: Box::new(tree_of(*index)),
        },
        MathNode::UnderOver { base, under, over } => MathTree::UnderOver {
            base: Box::new(tree_of(*base)),
            under: match under {
                Some(u) => Some(Box::new(tree_of(*u))),
                None => None,
            },
            over: match over {
                Some(o) => Some(Box::new(tree_of(*o))),
                None => None,
            },
        },
        MathNode::Space(w) => MathTree::Space(w@),
        MathNode::Table { rows, column_align } => MathTree::Table {
            rows: trees_of(rows@),
            column_align: Seq::new(column_align@.len(), |i: int| column_align@[i]@),
        },
        MathNode::StretchyOp { op, form } => MathTree::StretchyOp { op: op@, form: form@ },
    }
}

pub open spec fn trees_of(s: Seq<MathNode>) -> Seq<MathTree>
    decreases s,
{
    if s.len() == 0 {
        Seq::empty()
    } else {
        trees_of(s.drop_last()).push(tree_of(s.last()))
    }
}

/// The value of the first attribute named `name`.
pub open spec fn attr_of(attrs: Seq<(String, String)>, name: Seq<char>) -> Option<Seq<char>>
    decreases attrs.len(),
{
    if attrs.len() == 0 {
        None
    } else if attrs[0].0@ == name {
        Some(attrs[0].1@)
    } else {
        attr_of(attrs.drop_first(), name)
    }
}

/// The text of the token children (text, identifiers, numbers, operators),
/// joined.
pub open spec fn text_of(children: Seq<MathTree>) -> Seq<char>
    decreases children.len(),
{
    if children.len() == 0 {
        Seq::empty()
    } else {
        text_of(children.drop_last()) + match children.last() {
            MathTree::Text(t) => t,
            MathTree::Ident(t) => t,
            MathTree::Number(t) => t,
            MathTree::Operator(t) => t,
            _ => Seq::empty(),
        }
    }
}

/// A single child as it is, or the children as a row.
pub open spec fn row_or_single(ch: Seq<MathTree>) -> MathTree {
    if ch.len() == 1 {
        ch[0]
    } else {
        MathTree::Row(ch)
    }
}

/// The node an element `tag` with these children and attributes stands for.
/// Scripts, fractions, roots and under/over take their parts from the last
/// children; an element without enough children, or one without a meaning
/// of its own, is its single child or the row of its children.
pub open spec fn build_tree(tag: Seq<char>, ch: Seq<MathTree>, attrs: Seq<(String, String)>) -> MathTree {
    let n = ch.len();
    if tag == seq!['m', 'i'] {
        MathTree::Ident(text_of(ch))
    } else if tag == seq!['m', 'n'] {
        MathTree::Number(text_of(ch))
    } else if tag == seq!['m', 'o'] {
        let t = text_of(ch);
        let stretchy = attr_of(attrs, seq!['s', 't', 'r', 'e', 't', 'c', 'h', 'y']) == Some(seq!['t', 'r', 'u', 'e']);
        let form = match attr_of(attrs, seq!['f', 'o', 'r', 'm']) {
            Some(f) => f,
            None => seq!['i', 'n', 'f', 'i', 'x'],
        };
        if stretchy && t.len() > 0 {
            MathTree::StretchyOp { op: t, form }
        } else {
            MathTree::Operator(t)
        }
    } else if tag == seq!['m', 't', 'e', 'x', 't'] {
        MathTree::Text(text_of(ch))
    } else if tag == seq!['m', 's', 'u', 'p'] && n >= 2 {
        MathTree::Sup { base: Box::new(ch[n - 2]), sup: Box::new(ch[n - 1]) }
    } else if tag == seq!['m', 's', 'u', 'b'] && n >= 2 {
        MathTree::Sub { base: Box::new(ch[n - 2]), sub: Box::new(ch[n - 1]) }
    } else if tag == seq!['m', 's', 'u', 'b', 's', 'u', 'p'] && n >= 3 {
        MathTree::SubSup { base: Box::new(ch[n - 3]), sub: Box::new(ch[n - 2]), sup: Box::new(ch[n - 1]) }
    } else if tag == seq!['m', 'f', 'r', 'a', 'c'] && n >= 2 {
        MathTree::Frac {
            num: Box::new(ch[n - 2]),
            den: Box::new(ch[n - 1]),
            line_thickness: attr_of(attrs, seq!['l', 'i', 'n', 'e', 't', 'h', 'i', 'c', 'k', 'n', 'e', 's', 's']),
        }
    } else if tag == seq!['m', 's', 'q', 'r', 't'] {
        MathTree::Sqrt { radicand: Box::new(row_or_single(ch)) }
    } else if tag == seq!['m', 'r', 'o', 'o', 't'] && n >= 2 {
        MathTree::Root { radicand: Box::new(ch[n - 2]), index: Box::new(ch[n - 1]) }
    } else if tag == seq!['m', 'o', 'v', 'e', 'r'] && n >= 2 {
        MathTree::UnderOver { base: Box::new(ch[n - 2]), under: None, over: Some(Box::new(ch[n - 1])) }
    } else if tag == seq!['m', 'u', 'n', 'd', 'e', 'r'] && n >= 2 {
        MathTree::UnderOver { base: Box::new(ch[n - 2]), under: Some(Box::new(ch[n - 1])), over: None }
    } else if tag == seq!['m', 'u', 'n', 'd', 'e', 'r', 'o', 'v', 'e', 'r'] && n >= 3 {
        MathTree::UnderOver {
            base: Box::new(ch[n - 3]),
            under: Some(Box::new(ch[n - 2])),
            over: Some(Box::new(ch[n - 1])),
        }
    } else {
        row_or_single(ch)
    }
}

/// The value of the first attribute named `name`.
pub fn get_attr(attrs: &[(String, String)], name: &str) -> (r: Option<String>)
    ensures
        opt_str(r) == attr_of(attrs@, name@),
{
    let want = str_to_chars(name);
    let mut i: usize = 0;
    assert(attrs@.subrange(0, attrs@.len() as int) == attrs@);
    while i < attrs.len()
        invariant
            i <= attrs@.len(),
            want@ == name@,
            attr_of(attrs@, name@) == attr_of(attrs@.subrange(i as int, attrs@.len() as int), name@),
        decreases attrs@.len() - i,
    {
        let ghost rest = attrs@.subrange(i as int, attrs@.len() as int);
        assert(rest.drop_first() == attrs@.subrange(i + 1, attrs@.len() as int));
        let key = string_chars(&attrs[i].0);
        if eq_chars(key.as_slice(), want.as_slice()) {
            let v = string_chars(&attrs[i].1);
            return Some(chars_to_string(v.as_slice()));
        }
        i += 1;
    }
    None
}

fn token_text(node: &MathNode) -> (r: Vec<char>)
    ensures
        r@ == match tree_of(*node) {
            MathTree::Text(t) => t,
            MathTree::Ident(t) => t,
            MathTree::Number(t) => t,
            MathTree::Operator(t) => t,
            _ => Seq::empty(),
        },
{
    match node {
        MathNode::Text(t) => string_chars(t),
        MathNode::Ident(t) => string_chars(t),
        MathNode::Number(t) => string_chars(t),
        MathNode::Operator(t) => string_chars(t),
        _ => Vec::new(),
    }
}

/// The text of the token children, joined.
pub fn extract_text(children: &[MathNode]) -> (r: String)
    ensures
        r@ == text_of(trees_of(children@)),
{
    let mut out: Vec<char> = Vec::new();
    let mut i: usize = 0;
    while i < children.len()
        invariant
            i <= children@.len(),
            out@ == text_of(trees_of(children@.subrange(0, i as int))),
        decreases children@.len() - i,
    {
        let ghost pre = children@.subrange(0, i as int);
        assert(children@.subrange(0, i + 1).drop_last() == pre);
        assert(trees_of(children@.subrange(0, i + 1)).drop_last() == trees_of(pre));
        let t = token_text(&children[i]);
        out.append(&mut t.clone());
        i += 1;
    }
    assert(children@.subrange(0, children@.len() as int) == children@);
    chars_to_string(out.as_slice())
}

pub proof fn lemma_trees_of(s: Seq<MathNode>)
    ensures
        trees_of(s).len() == s.len(),
        forall|k: int| 0 <= k < s.len() ==> #[trigger] trees_of(s)[k] == tree_of(s[k]),
    decreases s.len(),
{
    if s.len() > 0 {
        lemma_trees_of(s.drop_last());
        assert forall|k: int| 0 <= k < s.len() implies #[trigger] trees_of(s)[k] == tree_of(s[k]) by {
            if k < s.len() - 1 {
                assert(s.drop_last()[k] == s[k]);
            }
        }
    }
}

fn take_last(children: &mut Vec<MathNode>) -> (r: Box<MathNode>)
    requires
        old(children)@.len() > 0,
    ensures
        final(children)@ == old(children)@.drop_last(),
        *r == old(children)@.last(),
{
    match children.pop() {
        Some(c) => Box::new(c),
        None => Box::new(MathNode::Row(Vec::new())),
    }
}

fn row_or_single_exec(children: Vec<MathNode>) -> (r: MathNode)
    ensures
        tree_of(r) == row_or_single(trees_of(children@)),
{
    proof {
        lemma_trees_of(children@);
    }
    let mut children = children;
    if children.len() == 1 {
        let c = take_last(&mut children);
        *c
    } else {
        MathNode::Row(children)
    }
}

fn is_tag(t: &Vec<char>, lit: &Vec<char>) -> (b: bool)
    ensures
        b == (t@ == lit@),
{
    eq_chars(t.as_slice(), lit.as_slice())
}

fn frac_thickness(attrs: &[(String, String)]) -> (r: Option<String>)
    ensures
        opt_str(r) == attr_of(attrs@, seq!['l', 'i', 'n', 'e', 't', 'h', 'i', 'c', 'k', 'n', 'e', 's', 's']),
{
    let key = vec!['l', 'i', 'n', 'e', 't', 'h', 'i', 'c', 'k', 'n', 'e', 's', 's'];
    assert(key@ =~= seq!['l', 'i', 'n', 'e', 't', 'h', 'i', 'c', 'k', 'n', 'e', 's', 's']);
    let name = chars_to_string(key.as_slice());
    get_attr(attrs, name.as_str())
}

fn is_stretchy(attrs: &[(String, String)]) -> (b: bool)
    ensures
        b == (attr_of(attrs@, seq!['s', 't', 'r', 'e', 't', 'c', 'h', 'y']) == Some(seq!['t', 'r', 'u', 'e'])),
{
    let key = vec!['s', 't', 'r', 'e', 't', 'c', 'h', 'y'];
    assert(key@ =~= seq!['s', 't', 'r', 'e', 't', 'c', 'h', 'y']);
    let name = chars_to_string(key.as_slice());
    match get_attr(attrs, name.as_str()) {
        Some(v) => {
            let vc = string_chars(&v);
            let lit = vec!['t', 'r', 'u', 'e'];
            assert(lit@ =~= seq!['t', 'r', 'u', 'e']);
            is_tag(&vc, &lit)
        },
        None => false,
    }
}

fn op_form(attrs: &[(String, String)]) -> (r: String)
    ensures
        r@ == match attr_of(attrs@, seq!['f', 'o', 'r', 'm']) {
            Some(f) => f,
            None => seq!['i', 'n', 'f', 'i', 'x'],
        },
{
    let key = vec!['f', 'o', 'r', 'm'];
    assert(key@ =~= seq!['f', 'o', 'r', 'm']);
    let name = chars_to_string(key.as_slice());
    match get_attr(attrs, name.as_str()) {
        Some(f) => f,
        None => {
            let lit = vec!['i', 'n', 'f', 'i', 'x'];
            assert(lit@ =~= seq!['i', 'n', 'f', 'i', 'x']);
            chars_to_string(lit.as_slice())
        },
    }
}

/// The node an element `tag` with these children and attributes stands for.
pub fn build_node(tag: &str, children: Vec<MathNode>, attrs: &[(String, String)]) -> (r: MathNode)
    ensures
        tree_of(r) == build_tree(tag@, trees_of(children@), attrs@),
{
    let t = str_to_chars(tag);
    let mut children = children;
    let ghost ch = trees_of(children@);
    proof {
        lemma_trees_of(children@);
    }
    let n = children.len();
    if is_tag(&t, &vec!['m', 'i']) {
        MathNode::Ident(extract_text(children.as_slice()))
    } else if is_tag(&t, &vec!['m', 'n']) {
        MathNode::Number(extract_text(children.as_slice()))
    } else if is_tag(&t, &vec!['m', 'o']) {
        let text = extract_text(children.as_slice());
        let stretchy = is_stretchy(attrs);
        let form = op_form(attrs);
        let nonempty = string_chars(&text).len() > 0;
        if stretchy && nonempty {
            MathNode::StretchyOp { op: text, form }
        } else {
            MathNode::Operator(text)
        }
    } else if is_tag(&t, &vec!['m', 't', 'e', 'x', 't']) {
        MathNode::Text(extract_text(children.as_slice()))
    } else if is_tag(&t, &vec!['m', 's', 'u', 'p']) && n >= 2 {
        let sup = take_last(&mut children);
        let base = take_last(&mut children);
        MathNode::Sup { base, sup }
    } else if is_tag(&t, &vec!['m', 's', 'u', 'b']) && n >= 2 {
        let sub = take_last(&mut children);
        let base = take_last(&mut children);
        MathNode::Sub { base, sub }
    } else if is_tag(&t, &vec!['m', 's', 'u', 'b', 's', 'u', 'p']) && n >= 3 {
        let sup = take_last(&mut children);
        let sub = take_last(&mut children);
        let base = take_last(&mut children);
        MathNode::SubSup { base, sub, sup }
    } else if is_tag(&t, &vec!['m', 'f', 'r', 'a', 'c']) && n >= 2 {
        let den = take_last(&mut children);
        let num = take_last(&mut children);
        let line_thickness = frac_thickness(attrs);
        MathNode::Frac { num, den, line_thickness }
    } else if is_tag(&t, &vec!['m', 's', 'q', 'r', 't']) {
        MathNode::Sqrt { radicand: Box::new(row_or_single_exec(children)) }
    } else if is_tag(&t, &vec!['m', 'r', 'o', 'o', 't']) && n >= 2 {
        let index = take_last(&mut children);
        let radicand = take_last(&mut children);
        MathNode::Root { radicand, index }
    } else if is_tag(&t, &vec!['m', 'o', 'v', 'e', 'r']) && n >= 2 {
        let over = take_last(&mut children);
        let base = take_last(&mut children);
        MathNode::UnderOver { base, under: None, over: Some(over) }
    } else if is_tag(&t, &vec!['m', 'u', 'n', 'd', 'e', 'r']) && n >= 2 {
        let under = take_last(&mut children);
        let base = take_last(&mut children);
        MathNode::UnderOver { base, under: Some(under), over: None }
    } else if is_tag(&t, &vec!['m', 'u', 'n', 'd', 'e', 'r', 'o', 'v', 'e', 'r']) && n >= 3 {
        let over = take_last(&mut children);
        let under = take_last(&mut children);
        let base = take_last(&mut children);
        MathNode::UnderOver { base, under: Some(under), over: Some(over) }
    } else {
        row_or_single_exec(children)
    }
}

/// An XML event of a MathML document, as the reader hands it over: a start
/// tag with its attributes, an end tag, an empty element, text, the end of
/// the document, anything else, or a read error with its message.
#[derive(Debug)]
pub enum MathEvent {
    Start(String, Vec<(String, String)>),
    End,
    Empty(String, Vec<(String, String)>),
    Text(String),
    Eof,
    Other,
    Error(String),
}

/// The state of the tree builder: the open elements (tag, children so far,
/// attributes), the rows and the cells of the table being read, and how deep
/// in tables and rows the reader is.
pub struct MathParse {
    pub stack: Seq<(Seq<char>, Seq<MathTree>, Seq<(String, String)>)>,
    pub rows: Seq<MathTree>,
    pub cells: Seq<MathTree>,
    pub in_table: int,
    pub in_row: int,
}

pub enum MathStep {
    Next(MathParse),
    Stop(Result<MathTree, Seq<char>>),
}

pub open spec fn kw_mtable() -> Seq<char> {
    seq!['m', 't', 'a', 'b', 'l', 'e']
}

pub open spec fn kw_mtr() -> Seq<char> {
    seq!['m', 't', 'r']
}

pub open spec fn kw_mtd() -> Seq<char> {
    seq!['m', 't', 'd']
}

pub open spec fn kw_mspace() -> Seq<char> {
    seq!['m', 's', 'p', 'a', 'c', 'e']
}

pub open spec fn kw_width() -> Seq<char> {
    seq!['w', 'i', 'd', 't', 'h']
}

pub open spec fn kw_center() -> Seq<char> {
    seq!['c', 'e', 'n', 't', 'e', 'r']
}

pub open spec fn xml_error_prefix() -> Seq<char> {
    seq!['X', 'M', 'L', ' ', 'p', 'a', 'r', 's', 'e', ' ', 'e', 'r', 'r', 'o', 'r', ':', ' ']
}

/// The number of `em` of the last `width` attribute given in `em` (its text
/// before the unit), or empty.
pub open spec fn space_width(attrs: Seq<(String, String)>) -> Seq<char>
    decreases attrs.len(),
{
    if attrs.len() == 0 {
        Seq::empty()
    } else {
        let a = attrs.last();
        let v = a.1@;
        if a.0@ == kw_width() && v.len() >= 2 && v[v.len() - 2] == 'e' && v[v.len() - 1] == 'm' {
            v.subrange(0, v.len() - 2)
        } else {
            space_width(attrs.drop_last())
        }
    }
}

/// `st` with `t` added to the children of the innermost open element.
pub open spec fn add_child(st: MathParse, t: MathTree) -> MathParse {
    let top = st.stack.last();
    MathParse { stack: st.stack.update(st.stack.len() - 1, (top.0, top.1.push(t), top.2)), ..st }
}

/// A finished node goes to the open element around it; with none left, it
/// is the result.
pub open spec fn attach(st: MathParse, t: MathTree) -> MathStep {
    if st.stack.len() > 0 {
        MathStep::Next(add_child(st, t))
    } else {
        MathStep::Stop(Ok(t))
    }
}

/// What one event does to the builder.
pub open spec fn math_step(st: MathParse, ev: MathEvent) -> MathStep {
    match ev {
        MathEvent::Start(name, attrs) => {
            let nm = name@;
            let st1 = if nm == kw_mtable() {
                MathParse {
                    in_table: st.in_table + 1,
                    rows: if st.in_table + 1 == 1 {
                        Seq::empty()
                    } else {
                        st.rows
                    },
                    ..st
                }
            } else if nm == kw_mtr() && st.in_table == 1 {
                MathParse { in_row: st.in_row + 1, cells: Seq::empty(), ..st }
            } else {
                st
            };
            MathStep::Next(MathParse { stack: st1.stack.push((nm, Seq::empty(), attrs@)), ..st1 })
        },
        MathEvent::Text(t) => {
            if t@.len() > 0 && st.stack.len() > 0 {
                MathStep::Next(add_child(st, MathTree::Text(t@)))
            } else {
                MathStep::Next(st)
            }
        },
        MathEvent::End => {
            if st.stack.len() == 0 {
                MathStep::Next(st)
            } else {
                let top = st.stack.last();
                let tag = top.0;
                let ch = top.1;
                let st1 = MathParse { stack: st.stack.drop_last(), ..st };
                if tag == kw_mtd() && st.in_table == 1 && st.in_row == 1 {
                    MathStep::Next(MathParse { cells: st1.cells.push(row_or_single(ch)), ..st1 })
                } else if tag == kw_mtr() && st.in_table == 1 {
                    let st2 = MathParse { in_row: st.in_row - 1, ..st1 };
                    if st2.cells.len() > 0 {
                        MathStep::Next(
                            MathParse {
                                rows: st2.rows.push(MathTree::Row(st2.cells)),
                                cells: Seq::empty(),
                                ..st2
                            },
                        )
                    } else {
                        MathStep::Next(st2)
                    }
                } else if tag == kw_mtable() && st.in_table == 1 {
                    let table = MathTree::Table { rows: st1.rows, column_align: seq![kw_center()] };
                    attach(MathParse { in_table: 0, rows: Seq::empty(), ..st1 }, table)
                } else {
                    attach(st1, build_tree(tag, ch, top.2))
                }
            }
        },
        MathEvent::Empty(name, attrs) => {
            if name@ == kw_mspace() && st.stack.len() > 0 {
                MathStep::Next(add_child(st, MathTree::Space(space_width(attrs@))))
            } else {
                MathStep::Next(st)
            }
        },
        MathEvent::Eof => MathStep::Stop(Ok(MathTree::Row(Seq::empty()))),
        MathEvent::Other => MathStep::Next(st),
        MathEvent::Error(msg) => MathStep::Stop(Err(xml_error_prefix() + msg@)),
    }
}

/// The builder run over `events`: the first element closed at the top level,
/// an error, or an empty row at the end of the document.
pub open spec fn math_run(events: Seq<MathEvent>, st: MathParse) -> Result<MathTree, Seq<char>>
    decreases events.len(),
{
    if events.len() == 0 {
        Ok(MathTree::Row(Seq::empty()))
    } else {
        match math_step(st, events[0]) {
            MathStep::Next(next) => math_run(events.drop_first(), next),
            MathStep::Stop(r) => r,
        }
    }
}

pub open spec fn math_start() -> MathParse {
    MathParse { stack: Seq::empty(), rows: Seq::empty(), cells: Seq::empty(), in_table: 0, in_row: 0 }
}

/// The tree a MathML document's events describe.
pub open spec fn mathml_tree(events: Seq<MathEvent>) -> Result<MathTree, Seq<char>> {
    math_run(events, math_start())
}

pub open spec fn result_view(r: Result<MathNode, String>) -> Result<MathTree, Seq<char>> {
    match r {
        Ok(n) => Ok(tree_of(n)),
        Err(e) => Err(e@),
    }
}

pub open spec fn open_rel(
    events: Seq<MathEvent>,
    e: (usize, Vec<MathNode>),
    p: (Seq<char>, Seq<MathTree>, Seq<(String, String)>),
) -> bool {
    &&& e.0 < events.len()
    &&& events[e.0 as int] matches MathEvent::Start(name, attrs) && p.0 == name@ && p.2 == attrs@
    &&& p.1 == trees_of(e.1@)
}

/// The open elements held as (index of their start event, children).
pub open spec fn stack_rel(
    events: Seq<MathEvent>,
    ex: Seq<(usize, Vec<MathNode>)>,
    sp: Seq<(Seq<char>, Seq<MathTree>, Seq<(String, String)>)>,
) -> bool {
    &&& ex.len() == sp.len()
    &&& forall|k: int| 0 <= k < ex.len() ==> #[trigger] open_rel(events, ex[k], sp[k])
}

fn push_node(v: &mut Vec<MathNode>, node: MathNode)
    ensures
        trees_of(final(v)@) == trees_of(old(v)@).push(tree_of(node)),
{
    let ghost before = v@;
    v.push(node);
    assert(v@.drop_last() == before);
}

fn add_to_top(
    stack: &mut Vec<(usize, Vec<MathNode>)>,
    node: MathNode,
    Ghost(events): Ghost<Seq<MathEvent>>,
    Ghost(st): Ghost<MathParse>,
)
    requires
        old(stack)@.len() > 0,
        stack_rel(events, old(stack)@, st.stack),
    ensures
        stack_rel(events, final(stack)@, add_child(st, tree_of(node)).stack),
{
    let ghost t = tree_of(node);
    let ghost target = add_child(st, t).stack;
    let ghost before = stack@;
    match stack.pop() {
        Some(top) => {
            let (idx, mut children) = top;
            assert(open_rel(events, before[before.len() - 1], st.stack[st.stack.len() - 1]));
            push_node(&mut children, node);
            stack.push((idx, children));
            assert forall|k: int| 0 <= k < stack@.len() implies #[trigger] open_rel(events, stack@[k], target[k]) by {
                if k < stack@.len() - 1 {
                    assert(stack@[k] == before[k]);
                    assert(open_rel(events, before[k], st.stack[k]));
                }
            }
        },
        None => {},
    }
}

fn space_width_exec(attrs: &Vec<(String, String)>) -> (r: String)
    ensures
        r@ == space_width(attrs@),
{
    let key = vec!['w', 'i', 'd', 't', 'h'];
    assert(key@ =~= kw_width());
    let mut j: usize = attrs.len();
    assert(attrs@.subrange(0, j as int) == attrs@);
    while j > 0
        invariant
            j <= attrs@.len(),
            key@ == kw_width(),
            space_width(attrs@) == space_width(attrs@.subrange(0, j as int)),
        decreases j,
    {
        assert(attrs@.subrange(0, j as int).drop_last() == attrs@.subrange(0, j - 1));
        let k = string_chars(&attrs[j - 1].0);
        let v = string_chars(&attrs[j - 1].1);
        let n = v.len();
        if eq_chars(k.as_slice(), key.as_slice()) && n >= 2 && v[n - 2] == 'e' && v[n - 1] == 'm' {
            let mut w: Vec<char> = Vec::new();
            let mut q: usize = 0;
            while q < n - 2
                invariant
                    n == v@.len(),
                    n >= 2,
                    q <= n - 2,
                    w@ == v@.subrange(0, q as int),
                decreases n - 2 - q,
            {
                w.push(v[q]);
                q += 1;
            }
            return chars_to_string(w.as_slice());
        }
        j -= 1;
    }
    chars_to_string(Vec::new().as_slice())
}

fn word(lit: Vec<char>) -> (r: String)
    ensures
        r@ == lit@,
{
    chars_to_string(lit.as_slice())
}

/// The tree a MathML document's events describe: the first element that
/// closes at the top level, with tables gathered from their rows and cells;
/// an error at the first read error; an empty row when the document ends
/// first.
pub fn build_math_tree(events: &[MathEvent]) -> (r: Result<MathNode, String>)
    ensures
        result_view(r) == mathml_tree(events@),
{
    let mut stack: Vec<(usize, Vec<MathNode>)> = Vec::new();
    let mut rows: Vec<MathNode> = Vec::new();
    let mut cells: Vec<MathNode> = Vec::new();
    let mut in_table: i128 = 0;
    let mut in_row: i128 = 0;
    let ghost mut st = math_start();
    let len = events.len();
    let mtable = vec!['m', 't', 'a', 'b', 'l', 'e'];
    let mtr = vec!['m', 't', 'r'];
    let mtd = vec!['m', 't', 'd'];
    let mspace = vec!['m', 's', 'p', 'a', 'c', 'e'];
    assert(mtable@ =~= kw_mtable());
    assert(mtr@ =~= kw_mtr());
    assert(mtd@ =~= kw_mtd());
    assert(mspace@ =~= kw_mspace());
    let mut i: usize = 0;
    assert(events@.subrange(0, len as int) == events@);
    assert(trees_of(rows@) =~= Seq::<MathTree>::empty());
    while i < len
        invariant
            len == events@.len(),
            i <= len,
            mtable@ == kw_mtable(),
            mtr@ == kw_mtr(),
            mtd@ == kw_mtd(),
            mspace@ == kw_mspace(),
            mathml_tree(events@) == math_run(events@.subrange(i as int, len as int), st),
            stack_rel(events@, stack@, st.stack),
            trees_of(rows@) == st.rows,
            trees_of(cells@) == st.cells,
            in_table as int == st.in_table,
            in_row as int == st.in_row,
            0 <= in_table <= i,
            -(i as int) <= in_row <= i,
        decreases len - i,
    {
        let ghost rest = events@.subrange(i as int, len as int);
        assert(rest[0] == events@[i as int]);
        assert(rest.drop_first() == events@.subrange(i + 1, len as int));
        match &events[i] {
            MathEvent::Start(name, _attrs) => {
                let nm = string_chars(name);
                if eq_chars(nm.as_slice(), mtable.as_slice()) {
                    in_table = in_table + 1;
                    if in_table == 1 {
                        rows = Vec::new();
                        assert(trees_of(rows@) =~= Seq::<MathTree>::empty());
                    }
                } else if eq_chars(nm.as_slice(), mtr.as_slice()) && in_table == 1 {
                    in_row = in_row + 1;
                    cells = Vec::new();
                    assert(trees_of(cells@) =~= Seq::<MathTree>::empty());
                }
                let ghost st1 = match math_step(st, events@[i as int]) {
                    MathStep::Next(nx) => nx,
                    MathStep::Stop(_) => st,
                };
                let ghost before = stack@;
                stack.push((i, Vec::new()));
                proof {
                    assert forall|k: int| 0 <= k < stack@.len() implies #[trigger] open_rel(events@, stack@[k], st1.stack[k]) by {
                        if k < stack@.len() - 1 {
                            assert(stack@[k] == before[k]);
                            assert(open_rel(events@, before[k], st.stack[k]));
                        } else {
                            assert(stack@[k].1@ =~= Seq::<MathNode>::empty());
                            assert(trees_of(stack@[k].1@) =~= Seq::<MathTree>::empty());
                        }
                    }
                    st = st1;
                }
            },
            MathEvent::Text(t) => {
                let tc = string_chars(t);
                if tc.len() > 0 && stack.len() > 0 {
                    let node = MathNode::Text(t.clone());
                    add_to_top(&mut stack, node, Ghost(events@), Ghost(st));
                    proof {
                        st = add_child(st, MathTree::Text(t@));
                    }
                }
            },
            MathEvent::End => {
                if stack.len() > 0 {
                    let ghost top = st.stack.last();
                    let ghost st1 = MathParse { stack: st.stack.drop_last(), ..st };
                    let ghost before = stack@;
                    let (idx, children) = match stack.pop() {
                        Some(e) => e,
                        None => (0, Vec::new()),
                    };
                    proof {
                        assert(open_rel(events@, before[before.len() - 1], st.stack[st.stack.len() - 1]));
                        assert forall|k: int| 0 <= k < stack@.len() implies #[trigger] open_rel(events@, stack@[k], st1.stack[k]) by {
                            assert(stack@[k] == before[k]);
                            assert(open_rel(events@, before[k], st.stack[k]));
                        }
                    }
                    match &events[idx] {
                        MathEvent::Start(name, attrs) => {
                            let tg = string_chars(name);
                            if eq_chars(tg.as_slice(), mtd.as_slice()) && in_table == 1 && in_row == 1 {
                                let cell = row_or_single_exec(children);
                                push_node(&mut cells, cell);
                                proof {
                                    st = MathParse { cells: st1.cells.push(row_or_single(top.1)), ..st1 };
                                }
                            } else if eq_chars(tg.as_slice(), mtr.as_slice()) && in_table == 1 {
                                in_row = in_row - 1;
                                if cells.len() > 0 {
                                    let done = cells;
                                    cells = Vec::new();
                                    push_node(&mut rows, MathNode::Row(done));
                                    proof {
                                        assert(trees_of(cells@) =~= Seq::<MathTree>::empty());
                                        st = MathParse {
                                            rows: st1.rows.push(MathTree::Row(st1.cells)),
                                            cells: Seq::empty(),
                                            in_row: st.in_row - 1,
                                            ..st1
                                        };
                                    }
                                } else {
                                    proof {
                                        st = MathParse { in_row: st.in_row - 1, ..st1 };
                                    }
                                }
                            } else if eq_chars(tg.as_slice(), mtable.as_slice()) && in_table == 1 {
                                in_table = 0;
                                let table_rows = rows;
                                rows = Vec::new();
                                let center = word(vec!['c', 'e', 'n', 't', 'e', 'r']);
                                let mut align: Vec<String> = Vec::new();
                                align.push(center);
                                let table = MathNode::Table { rows: table_rows, column_align: align };
                                proof {
                                    assert(trees_of(rows@) =~= Seq::<MathTree>::empty());
                                    assert(Seq::new(align@.len(), |q: int| align@[q]@) =~= seq![kw_center()]);
                                }
                                let ghost st2 = MathParse { in_table: 0, rows: Seq::empty(), ..st1 };
                                if stack.len() > 0 {
                                    add_to_top(&mut stack, table, Ghost(events@), Ghost(st2));
                                    proof {
                                        st = add_child(st2, tree_of(table));
                                    }
                                } else {
                                    return Ok(table);
                                }
                            } else {
                                let node = build_node(name.as_str(), children, attrs.as_slice());
                                if stack.len() > 0 {
                                    add_to_top(&mut stack, node, Ghost(events@), Ghost(st1));
                                    proof {
                                        st = add_child(st1, tree_of(node));
                                    }
                                } else {
                                    return Ok(node);
                                }
                            }
                        },
                        _ => {
                            proof {
                                assert(false);
                            }
                        },
                    }
                }
            },
            MathEvent::Empty(name, attrs) => {
                let nm = string_chars(name);
                if eq_chars(nm.as_slice(), mspace.as_slice()) && stack.len() > 0 {
                    let w = space_width_exec(attrs);
                    add_to_top(&mut stack, MathNode::Space(w), Ghost(events@), Ghost(st));
                    proof {
                        st = add_child(st, MathTree::Space(space_width(attrs@)));
                    }
                }
            },
            MathEvent::Eof => {
                let e: Vec<MathNode> = Vec::new();
                assert(trees_of(e@) =~= Seq::<MathTree>::empty());
                return Ok(MathNode::Row(e));
            },
            MathEvent::Other => {},
            MathEvent::Error(msg) => {
                let mut out = vec!['X', 'M', 'L', ' ', 'p', 'a', 'r', 's', 'e', ' ', 'e', 'r', 'r', 'o', 'r', ':', ' '];
                assert(out@ =~= xml_error_prefix());
                let mut m = string_chars(msg);
                out.append(&mut m);
                return Err(chars_to_string(out.as_slice()));
            },
        }
        i += 1;
    }
    let e: Vec<MathNode> = Vec::new();
    assert(trees_of(e@) =~= Seq::<MathTree>::empty());
    Ok(MathNode::Row(e))
}

// ----- reading MathML with quick-xml -----

#[verifier::external_type_specification]
#[verifier::external_body]
#[verifier::reject_recursive_types(R)]
pub struct ExXmlReader<R>(quick_xml::reader::Reader<R>);

/// quick-xml's reader over a MathML text, with the text it reads and how
/// many events it has handed out. Only `xml_reader` makes one and only
/// `read_math_event` advances it.
struct MathXmlReader<'a> {
    reader: quick_xml::reader::Reader<&'a [u8]>,
    text: Ghost<Seq<char>>,
    read: Ghost<nat>,
}

/// The `k`-th event (counting from 0) that quick-xml's reader, made by
/// `Reader::from_str` with `trim_text(true)`, yields for `text`, as a
/// `MathEvent`. A reader's events depend on its text alone.
pub uninterp spec fn mathml_event(text: Seq<char>, k: nat) -> MathEvent;

/// `quick_xml::reader::Reader::from_str` on `text`, with leading and trailing
/// whitespace of text events trimmed (`trim_text(true)`): a reader at the
/// start of `text`.
#[verifier::external_body]
fn xml_reader<'a>(text: &'a str) -> (r: MathXmlReader<'a>)
    ensures
        r.text@ == text@,
        r.read@ == 0,
{
    let mut reader = quick_xml::reader::Reader::from_str(text);
    reader.config_mut().trim_text(true);
    MathXmlReader { reader, text: Ghost(text@), read: Ghost(0) }
}

/// `Reader::read_event`, as a `MathEvent`: a start or empty tag with its name
/// and its attributes (`attributes`, keys and raw values, skipping those
/// quick-xml fails to parse: `flatten` keeps the `Ok` ones), an end tag, text (`xml10_content`), the end of
/// the document, anything else, or the error's message (`Display`). It is
/// the next event of the reader's text.
#[verifier::external_body]
fn read_math_event(r: &mut MathXmlReader) -> (e: MathEvent)
    ensures
        e == mathml_event(old(r).text@, old(r).read@),
        final(r).text == old(r).text,
        final(r).read@ == old(r).read@ + 1,
{
    let attrs =
        |t: &BytesStart| t.attributes().flatten().map(|a| (a.key.as_ref().to_string(), a.value.to_string())).collect();
    match r.reader.read_event() {
        Ok(Start(t)) => MathEvent::Start(t.name().as_ref().to_string(), attrs(&t)),
        Ok(Empty(t)) => MathEvent::Empty(t.name().as_ref().to_string(), attrs(&t)),
        Ok(End(_)) => MathEvent::End,
        Ok(Text(t)) => MathEvent::Text(t.xml10_content().to_string()),
        Ok(Eof) => MathEvent::Eof,
        Ok(_) => MathEvent::Other,
        Err(err) => MathEvent::Error(err.to_string()),
    }
}

/// The next event of the reader: the event of its text at the count of
/// events read so far.
fn next_event(reader: &mut MathXmlReader) -> (e: MathEvent)
    ensures
        e == mathml_event(old(reader).text@, old(reader).read@),
        final(reader).text == old(reader).text,
        final(reader).read@ == old(reader).read@ + 1,
{
    read_math_event(reader)
}

/// A stream of events ends with the end of the document or an error.
pub open spec fn stops(e: MathEvent) -> bool {
    e is Eof || e is Error
}

/// The events of `text` from the `k`-th on, up to the first end or error
/// and at most up to the `limit`-th.
pub open spec fn event_stream(text: Seq<char>, k: nat, limit: nat) -> Seq<MathEvent>
    decreases limit - k,
{
    if k >= limit {
        Seq::empty()
    } else if stops(mathml_event(text, k)) {
        seq![mathml_event(text, k)]
    } else {
        seq![mathml_event(text, k)] + event_stream(text, k + 1, limit)
    }
}

/// How many events are read at most from a text of `n` characters.
pub open spec fn read_limit(n: nat) -> nat {
    if n <= (usize::MAX - 2) / 4 {
        4 * n + 2
    } else {
        usize::MAX as nat
    }
}

/// The events of a MathML text, up to its end or first error.
pub open spec fn mathml_events(text: Seq<char>) -> Seq<MathEvent> {
    event_stream(text, 0, read_limit(text.len()))
}

/// Parses a MathML document into its tree: the tree of the document's events
/// up to its end or first error.
///
/// quick-xml consumes at least one byte of input for every event before the
/// end, so `4 * chars + 2` reads are more than any document needs.
pub fn parse_mathml(mathml: &str) -> (r: Result<MathNode, String>)
    ensures
        result_view(r) == mathml_tree(mathml_events(mathml@)),
{
    let mut reader = xml_reader(mathml);
    let nc = str_to_chars(mathml).len();
    let limit: usize = if nc <= (usize::MAX - 2) / 4 {
        4 * nc + 2
    } else {
        usize::MAX
    };
    let ghost text = mathml@;
    assert(limit == read_limit(text.len()));
    let mut events: Vec<MathEvent> = Vec::new();
    let mut k: usize = 0;
    while k < limit
        invariant_except_break
            k <= limit,
            reader.text@ == text,
            reader.read@ == k,
            events@ + event_stream(text, k as nat, limit as nat) == mathml_events(text),
            limit == read_limit(text.len()),
        ensures
            events@ == mathml_events(text),
        decreases limit - k,
    {
        let ev = next_event(&mut reader);
        let last = match &ev {
            MathEvent::Eof => true,
            MathEvent::Error(_) => true,
            _ => false,
        };
        let ghost before = events@;
        events.push(ev);
        if last {
            assert(event_stream(text, k as nat, limit as nat) == seq![ev]);
            assert(events@ == before + seq![ev]);
            break;
        }
        assert(event_stream(text, k as nat, limit as nat) == seq![ev] + event_stream(text, (k + 1) as nat, limit as nat));
        assert(events@ + event_stream(text, (k + 1) as nat, limit as nat) =~= before + event_stream(text, k as nat, limit as nat));
        k += 1;
    }
    proof {
        if k >= limit {
            assert(event_stream(text, k as nat, limit as nat) == Seq::<MathEvent>::empty());
            assert(events@ =~= events@ + Seq::<MathEvent>::empty());
        }
    }
    build_math_tree(events.as_slice())
}

// ----- from LaTeX -----

/// What `latex2mathml` makes of the body of a formula: the MathML between
/// the `<math>` tags, or `None` when the LaTeX does not parse.
pub uninterp spec fn latex_content(latex: Seq<char>) -> Option<Seq<char>>;

/// The `Debug` text of the error `latex2mathml` gives for LaTeX that does
/// not parse.
pub uninterp spec fn latex_error(latex: Seq<char>) -> Seq<char>;

pub open spec fn math_open(block: bool) -> Seq<char> {
    seq!['<', 'm', 'a', 't', 'h', ' ', 'x', 'm', 'l', 'n', 's', '=', '"', 'h', 't', 't', 'p', ':', '/', '/', 'w', 'w', 'w', '.', 'w', '3', '.', 'o', 'r', 'g', '/', '1', '9', '9', '8', '/', 'M', 'a', 't', 'h', '/', 'M', 'a', 't', 'h', 'M', 'L', '"', ' ', 'd', 'i', 's', 'p', 'l', 'a', 'y', '=', '"']
        + if block {
        seq!['b', 'l', 'o', 'c', 'k']
    } else {
        seq!['i', 'n', 'l', 'i', 'n', 'e']
    } + seq!['"', '>']
}

pub open spec fn math_close() -> Seq<char> {
    seq!['<', '/', 'm', 'a', 't', 'h', '>']
}

/// `latex2mathml::latex_to_mathml` with the block or inline display style:
/// on success, the converted body wrapped in a `<math>` element whose
/// `display` attribute names the style; on failure, the `Debug` text of the
/// converter's error.
#[verifier::external_body]
fn convert_latex(latex: &str, block: bool) -> (r: Result<String, String>)
    ensures
        match r {
            Ok(m) => (latex_content(latex@) matches Some(c) && m@ == math_open(block) + c + math_close()),
            Err(e) => latex_content(latex@) is None && e@ == latex_error(latex@),
        },
{
    let style = if block { latex2mathml::DisplayStyle::Block } else { latex2mathml::DisplayStyle::Inline };
    latex2mathml::latex_to_mathml(latex, style).map_err(|e| format!("{:?}", e))
}

pub open spec fn latex_error_prefix() -> Seq<char> {
    seq!['L', 'a', 'T', 'e', 'X', ' ', 'p', 'a', 'r', 's', 'e', ' ', 'e', 'r', 'r', 'o', 'r', ':', ' ']
}

/// The MathML tree of a LaTeX formula, in display (`block`) or inline style.
/// A formula that does not convert is the error "LaTeX parse error: " and
/// the converter's message; otherwise the result is the tree of the events of
/// the MathML it converts to, or an "XML parse error: ".
pub fn math_tree(latex: &str, block: bool) -> (r: Result<MathNode, String>)
    ensures
        latex_content(latex@) is None ==> (r matches Err(e) && e@ == latex_error_prefix() + latex_error(latex@)),
        latex_content(latex@) matches Some(c) ==> result_view(r) == mathml_tree(
            mathml_events(math_open(block) + c + math_close()),
        ),
{
    match convert_latex(latex, block) {
        Ok(mathml) => parse_mathml(mathml.as_str()),
        Err(e) => {
            let mut out = vec!['L', 'a', 'T', 'e', 'X', ' ', 'p', 'a', 'r', 's', 'e', ' ', 'e', 'r', 'r', 'o', 'r', ':', ' '];
            assert(out@ =~= latex_error_prefix());
            let mut tc = string_chars(&e);
            out.append(&mut tc);
            Err(chars_to_string(out.as_slice()))
        },
    }
}

// ----- small helpers of the layout -----

/// The big operators (sums, products, integrals and the like) that are drawn
/// larger than the surrounding text.
pub open spec fn large_operator_char(c: char) -> bool {
    c == '\u{2211}' || c == '\u{220f}' || c == '\u{2210}' || c == '\u{22c0}' || c == '\u{22c1}'
        || c == '\u{22c2}' || c == '\u{22c3}' || c == '\u{222b}' || c == '\u{222c}' || c == '\u{222d}'
        || c == '\u{222e}' || c == '\u{2a01}' || c == '\u{2a02}' || c == '\u{2a00}'
}

/// Whether `text` is one of the big operators.
pub fn is_large_operator(text: &str) -> (b: bool)
    ensures
        b == (text@.len() == 1 && large_operator_char(text@[0])),
{
    let c = str_to_chars(text);
    if c.len() != 1 {
        return false;
    }
    let x = c[0];
    x == '\u{2211}' || x == '\u{220f}' || x == '\u{2210}' || x == '\u{22c0}' || x == '\u{22c1}'
        || x == '\u{22c2}' || x == '\u{22c3}' || x == '\u{222b}' || x == '\u{222c}' || x == '\u{222d}'
        || x == '\u{222e}' || x == '\u{2a01}' || x == '\u{2a02}' || x == '\u{2a00}'
}

/// Escapes `&`, `<`, `>`, `"` and `'` for formula text in SVG.
pub fn escape_xml(text: &str) -> (r: String)
    ensures
        r@ == escape_seq(text@, true),
{
    let c = str_to_chars(text);
    let e = escape_chars(c.as_slice(), true);
    chars_to_string(e.as_slice())
}

/// Where the scripts of the under/over elements go, whatever the children:
/// `mover` (what an accent such as `\hat{x}` or `\overline{x}` becomes)
/// puts its last child over the one before it and nothing under it;
/// `munder` puts its last child under the base and nothing over it; and
/// `munderover` puts its last child over and the one before under the base
/// before that.
pub proof fn scripts_go_over_or_under(ch: Seq<MathTree>, attrs: Seq<(String, String)>)
    requires
        ch.len() >= 2,
    ensures
        build_tree(seq!['m', 'o', 'v', 'e', 'r'], ch, attrs) == (MathTree::UnderOver {
            base: Box::new(ch[ch.len() - 2]),
            under: None,
            over: Some(Box::new(ch[ch.len() - 1])),
        }),
        build_tree(seq!['m', 'u', 'n', 'd', 'e', 'r'], ch, attrs) == (MathTree::UnderOver {
            base: Box::new(ch[ch.len() - 2]),
            under: Some(Box::new(ch[ch.len() - 1])),
            over: None,
        }),
        ch.len() >= 3 ==> build_tree(seq!['m', 'u', 'n', 'd', 'e', 'r', 'o', 'v', 'e', 'r'], ch, attrs) == (
        MathTree::UnderOver {
            base: Box::new(ch[ch.len() - 3]),
            under: Some(Box::new(ch[ch.len() - 2])),
            over: Some(Box::new(ch[ch.len() - 1])),
        }),
{
    let mover = seq!['m', 'o', 'v', 'e', 'r'];
    let munder = seq!['m', 'u', 'n', 'd', 'e', 'r'];
    let both = seq!['m', 'u', 'n', 'd', 'e', 'r', 'o', 'v', 'e', 'r'];
    assert(mover[1] != seq!['m', 'i'][1] && mover[1] != seq!['m', 'n'][1]);
    assert(mover[1] == seq!['m', 'o'][1] && mover.len() != 2);
    assert(mover[1] != seq!['m', 't', 'e', 'x', 't'][1]);
    assert(mover[1] != seq!['m', 's', 'u', 'p'][1] && mover[1] != seq!['m', 's', 'u', 'b'][1]);
    assert(mover[1] != seq!['m', 'f', 'r', 'a', 'c'][1] && mover[1] != seq!['m', 's', 'q', 'r', 't'][1]);
    assert(mover[1] != seq!['m', 'r', 'o', 'o', 't'][1]);
    assert(munder[1] != seq!['m', 'i'][1] && munder[1] != seq!['m', 'n'][1] && munder[1] != seq!['m', 'o'][1]);
    assert(munder[1] != seq!['m', 't', 'e', 'x', 't'][1] && munder[1] != seq!['m', 's', 'u', 'p'][1]);
    assert(munder[1] != seq!['m', 's', 'u', 'b'][1] && munder[1] != seq!['m', 's', 'u', 'b', 's', 'u', 'p'][1]);
    assert(munder[1] != seq!['m', 'f', 'r', 'a', 'c'][1] && munder[1] != seq!['m', 's', 'q', 'r', 't'][1]);
    assert(munder[1] != seq!['m', 'r', 'o', 'o', 't'][1] && munder[1] != mover[1]);
    assert(both[1] == munder[1] && both.len() != munder.len());
}

/// Scripts, fractions and roots take their parts in the order MathML writes
/// them, whatever the children: the base comes before a superscript
/// (`msup`), a subscript (`msub`) or both, subscript first (`msubsup`); a
/// fraction's numerator before its denominator; a root's radicand before its
/// index.
pub proof fn parts_keep_their_order(ch: Seq<MathTree>, attrs: Seq<(String, String)>)
    requires
        ch.len() >= 2,
    ensures
        build_tree(seq!['m', 's', 'u', 'p'], ch, attrs) == (MathTree::Sup {
            base: Box::new(ch[ch.len() - 2]),
            sup: Box::new(ch[ch.len() - 1]),
        }),
        build_tree(seq!['m', 's', 'u', 'b'], ch, attrs) == (MathTree::Sub {
            base: Box::new(ch[ch.len() - 2]),
            sub: Box::new(ch[ch.len() - 1]),
        }),
        ch.len() >= 3 ==> build_tree(seq!['m', 's', 'u', 'b', 's', 'u', 'p'], ch, attrs) == (MathTree::SubSup {
            base: Box::new(ch[ch.len() - 3]),
            sub: Box::new(ch[ch.len() - 2]),
            sup: Box::new(ch[ch.len() - 1]),
        }),
        build_tree(seq!['m', 'f', 'r', 'a', 'c'], ch, attrs) matches MathTree::Frac { num, den, .. } && *num == ch[ch.len()
            - 2] && *den == ch[ch.len() - 1],
        build_tree(seq!['m', 'r', 'o', 'o', 't'], ch, attrs) == (MathTree::Root {
            radicand: Box::new(ch[ch.len() - 2]),
            index: Box::new(ch[ch.len() - 1]),
        }),
{
    assert(seq!['m', 's', 'u', 'p'][1] != seq!['m', 'i'][1] && seq!['m', 's', 'u', 'p'][3] != seq!['m', 's', 'u', 'b'][3]);
    assert(seq!['m', 's', 'u', 'b'][1] != seq!['m', 'n'][1] && seq!['m', 's', 'u', 'b'][1] != seq!['m', 'o'][1]);
    assert(seq!['m', 'f', 'r', 'a', 'c'][1] != seq!['m', 't', 'e', 'x', 't'][1]);
    assert(seq!['m', 'r', 'o', 'o', 't'][1] != seq!['m', 't', 'e', 'x', 't'][1] && seq!['m', 'r', 'o', 'o', 't'][1]
        != seq!['m', 'f', 'r', 'a', 'c'][1]);
    assert(seq!['m', 'r', 'o', 'o', 't'][1] != seq!['m', 's', 'q', 'r', 't'][1]);
    assert(seq!['m', 'f', 'r', 'a', 'c'][1] != seq!['m', 's', 'q', 'r', 't'][1]);
    let both = seq!['m', 's', 'u', 'b', 's', 'u', 'p'];
    assert(both.len() == 7 && seq!['m', 's', 'u', 'p'].len() == 4 && seq!['m', 's', 'u', 'b'].len() == 4);
    assert(both != seq!['m', 'i'] && both != seq!['m', 'n'] && both != seq!['m', 'o']);
    assert(both != seq!['m', 't', 'e', 'x', 't'] && both != seq!['m', 's', 'u', 'p'] && both != seq!['m', 's', 'u', 'b']);
}

} // verus!
