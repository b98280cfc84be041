//! The colours of a theme: the defaults, the built-in themes by name, and the
//! mapping from an Alacritty colour scheme. Sizes and spacing of a theme are
//! set by the renderer.
use vstd::prelude::*;
use crate::text::{chars_to_string, eq_chars, is_ws, str_to_chars, trim, trim_chars, trim_end, trim_start};

verus! {

/// The eight colours of a theme, as CSS colour strings.
#[derive(Debug, Clone)]
pub struct ThemeColors {
    pub background_color: String,
    pub text_color: String,
    pub heading_color: String,
    pub link_color: String,
    pub code_bg_color: String,
    pub code_text_color: String,
    pub quote_border_color: String,
    pub quote_text_color: String,
}

/// The colours of an Alacritty scheme that a theme uses.
#[derive(Debug, Clone)]
pub struct AlacrittyPalette {
    pub background: String,
    pub foreground: String,
    pub black: String,
    pub blue: String,
    pub cyan: String,
    pub white: String,
}

pub open spec fn hex6(a: char, b: char, c: char, d: char, e: char, f: char) -> Seq<char> {
    seq!['#', a, b, c, d, e, f]
}

fn hex_color(v: Vec<char>) -> (r: String)
    ensures
        r@ == v@,
{
    chars_to_string(v.as_slice())
}

/// White, the default background.
pub fn default_background() -> (r: String)
    ensures
        r@ == hex6('f', 'f', 'f', 'f', 'f', 'f'),
{
    let v = vec!['#', 'f', 'f', 'f', 'f', 'f', 'f'];
    assert(v@ =~= hex6('f', 'f', 'f', 'f', 'f', 'f'));
    hex_color(v)
}

/// The default body text colour.
pub fn default_text() -> (r: String)
    ensures
        r@ == hex6('2', '4', '2', '9', '2', 'f'),
{
    let v = vec!['#', '2', '4', '2', '9', '2', 'f'];
    assert(v@ =~= hex6('2', '4', '2', '9', '2', 'f'));
    hex_color(v)
}

/// The default heading colour.
pub fn default_heading() -> (r: String)
    ensures
        r@ == hex6('1', 'b', '1', 'f', '2', '3'),
{
    let v = vec!['#', '1', 'b', '1', 'f', '2', '3'];
    assert(v@ =~= hex6('1', 'b', '1', 'f', '2', '3'));
    hex_color(v)
}

/// The default link colour.
pub fn default_link() -> (r: String)
    ensures
        r@ == hex6('0', '9', '6', '9', 'd', 'a'),
{
    let v = vec!['#', '0', '9', '6', '9', 'd', 'a'];
    assert(v@ =~= hex6('0', '9', '6', '9', 'd', 'a'));
    hex_color(v)
}

/// The default background of code.
pub fn default_code_bg() -> (r: String)
    ensures
        r@ == hex6('f', '6', 'f', '8', 'f', 'a'),
{
    let v = vec!['#', 'f', '6', 'f', '8', 'f', 'a'];
    assert(v@ =~= hex6('f', '6', 'f', '8', 'f', 'a'));
    hex_color(v)
}

/// The default colour of code text.
pub fn default_code_text() -> (r: String)
    ensures
        r@ == hex6('2', '4', '2', '9', '2', 'f'),
{
    let v = vec!['#', '2', '4', '2', '9', '2', 'f'];
    assert(v@ =~= hex6('2', '4', '2', '9', '2', 'f'));
    hex_color(v)
}

/// The default border colour of block quotes.
pub fn default_quote_border() -> (r: String)
    ensures
        r@ == hex6('d', '0', 'd', '7', 'd', 'e'),
{
    let v = vec!['#', 'd', '0', 'd', '7', 'd', 'e'];
    assert(v@ =~= hex6('d', '0', 'd', '7', 'd', 'e'));
    hex_color(v)
}

/// The default text colour of block quotes.
pub fn default_quote_text() -> (r: String)
    ensures
        r@ == hex6('5', '7', '6', '0', '6', 'a'),
{
    let v = vec!['#', '5', '7', '6', '0', '6', 'a'];
    assert(v@ =~= hex6('5', '7', '6', '0', '6', 'a'));
    hex_color(v)
}

/// The colours of the GitHub light theme: the defaults.
pub fn github_light_colors() -> (r: ThemeColors)
    ensures
        r.background_color@ == hex6('f', 'f', 'f', 'f', 'f', 'f'),
        r.text_color@ == hex6('2', '4', '2', '9', '2', 'f'),
        r.heading_color@ == hex6('1', 'b', '1', 'f', '2', '3'),
        r.link_color@ == hex6('0', '9', '6', '9', 'd', 'a'),
        r.code_bg_color@ == hex6('f', '6', 'f', '8', 'f', 'a'),
        r.code_text_color@ == hex6('2', '4', '2', '9', '2', 'f'),
        r.quote_border_color@ == hex6('d', '0', 'd', '7', 'd', 'e'),
        r.quote_text_color@ == hex6('5', '7', '6', '0', '6', 'a'),
{
    ThemeColors {
        background_color: default_background(),
        text_color: default_text(),
        heading_color: default_heading(),
        link_color: default_link(),
        code_bg_color: default_code_bg(),
        code_text_color: default_code_text(),
        quote_border_color: default_quote_border(),
        quote_text_color: default_quote_text(),
    }
}

/// A theme's colours from an Alacritty scheme: background and text from the
/// primary colours, headings blue, links cyan, code on black, quote borders
/// white, code and quotes in the foreground colour.
pub fn colors_from_alacritty(p: AlacrittyPalette) -> (r: ThemeColors)
    ensures
        r.background_color@ == p.background@,
        r.text_color@ == p.foreground@,
        r.heading_color@ == p.blue@,
        r.link_color@ == p.cyan@,
        r.code_bg_color@ == p.black@,
        r.code_text_color@ == p.foreground@,
        r.quote_border_color@ == p.white@,
        r.quote_text_color@ == p.foreground@,
{
    ThemeColors {
        background_color: p.background,
        text_color: p.foreground.clone(),
        heading_color: p.blue,
        link_color: p.cyan,
        code_bg_color: p.black,
        code_text_color: p.foreground.clone(),
        quote_border_color: p.white,
        quote_text_color: p.foreground,
    }
}

/// The built-in themes, by name.
pub open spec fn builtin_names() -> Seq<Seq<char>> {
    seq![
        seq!['c', 'a', 't', 'p', 'p', 'u', 'c', 'c', 'i', 'n', '_', 'l', 'a', 't', 't', 'e'],
        seq!['c', 'a', 't', 'p', 'p', 'u', 'c', 'c', 'i', 'n', '_', 'm', 'o', 'c', 'h', 'a'],
        seq!['d', 'r', 'a', 'c', 'u', 'l', 'a'],
        seq!['e', 'v', 'e', 'r', 'f', 'o', 'r', 'e', 's', 't'],
        seq!['g', 'i', 't', 'h', 'u', 'b', '_', 'd', 'a', 'r', 'k'],
        seq!['g', 'i', 't', 'h', 'u', 'b', '_', 'l', 'i', 'g', 'h', 't'],
        seq!['g', 'r', 'u', 'v', 'b', 'o', 'x', '_', 'd', 'a', 'r', 'k'],
        seq!['g', 'r', 'u', 'v', 'b', 'o', 'x', '_', 'l', 'i', 'g', 'h', 't'],
        seq!['m', 'o', 'n', 'o', 'k', 'a', 'i', '_', 'p', 'r', 'o'],
        seq!['n', 'o', 'r', 'd'],
        seq!['s', 'o', 'l', 'a', 'r', 'i', 'z', 'e', 'd', '_', 'd', 'a', 'r', 'k'],
        seq!['s', 'o', 'l', 'a', 'r', 'i', 'z', 'e', 'd', '_', 'l', 'i', 'g', 'h', 't'],
        seq!['t', 'o', 'k', 'y', 'o', '_', 'n', 'i', 'g', 'h', 't'],
    ]
}

/// How a character of a theme name is read: ASCII letters in lower case and
/// `-` as `_`.
pub open spec fn name_char(c: char) -> char {
    if c == '-' {
        '_'
    } else if 'A' <= c && c <= 'Z' {
        ((c as u32) + 32) as char
    } else {
        c
    }
}

/// A theme name as it is looked up: trimmed, ASCII lower case, `-` as `_`.
pub open spec fn normalize_name(name: Seq<char>) -> Seq<char> {
    trim(name).map_values(|c: char| name_char(c))
}

/// Index of the first of `names` from `i` on that equals `key`.
pub open spec fn index_from(names: Seq<Seq<char>>, key: Seq<char>, i: int) -> Option<int>
    decreases names.len() - i,
{
    if i < 0 || i >= names.len() {
        None
    } else if names[i] == key {
        Some(i)
    } else {
        index_from(names, key, i + 1)
    }
}

/// The names joined with `, `.
pub open spec fn join_names(names: Seq<Seq<char>>) -> Seq<char>
    decreases names.len(),
{
    if names.len() == 0 {
        Seq::empty()
    } else if names.len() == 1 {
        names[0]
    } else {
        join_names(names.drop_last()) + seq![',', ' '] + names.last()
    }
}

/// The error for a name that is not a built-in theme.
pub open spec fn unknown_theme_message(name: Seq<char>) -> Seq<char> {
    seq!['U', 'n', 'k', 'n', 'o', 'w', 'n', ' ', 'b', 'u', 'i', 'l', 't', '-', 'i', 'n', ' ', 't', 'h', 'e', 'm', 'e', ' ', '\'']
        + name + seq!['\'', '.', ' ', 'A', 'v', 'a', 'i', 'l', 'a', 'b', 'l', 'e', ':', ' '] + join_names(builtin_names())
}

/// The built-in theme that `name` selects, or the error that lists them.
pub open spec fn builtin_theme(name: Seq<char>) -> Result<Seq<char>, Seq<char>> {
    match index_from(builtin_names(), normalize_name(name), 0) {
        Some(i) => Ok(builtin_names()[i]),
        None => Err(unknown_theme_message(name)),
    }
}

/// The names of the built-in themes.
pub fn list_builtins() -> (r: Vec<String>)
    ensures
        r@.len() == builtin_names().len(),
        forall|i: int| 0 <= i < r@.len() ==> (#[trigger] r@[i])@ == builtin_names()[i],
{
    let mut out: Vec<String> = Vec::new();
    out.push(chars_to_string(vec!['c', 'a', 't', 'p', 'p', 'u', 'c', 'c', 'i', 'n', '_', 'l', 'a', 't', 't', 'e'].as_slice()));
    out.push(chars_to_string(vec!['c', 'a', 't', 'p', 'p', 'u', 'c', 'c', 'i', 'n', '_', 'm', 'o', 'c', 'h', 'a'].as_slice()));
    out.push(chars_to_string(vec!['d', 'r', 'a', 'c', 'u', 'l', 'a'].as_slice()));
    out.push(chars_to_string(vec!['e', 'v', 'e', 'r', 'f', 'o', 'r', 'e', 's', 't'].as_slice()));
    out.push(chars_to_string(vec!['g', 'i', 't', 'h', 'u', 'b', '_', 'd', 'a', 'r', 'k'].as_slice()));
    out.push(chars_to_string(vec!['g', 'i', 't', 'h', 'u', 'b', '_', 'l', 'i', 'g', 'h', 't'].as_slice()));
    out.push(chars_to_string(vec!['g', 'r', 'u', 'v', 'b', 'o', 'x', '_', 'd', 'a', 'r', 'k'].as_slice()));
    out.push(chars_to_string(vec!['g', 'r', 'u', 'v', 'b', 'o', 'x', '_', 'l', 'i', 'g', 'h', 't'].as_slice()));
    out.push(chars_to_string(vec!['m', 'o', 'n', 'o', 'k', 'a', 'i', '_', 'p', 'r', 'o'].as_slice()));
    out.push(chars_to_string(vec!['n', 'o', 'r', 'd'].as_slice()));
    out.push(chars_to_string(vec!['s', 'o', 'l', 'a', 'r', 'i', 'z', 'e', 'd', '_', 'd', 'a', 'r', 'k'].as_slice()));
    out.push(chars_to_string(vec!['s', 'o', 'l', 'a', 'r', 'i', 'z', 'e', 'd', '_', 'l', 'i', 'g', 'h', 't'].as_slice()));
    out.push(chars_to_string(vec!['t', 'o', 'k', 'y', 'o', '_', 'n', 'i', 'g', 'h', 't'].as_slice()));
    proof {
        assert forall|i: int| 0 <= i < out@.len() implies (#[trigger] out@[i])@ == builtin_names()[i] by {
            reveal_with_fuel(builtin_names, 1);
        }
    }
    out
}

fn name_char_exec(c: char) -> (r: char)
    ensures
        r == name_char(c),
{
    if c == '-' {
        '_'
    } else if 'A' <= c && c <= 'Z' {
        crate::text::char_from_ascii_code((c as u32 + 32) as u8)
    } else {
        c
    }
}

/// `name` trimmed, in ASCII lower case, with `-` read as `_`.
pub fn normalize_theme_name(name: &str) -> (r: Vec<char>)
    ensures
        r@ == normalize_name(name@),
{
    let c = str_to_chars(name);
    let t = trim_chars(c.as_slice());
    let mut out: Vec<char> = Vec::new();
    let mut i: usize = 0;
    while i < t.len()
        invariant
            i <= t@.len(),
            out@ == t@.subrange(0, i as int).map_values(|c: char| name_char(c)),
        decreases t@.len() - i,
    {
        out.push(name_char_exec(t[i]));
        i += 1;
        assert(out@ =~= t@.subrange(0, i as int).map_values(|c: char| name_char(c)));
    }
    assert(t@.subrange(0, t@.len() as int) == t@);
    out
}

/// The built-in theme `name` selects, ignoring surrounding whitespace, ASCII
/// case and `-` for `_`; otherwise the error naming it and listing the
/// built-in themes.
pub fn builtin_theme_name(name: &str) -> (r: Result<String, String>)
    ensures
        match r {
            Ok(n) => builtin_theme(name@) == Ok::<Seq<char>, Seq<char>>(n@),
            Err(e) => builtin_theme(name@) == Err::<Seq<char>, Seq<char>>(e@),
        },
{
    let key = normalize_theme_name(name);
    let names = list_builtins();
    let ghost spec_names = builtin_names();
    let mut i: usize = 0;
    while i < names.len()
        invariant
            i <= names@.len(),
            names@.len() == spec_names.len(),
            spec_names == builtin_names(),
            forall|k: int| 0 <= k < names@.len() ==> (#[trigger] names@[k])@ == spec_names[k],
            key@ == normalize_name(name@),
            index_from(spec_names, key@, 0) == index_from(spec_names, key@, i as int),
        decreases names@.len() - i,
    {
        let nc = crate::text::string_chars(&names[i]);
        if eq_chars(nc.as_slice(), key.as_slice()) {
            return Ok(chars_to_string(nc.as_slice()));
        }
        i += 1;
    }
    // Not found: the message names what was asked for and lists the themes.
    assert(index_from(spec_names, key@, i as int) is None);
    let mut msg: Vec<char> = vec!['U', 'n', 'k', 'n', 'o', 'w', 'n', ' ', 'b', 'u', 'i', 'l', 't', '-', 'i', 'n', ' ', 't', 'h', 'e', 'm', 'e', ' ', '\''];
    let ghost m0 = msg@;
    let mut nm = str_to_chars(name);
    msg.append(&mut nm);
    let mut mid = vec!['\'', '.', ' ', 'A', 'v', 'a', 'i', 'l', 'a', 'b', 'l', 'e', ':', ' '];
    let ghost m1 = mid@;
    msg.append(&mut mid);
    let ghost before_list = msg@;
    let mut k: usize = 0;
    while k < names.len()
        invariant
            k <= names@.len(),
            names@.len() == spec_names.len(),
            spec_names == builtin_names(),
            forall|q: int| 0 <= q < names@.len() ==> (#[trigger] names@[q])@ == spec_names[q],
            msg@ == before_list + join_names(spec_names.subrange(0, k as int)),
        decreases names@.len() - k,
    {
        let ghost prev = msg@;
        if k > 0 {
            msg.push(',');
            msg.push(' ');
        }
        let mut nc = crate::text::string_chars(&names[k]);
        msg.append(&mut nc);
        proof {
            let sub = spec_names.subrange(0, k + 1);
            assert(sub.drop_last() == spec_names.subrange(0, k as int));
            if k == 0 {
                assert(msg@ =~= before_list + join_names(sub));
            } else {
                assert(msg@ =~= before_list + join_names(sub));
            }
        }
        k += 1;
    }
    proof {
        assert(spec_names.subrange(0, spec_names.len() as int) == spec_names);
        assert(m0 =~= seq!['U', 'n', 'k', 'n', 'o', 'w', 'n', ' ', 'b', 'u', 'i', 'l', 't', '-', 'i', 'n', ' ', 't', 'h', 'e', 'm', 'e', ' ', '\'']);
        assert(m1 =~= seq!['\'', '.', ' ', 'A', 'v', 'a', 'i', 'l', 'a', 'b', 'l', 'e', ':', ' ']);
        assert(msg@ =~= unknown_theme_message(name@));
    }
    Err(chars_to_string(msg.as_slice()))
}

// ----- laws -----

/// The two names differ only in ASCII case and in `-` for `_`.
pub open spec fn same_name(a: Seq<char>, b: Seq<char>) -> bool {
    a.len() == b.len() && forall|i: int| 0 <= i < a.len() ==> name_char(#[trigger] a[i]) == name_char(b[i])
}

proof fn lemma_ws_aligned(c: char, d: char)
    requires
        name_char(c) == name_char(d),
    ensures
        is_ws(c) <==> is_ws(d),
{
}

proof fn lemma_trim_start_aligned(a: Seq<char>, b: Seq<char>)
    requires
        same_name(a, b),
    ensures
        same_name(trim_start(a), trim_start(b)),
    decreases a.len(),
{
    if a.len() > 0 {
        lemma_ws_aligned(a[0], b[0]);
        if is_ws(a[0]) {
            assert forall|i: int| 0 <= i < a.drop_first().len() implies name_char(#[trigger] a.drop_first()[i])
                == name_char(b.drop_first()[i]) by {
                assert(a.drop_first()[i] == a[i + 1] && b.drop_first()[i] == b[i + 1]);
            }
            lemma_trim_start_aligned(a.drop_first(), b.drop_first());
        }
    }
}

proof fn lemma_trim_end_aligned(a: Seq<char>, b: Seq<char>)
    requires
        same_name(a, b),
    ensures
        same_name(trim_end(a), trim_end(b)),
    decreases a.len(),
{
    if a.len() > 0 {
        lemma_ws_aligned(a.last(), b.last());
        if is_ws(a.last()) {
            assert forall|i: int| 0 <= i < a.drop_last().len() implies name_char(#[trigger] a.drop_last()[i])
                == name_char(b.drop_last()[i]) by {
                assert(a.drop_last()[i] == a[i] && b.drop_last()[i] == b[i]);
            }
            lemma_trim_end_aligned(a.drop_last(), b.drop_last());
        }
    }
}

/// Names that differ only in ASCII case and in `-` for `_` are read the same,
/// so they select the same built-in theme or none.
pub proof fn theme_names_ignore_case_and_dashes(a: Seq<char>, b: Seq<char>)
    requires
        same_name(a, b),
    ensures
        normalize_name(a) == normalize_name(b),
        builtin_theme(a) is Ok <==> builtin_theme(b) is Ok,
        builtin_theme(a) is Ok ==> builtin_theme(a) == builtin_theme(b),
{
    lemma_trim_start_aligned(a, b);
    lemma_trim_end_aligned(trim_start(a), trim_start(b));
    let ta = trim(a);
    let tb = trim(b);
    assert(normalize_name(a) =~= normalize_name(b)) by {
        assert forall|i: int| 0 <= i < ta.len() implies #[trigger] normalize_name(a)[i] == normalize_name(b)[i] by {
            assert(name_char(ta[i]) == name_char(tb[i]));
        }
    }
}

} // verus!
