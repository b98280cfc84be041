//! Inline HTML in Markdown text: `<span style=..>`, `<font color>`, `<sup>`,
//! `<sub>`, `<u>`, `<mark>` and the plain formatting tags. Tags are parsed
//! into styles, and colour values are only let through when they cannot
//! carry markup into the SVG.
use vstd::prelude::*;
use crate::text::{
    after, ends_with, ends_with_chars, is_ws, is_ws_char, trim_end_matches, trim_end_matches_chars, ascii_alnum, ascii_lower, ascii_lower_chars, chars_to_string, contains, contains_chars,
    eq_chars, find, find_char, lemma_find_bounds, slice_to_vec, split_char, split_char_exec,
    starts_with, starts_with_chars, str_to_chars, string_chars, trim, trim_chars,
};

verus! {

/// The style an inline HTML tag sets. Font sizes are kept as the text of each
/// non-empty `font-size` declaration, in order; the renderer turns them into
/// a scale.
#[derive(Debug, Clone)]
pub struct InlineHtmlStyle {
    pub color: Option<String>,
    pub background: Option<String>,
    pub font_sizes: Vec<String>,
    pub underline: bool,
}

pub struct StyleModel {
    pub color: Option<Seq<char>>,
    pub background: Option<Seq<char>>,
    pub font_sizes: Seq<Seq<char>>,
    pub underline: bool,
}

pub open spec fn opt_view(o: Option<String>) -> Option<Seq<char>> {
    match o {
        Some(s) => Some(s@),
        None => None,
    }
}

impl InlineHtmlStyle {
    pub open spec fn model(&self) -> StyleModel {
        StyleModel {
            color: opt_view(self.color),
            background: opt_view(self.background),
            font_sizes: Seq::new(self.font_sizes@.len(), |i: int| self.font_sizes@[i]@),
            underline: self.underline,
        }
    }

    /// No colour, no background, no font size, no underline.
    pub fn plain() -> (r: InlineHtmlStyle)
        ensures
            r.model() == plain_style(),
    {
        let r = InlineHtmlStyle { color: None, background: None, font_sizes: Vec::new(), underline: false };
        assert(r.model().font_sizes =~= Seq::<Seq<char>>::empty());
        r
    }
}

pub open spec fn plain_style() -> StyleModel {
    StyleModel { color: None, background: None, font_sizes: Seq::empty(), underline: false }
}

// ----- colours -----

/// Characters a colour value may hold.
pub open spec fn color_char(c: char) -> bool {
    ascii_alnum(c) || c == '#' || c == ',' || c == '(' || c == ')' || c == '%' || c == '.' || c == ' '
}

pub open spec fn ascii_alpha(c: char) -> bool {
    ('a' <= c && c <= 'z') || ('A' <= c && c <= 'Z')
}

/// A colour value fit to stand in an SVG `fill` attribute: the trimmed value
/// when it is at most 64 characters of letters, digits and `#,()%. `, and it
/// is a hex colour of 3, 6 or 8 digits, or starts with `rgb`, `hsl` or `var`,
/// or is a name made of letters.
pub open spec fn safe_color(value: Seq<char>) -> Option<Seq<char>> {
    let v = trim(value);
    if v.len() == 0 || v.len() > 64 || !(forall|i: int| 0 <= i < v.len() ==> color_char(#[trigger] v[i])) {
        None
    } else if v[0] == '#' {
        if v.len() == 4 || v.len() == 7 || v.len() == 9 {
            Some(v)
        } else {
            None
        }
    } else if starts_with(v, seq!['r', 'g', 'b']) || starts_with(v, seq!['h', 's', 'l']) || starts_with(
        v,
        seq!['v', 'a', 'r'],
    ) || (forall|i: int| 0 <= i < v.len() ==> ascii_alpha(#[trigger] v[i])) {
        Some(v)
    } else {
        None
    }
}

// ----- attributes -----

/// One `prop: value` declaration of a `style` attribute.
pub open spec fn apply_decl(st: StyleModel, decl: Seq<char>) -> StyleModel {
    match find(decl, seq![':']) {
        None => st,
        Some(k) => {
            let prop = ascii_lower(trim(decl.subrange(0, k)));
            let val = trim(after(decl, k + 1));
            if val.len() == 0 {
                st
            } else if prop == seq!['c', 'o', 'l', 'o', 'r'] {
                StyleModel { color: safe_color(val), ..st }
            } else if prop == seq!['b', 'a', 'c', 'k', 'g', 'r', 'o', 'u', 'n', 'd'] || prop == seq![
                'b',
                'a',
                'c',
                'k',
                'g',
                'r',
                'o',
                'u',
                'n',
                'd',
                '-',
                'c',
                'o',
                'l',
                'o',
                'r',
            ] {
                StyleModel { background: safe_color(val), ..st }
            } else if prop == seq!['t', 'e', 'x', 't', '-', 'd', 'e', 'c', 'o', 'r', 'a', 't', 'i', 'o', 'n'] && contains(
                ascii_lower(val),
                seq!['u', 'n', 'd', 'e', 'r', 'l', 'i', 'n', 'e'],
            ) {
                StyleModel { underline: true, ..st }
            } else if prop == seq!['f', 'o', 'n', 't', '-', 's', 'i', 'z', 'e'] {
                StyleModel { font_sizes: st.font_sizes.push(val), ..st }
            } else {
                st
            }
        },
    }
}

pub open spec fn apply_decls(st: StyleModel, decls: Seq<Seq<char>>) -> StyleModel
    decreases decls.len(),
{
    if decls.len() == 0 {
        st
    } else {
        apply_decls(apply_decl(st, decls[0]), decls.drop_first())
    }
}

/// What attribute `name` (lower case) with `value` does to a style: `style`
/// applies its declarations in order; `color`, `bgcolor` and `background`
/// set the colours; other attributes do nothing.
pub open spec fn apply_attr(st: StyleModel, name: Seq<char>, value: Seq<char>) -> StyleModel {
    let v = trim(value);
    if name == seq!['s', 't', 'y', 'l', 'e'] {
        apply_decls(st, split_char(v, ';'))
    } else if name == seq!['c', 'o', 'l', 'o', 'r'] {
        StyleModel { color: safe_color(v), ..st }
    } else if name == seq!['b', 'g', 'c', 'o', 'l', 'o', 'r'] || name == seq!['b', 'a', 'c', 'k', 'g', 'r', 'o', 'u', 'n', 'd'] {
        StyleModel { background: safe_color(v), ..st }
    } else {
        st
    }
}

fn color_char_exec(c: char) -> (b: bool)
    ensures
        b == color_char(c),
{
    ('0' <= c && c <= '9') || ('a' <= c && c <= 'z') || ('A' <= c && c <= 'Z') || c == '#' || c == ','
        || c == '(' || c == ')' || c == '%' || c == '.' || c == ' '
}

fn safe_color_chars(value: &[char]) -> (r: Option<String>)
    ensures
        opt_view(r) == safe_color(value@),
{
    let v = trim_chars(value);
    let n = v.len();
    if n == 0 || n > 64 {
        return None;
    }
    let mut i: usize = 0;
    while i < n
        invariant
            n == v@.len(),
            v@ == trim(value@),
            i <= n,
            forall|k: int| 0 <= k < i ==> color_char(#[trigger] v@[k]),
        decreases n - i,
    {
        if !color_char_exec(v[i]) {
            assert(!color_char(v@[i as int]));
            assert(!(forall|k: int| 0 <= k < v@.len() ==> color_char(#[trigger] v@[k])));
            return None;
        }
        i += 1;
    }
    if v[0] == '#' {
        if n == 4 || n == 7 || n == 9 {
            return Some(chars_to_string(v.as_slice()));
        }
        return None;
    }
    let rgb = vec!['r', 'g', 'b'];
    let hsl = vec!['h', 's', 'l'];
    let var = vec!['v', 'a', 'r'];
    assert(rgb@ =~= seq!['r', 'g', 'b']);
    assert(hsl@ =~= seq!['h', 's', 'l']);
    assert(var@ =~= seq!['v', 'a', 'r']);
    if starts_with_chars(v.as_slice(), rgb.as_slice()) || starts_with_chars(v.as_slice(), hsl.as_slice())
        || starts_with_chars(v.as_slice(), var.as_slice()) {
        return Some(chars_to_string(v.as_slice()));
    }
    let mut j: usize = 0;
    while j < n
        invariant
            n == v@.len(),
            v@ == trim(value@),
            v@[0] != '#',
            !starts_with(v@, seq!['r', 'g', 'b']) && !starts_with(v@, seq!['h', 's', 'l']) && !starts_with(v@, seq!['v', 'a', 'r']),
            j <= n,
            forall|k: int| 0 <= k < j ==> ascii_alpha(#[trigger] v@[k]),
        decreases n - j,
    {
        let c = v[j];
        if !(('a' <= c && c <= 'z') || ('A' <= c && c <= 'Z')) {
            assert(!ascii_alpha(v@[j as int]));
            assert(!(forall|k: int| 0 <= k < v@.len() ==> ascii_alpha(#[trigger] v@[k])));
            return None;
        }
        j += 1;
    }
    Some(chars_to_string(v.as_slice()))
}

/// The value as a colour fit for an SVG attribute, or `None`.
pub fn sanitize_color(value: &str) -> (r: Option<String>)
    ensures
        opt_view(r) == safe_color(value@),
{
    let c = str_to_chars(value);
    safe_color_chars(c.as_slice())
}

fn lit(v: Vec<char>) -> (r: Vec<char>)
    ensures
        r@ == v@,
{
    v
}

fn apply_decl_exec(style: &mut InlineHtmlStyle, decl: &[char])
    ensures
        final(style).model() == apply_decl(old(style).model(), decl@),
{
    let dl = decl.len();
    let fk = find_char(decl, ':');
    if fk.is_none() {
        return;
    }
    let k = fk.unwrap();
    proof {
        lemma_find_bounds(decl@, seq![':']);
        assert(k + 1 <= decl@.len());
    }
    let head = slice_to_vec(decl, 0, k);
    let prop0 = trim_chars(head.as_slice());
    let prop = ascii_lower_chars(prop0.as_slice());
    let tail = slice_to_vec(decl, k + 1, dl);
    let val = trim_chars(tail.as_slice());
    if val.len() == 0 {
        return;
    }
    let k_color = lit(vec!['c', 'o', 'l', 'o', 'r']);
    let k_bg = lit(vec!['b', 'a', 'c', 'k', 'g', 'r', 'o', 'u', 'n', 'd']);
    let k_bgc = lit(vec!['b', 'a', 'c', 'k', 'g', 'r', 'o', 'u', 'n', 'd', '-', 'c', 'o', 'l', 'o', 'r']);
    let k_td = lit(vec!['t', 'e', 'x', 't', '-', 'd', 'e', 'c', 'o', 'r', 'a', 't', 'i', 'o', 'n']);
    let k_ul = lit(vec!['u', 'n', 'd', 'e', 'r', 'l', 'i', 'n', 'e']);
    let k_fs = lit(vec!['f', 'o', 'n', 't', '-', 's', 'i', 'z', 'e']);
    assert(k_color@ =~= seq!['c', 'o', 'l', 'o', 'r']);
    assert(k_bg@ =~= seq!['b', 'a', 'c', 'k', 'g', 'r', 'o', 'u', 'n', 'd']);
    assert(k_bgc@ =~= seq!['b', 'a', 'c', 'k', 'g', 'r', 'o', 'u', 'n', 'd', '-', 'c', 'o', 'l', 'o', 'r']);
    assert(k_td@ =~= seq!['t', 'e', 'x', 't', '-', 'd', 'e', 'c', 'o', 'r', 'a', 't', 'i', 'o', 'n']);
    assert(k_ul@ =~= seq!['u', 'n', 'd', 'e', 'r', 'l', 'i', 'n', 'e']);
    assert(k_fs@ =~= seq!['f', 'o', 'n', 't', '-', 's', 'i', 'z', 'e']);
    assert(head@ == decl@.subrange(0, k as int));
    assert(tail@ == after(decl@, k + 1));
    if eq_chars(prop.as_slice(), k_color.as_slice()) {
        style.color = safe_color_chars(val.as_slice());
    } else if eq_chars(prop.as_slice(), k_bg.as_slice()) || eq_chars(prop.as_slice(), k_bgc.as_slice()) {
        style.background = safe_color_chars(val.as_slice());
    } else if eq_chars(prop.as_slice(), k_td.as_slice()) && contains_chars(
        ascii_lower_chars(val.as_slice()).as_slice(),
        k_ul.as_slice(),
    ) {
        style.underline = true;
    } else if eq_chars(prop.as_slice(), k_fs.as_slice()) {
        let ghost before = style.model();
        style.font_sizes.push(chars_to_string(val.as_slice()));
        assert(style.model().font_sizes =~= before.font_sizes.push(val@));
    }
}

/// Applies attribute `name` (already in lower case) with `value` to `style`.
pub fn apply_inline_html_attr(style: &mut InlineHtmlStyle, name: &str, value: &str)
    ensures
        final(style).model() == apply_attr(old(style).model(), name@, value@),
{
    let nm = str_to_chars(name);
    let v0 = str_to_chars(value);
    let v = trim_chars(v0.as_slice());
    let k_style = lit(vec!['s', 't', 'y', 'l', 'e']);
    let k_color = lit(vec!['c', 'o', 'l', 'o', 'r']);
    let k_bgcolor = lit(vec!['b', 'g', 'c', 'o', 'l', 'o', 'r']);
    let k_bg = lit(vec!['b', 'a', 'c', 'k', 'g', 'r', 'o', 'u', 'n', 'd']);
    assert(k_style@ =~= seq!['s', 't', 'y', 'l', 'e']);
    assert(k_color@ =~= seq!['c', 'o', 'l', 'o', 'r']);
    assert(k_bgcolor@ =~= seq!['b', 'g', 'c', 'o', 'l', 'o', 'r']);
    assert(k_bg@ =~= seq!['b', 'a', 'c', 'k', 'g', 'r', 'o', 'u', 'n', 'd']);
    if eq_chars(nm.as_slice(), k_style.as_slice()) {
        let decls = split_char_exec(v.as_slice(), ';');
        let ghost dv = decls@.map_values(|l: Vec<char>| l@);
        let ghost st0 = style.model();
        let mut i: usize = 0;
        assert(dv.subrange(0, dv.len() as int) == dv);
        while i < decls.len()
            invariant
                i <= decls@.len(),
                dv == decls@.map_values(|l: Vec<char>| l@),
                apply_decls(st0, dv) == apply_decls(style.model(), dv.subrange(i as int, dv.len() as int)),
            decreases decls@.len() - i,
        {
            let ghost rest = dv.subrange(i as int, dv.len() as int);
            assert(rest[0] == decls@[i as int]@);
            assert(rest.drop_first() == dv.subrange(i + 1, dv.len() as int));
            apply_decl_exec(style, decls[i].as_slice());
            i += 1;
        }
        assert(dv.subrange(dv.len() as int, dv.len() as int) =~= Seq::<Seq<char>>::empty());
    } else if eq_chars(nm.as_slice(), k_color.as_slice()) {
        style.color = safe_color_chars(v.as_slice());
    } else if eq_chars(nm.as_slice(), k_bgcolor.as_slice()) || eq_chars(nm.as_slice(), k_bg.as_slice()) {
        style.background = safe_color_chars(v.as_slice());
    }
}

// ----- scanning a tag's attribute list -----

/// The whitespace that separates attributes.
pub open spec fn html_ws(c: char) -> bool {
    c == ' ' || c == '\t' || c == '\n' || c == '\r' || c == '\u{c}'
}

/// First position at or after `i` that is not separating whitespace.
pub open spec fn skip_ws_at(s: Seq<char>, i: int) -> int
    decreases s.len() - i,
{
    if 0 <= i < s.len() && html_ws(s[i]) {
        skip_ws_at(s, i + 1)
    } else {
        i
    }
}

/// End of an attribute name starting at `i`: the first whitespace or `=`.
pub open spec fn name_end_at(s: Seq<char>, i: int) -> int
    decreases s.len() - i,
{
    if 0 <= i < s.len() && !html_ws(s[i]) && s[i] != '=' {
        name_end_at(s, i + 1)
    } else {
        i
    }
}

/// First position at or after `i` holding `q`, or the end.
pub open spec fn until_char_at(s: Seq<char>, i: int, q: char) -> int
    decreases s.len() - i,
{
    if 0 <= i < s.len() && s[i] != q {
        until_char_at(s, i + 1, q)
    } else {
        i
    }
}

/// First whitespace at or after `i`, or the end.
pub open spec fn until_ws_at(s: Seq<char>, i: int) -> int
    decreases s.len() - i,
{
    if 0 <= i < s.len() && !html_ws(s[i]) {
        until_ws_at(s, i + 1)
    } else {
        i
    }
}

/// The attribute starting at `i`: its name in lower case, its value (quoted
/// with `"` or `'`, bare up to whitespace, or empty without `=`), and where
/// scanning goes on. An empty name skips one character.
pub open spec fn attr_at(s: Seq<char>, i: int) -> (Seq<char>, Seq<char>, int) {
    let e = name_end_at(s, i);
    let name = ascii_lower(trim(s.subrange(i, e)));
    if name.len() == 0 {
        (name, Seq::empty(), e + 1)
    } else {
        let j = skip_ws_at(s, e);
        if j < s.len() && s[j] == '=' {
            let k = skip_ws_at(s, j + 1);
            if k < s.len() && (s[k] == '"' || s[k] == '\'') {
                let end = until_char_at(s, k + 1, s[k]);
                (name, s.subrange(k + 1, end), if end < s.len() {
                    end + 1
                } else {
                    end
                })
            } else {
                let end = until_ws_at(s, k);
                (name, s.subrange(k, end), end)
            }
        } else {
            (name, Seq::empty(), j)
        }
    }
}

pub proof fn lemma_scan_bounds(s: Seq<char>, i: int)
    requires
        0 <= i <= s.len(),
    ensures
        i <= skip_ws_at(s, i) <= s.len(),
        i <= name_end_at(s, i) <= s.len(),
        i <= until_ws_at(s, i) <= s.len(),
        forall|q: char| i <= #[trigger] until_char_at(s, i, q) <= s.len(),
    decreases s.len() - i,
{
    if i < s.len() {
        lemma_scan_bounds(s, i + 1);
        assert forall|q: char| i <= #[trigger] until_char_at(s, i, q) <= s.len() by {
            assert(i + 1 <= until_char_at(s, i + 1, q) <= s.len());
        }
    }
}

pub proof fn lemma_attr_at(s: Seq<char>, i: int)
    requires
        0 <= i < s.len(),
    ensures
        i < attr_at(s, i).2 <= s.len() + 1,
{
    lemma_scan_bounds(s, i);
    let e = name_end_at(s, i);
    let name = ascii_lower(trim(s.subrange(i, e)));
    if name.len() > 0 {
        assert(e > i);
        lemma_scan_bounds(s, e);
        let j = skip_ws_at(s, e);
        if j < s.len() && s[j] == '=' {
            lemma_scan_bounds(s, j + 1);
            let k = skip_ws_at(s, j + 1);
            if k < s.len() && (s[k] == '"' || s[k] == '\'') {
                lemma_scan_bounds(s, k + 1);
                assert(until_char_at(s, k + 1, s[k]) <= s.len());
            } else {
                lemma_scan_bounds(s, k);
            }
        }
    }
}

/// The style an attribute list gives, scanning from position `i`.
pub open spec fn scan_attrs(s: Seq<char>, i: int, st: StyleModel) -> StyleModel
    decreases s.len() + 1 - i,
{
    if i < 0 {
        st
    } else {
        let j = skip_ws_at(s, i);
        if j >= s.len() || i > s.len() {
            st
        } else {
            proof {
                lemma_scan_bounds(s, i);
                lemma_attr_at(s, j);
            }
            let a = attr_at(s, j);
            let next = if a.0.len() == 0 {
                st
            } else {
                apply_attr(st, a.0, a.1)
            };
            scan_attrs(s, a.2, next)
        }
    }
}

/// The style that an attribute list such as `style="color: red" class="x"`
/// sets.
pub open spec fn attrs_style(rest: Seq<char>) -> StyleModel {
    scan_attrs(rest, 0, plain_style())
}

fn html_ws_exec(c: char) -> (b: bool)
    ensures
        b == html_ws(c),
{
    c == ' ' || c == '\t' || c == '\n' || c == '\r' || c == '\u{c}'
}

fn skip_ws_exec(s: &[char], i: usize) -> (r: usize)
    requires
        i <= s@.len(),
    ensures
        r as int == skip_ws_at(s@, i as int),
        i <= r <= s@.len(),
{
    let n = s.len();
    let mut j = i;
    while j < n && html_ws_exec(s[j])
        invariant
            n == s@.len(),
            i <= j <= n,
            skip_ws_at(s@, i as int) == skip_ws_at(s@, j as int),
        decreases n - j,
    {
        j += 1;
    }
    j
}

fn name_end_exec(s: &[char], i: usize) -> (r: usize)
    requires
        i <= s@.len(),
    ensures
        r as int == name_end_at(s@, i as int),
        i <= r <= s@.len(),
{
    let n = s.len();
    let mut j = i;
    while j < n && !html_ws_exec(s[j]) && s[j] != '='
        invariant
            n == s@.len(),
            i <= j <= n,
            name_end_at(s@, i as int) == name_end_at(s@, j as int),
        decreases n - j,
    {
        j += 1;
    }
    j
}

fn until_char_exec(s: &[char], i: usize, q: char) -> (r: usize)
    requires
        i <= s@.len(),
    ensures
        r as int == until_char_at(s@, i as int, q),
        i <= r <= s@.len(),
{
    let n = s.len();
    let mut j = i;
    while j < n && s[j] != q
        invariant
            n == s@.len(),
            i <= j <= n,
            until_char_at(s@, i as int, q) == until_char_at(s@, j as int, q),
        decreases n - j,
    {
        j += 1;
    }
    j
}

fn until_ws_exec(s: &[char], i: usize) -> (r: usize)
    requires
        i <= s@.len(),
    ensures
        r as int == until_ws_at(s@, i as int),
        i <= r <= s@.len(),
{
    let n = s.len();
    let mut j = i;
    while j < n && !html_ws_exec(s[j])
        invariant
            n == s@.len(),
            i <= j <= n,
            until_ws_at(s@, i as int) == until_ws_at(s@, j as int),
        decreases n - j,
    {
        j += 1;
    }
    j
}

/// Scans an attribute list (such as `style="color: red" class="x"`) into a
/// style.
pub fn parse_inline_html_attrs(rest: &str) -> (r: InlineHtmlStyle)
    ensures
        r.model() == attrs_style(rest@),
{
    let s = str_to_chars(rest);
    let n = s.len();
    let mut style = InlineHtmlStyle::plain();
    let mut i: usize = 0;
    while i < n
        invariant
            n == s@.len(),
            s@ == rest@,
            i <= n,
            attrs_style(rest@) == scan_attrs(s@, i as int, style.model()),
        ensures
            attrs_style(rest@) == style.model(),
        decreases n - i,
    {
        let j = skip_ws_exec(s.as_slice(), i);
        if j >= n {
            assert(scan_attrs(s@, i as int, style.model()) == style.model());
            break;
        }
        proof {
            lemma_attr_at(s@, j as int);
        }
        let e = name_end_exec(s.as_slice(), j);
        let raw = slice_to_vec(s.as_slice(), j, e);
        let t = trim_chars(raw.as_slice());
        let name = ascii_lower_chars(t.as_slice());
        if name.len() == 0 {
            if e >= n {
                assert(scan_attrs(s@, e + 1, style.model()) == style.model());
                break;
            }
            i = e + 1;
            continue;
        }
        let k0 = skip_ws_exec(s.as_slice(), e);
        let mut value: Vec<char> = Vec::new();
        let next: usize;
        if k0 < n && s[k0] == '=' {
            let k = skip_ws_exec(s.as_slice(), k0 + 1);
            if k < n && (s[k] == '"' || s[k] == '\'') {
                let end = until_char_exec(s.as_slice(), k + 1, s[k]);
                value = slice_to_vec(s.as_slice(), k + 1, end);
                next = if end < n {
                    end + 1
                } else {
                    end
                };
            } else {
                let end = until_ws_exec(s.as_slice(), k);
                value = slice_to_vec(s.as_slice(), k, end);
                next = end;
            }
        } else {
            assert(value@ =~= Seq::<char>::empty());
            next = k0;
        }
        let nm = chars_to_string(name.as_slice());
        let vs = chars_to_string(value.as_slice());
        apply_inline_html_attr(&mut style, nm.as_str(), vs.as_str());
        i = next;
        if i >= n {
            assert(scan_attrs(s@, i as int, style.model()) == style.model());
            break;
        }
    }
    style
}

// ----- tags -----

/// A parsed opening or closing inline HTML tag.
#[derive(Debug, Clone)]
pub struct ParsedHtmlTag {
    pub name: String,
    pub closing: bool,
    pub self_closing: bool,
    pub style: InlineHtmlStyle,
}

pub struct TagModel {
    pub name: Seq<char>,
    pub closing: bool,
    pub self_closing: bool,
    pub style: StyleModel,
}

impl ParsedHtmlTag {
    pub open spec fn model(&self) -> TagModel {
        TagModel {
            name: self.name@,
            closing: self.closing,
            self_closing: self.self_closing,
            style: self.style.model(),
        }
    }
}

/// First position at or after `i` holding whitespace, or the end.
pub open spec fn first_ws_at(s: Seq<char>, i: int) -> int
    decreases s.len() - i,
{
    if 0 <= i < s.len() && !is_ws(s[i]) {
        first_ws_at(s, i + 1)
    } else {
        i
    }
}

pub open spec fn ascii_digit(c: char) -> bool {
    '0' <= c && c <= '9'
}

/// A tag name: letters and digits, not starting with a digit.
pub open spec fn tag_name_ok(name: Seq<char>) -> bool {
    name.len() > 0 && (forall|i: int| 0 <= i < name.len() ==> ascii_alnum(#[trigger] name[i])) && !ascii_digit(name[0])
}

/// An inline tag such as `<span style="color: red">` or `</sup>`: its name
/// (letters and digits, not starting with a digit, in lower case), whether
/// it closes or closes itself, and for an opening tag the style of its
/// attributes. `None` for anything else.
pub open spec fn parse_tag(html: Seq<char>) -> Option<TagModel> {
    let t = trim(html);
    if !starts_with(t, seq!['<']) {
        None
    } else {
        let closing = starts_with(t, seq!['<', '/']);
        let inner0 = if closing {
            after(t, 2)
        } else {
            after(t, 1)
        };
        let inner1 = match find(inner0, seq!['>']) {
            Some(k) => inner0.subrange(0, k),
            None => inner0,
        };
        let inner2 = trim(inner1);
        let self_closing = ends_with(inner2, seq!['/']);
        let inner = trim(trim_end_matches(inner2, '/'));
        let w = first_ws_at(inner, 0);
        let name = ascii_lower(trim(inner.subrange(0, w)));
        let rest = if w < inner.len() {
            after(inner, w + 1)
        } else {
            Seq::empty()
        };
        if !tag_name_ok(name) {
            None
        } else {
            Some(
                TagModel {
                    name,
                    closing,
                    self_closing,
                    style: if closing {
                        plain_style()
                    } else {
                        attrs_style(rest)
                    },
                },
            )
        }
    }
}

pub open spec fn tag_view(r: Option<ParsedHtmlTag>) -> Option<TagModel> {
    match r {
        Some(p) => Some(p.model()),
        None => None,
    }
}

proof fn lemma_first_ws(s: Seq<char>, i: int)
    requires
        0 <= i <= s.len(),
    ensures
        i <= first_ws_at(s, i) <= s.len(),
    decreases s.len() - i,
{
    if i < s.len() {
        lemma_first_ws(s, i + 1);
    }
}

fn all_alnum(v: &Vec<char>) -> (b: bool)
    ensures
        b == (forall|i: int| 0 <= i < v@.len() ==> ascii_alnum(#[trigger] v@[i])),
{
    let m = v.len();
    let mut q: usize = 0;
    while q < m
        invariant
            m == v@.len(),
            q <= m,
            forall|k: int| 0 <= k < q ==> ascii_alnum(#[trigger] v@[k]),
        decreases m - q,
    {
        let c = v[q];
        if !(('0' <= c && c <= '9') || ('a' <= c && c <= 'z') || ('A' <= c && c <= 'Z')) {
            assert(!ascii_alnum(v@[q as int]));
            return false;
        }
        q += 1;
    }
    true
}

/// Parses an inline HTML tag like `<span style="color: red">` or `</sup>`.
pub fn parse_inline_html_tag(html: &str) -> (r: Option<ParsedHtmlTag>)
    ensures
        tag_view(r) == parse_tag(html@),
{
    let h = str_to_chars(html);
    let t = trim_chars(h.as_slice());
    let lt = lit(vec!['<']);
    let lts = lit(vec!['<', '/']);
    let gt = lit(vec!['/']);
    assert(lt@ =~= seq!['<']);
    assert(lts@ =~= seq!['<', '/']);
    assert(gt@ =~= seq!['/']);
    if !starts_with_chars(t.as_slice(), lt.as_slice()) {
        return None;
    }
    let closing = starts_with_chars(t.as_slice(), lts.as_slice());
    let tn = t.len();
    let inner0 = if closing {
        slice_to_vec(t.as_slice(), 2, tn)
    } else {
        slice_to_vec(t.as_slice(), 1, tn)
    };
    let inner1 = match find_char(inner0.as_slice(), '>') {
        Some(k) => {
            proof {
                lemma_find_bounds(inner0@, seq!['>']);
            }
            slice_to_vec(inner0.as_slice(), 0, k)
        },
        None => inner0,
    };
    let inner2 = trim_chars(inner1.as_slice());
    let self_closing = ends_with_chars(inner2.as_slice(), gt.as_slice());
    let inner3 = trim_end_matches_chars(inner2.as_slice(), '/');
    let inner = trim_chars(inner3.as_slice());
    let n = inner.len();
    let mut w: usize = 0;
    while w < n && !is_ws_char(inner[w])
        invariant
            n == inner@.len(),
            w <= n,
            first_ws_at(inner@, 0) == first_ws_at(inner@, w as int),
        decreases n - w,
    {
        w += 1;
    }
    let head = slice_to_vec(inner.as_slice(), 0, w);
    let head_t = trim_chars(head.as_slice());
    let name = ascii_lower_chars(head_t.as_slice());
    let rest = if w < n {
        slice_to_vec(inner.as_slice(), w + 1, n)
    } else {
        Vec::new()
    };
    assert(rest@ =~= (if w < n {
        after(inner@, w + 1)
    } else {
        Seq::empty()
    }));
    let m = name.len();
    if m == 0 {
        return None;
    }
    if !all_alnum(&name) {
        return None;
    }
    if '0' <= name[0] && name[0] <= '9' {
        return None;
    }
    let style = if closing {
        InlineHtmlStyle::plain()
    } else {
        let rs = chars_to_string(rest.as_slice());
        parse_inline_html_attrs(rs.as_str())
    };
    Some(ParsedHtmlTag { name: chars_to_string(name.as_slice()), closing, self_closing, style })
}

// ----- what an inline tag does -----

/// The tags that open a style scope.
#[derive(Debug, Clone, Copy, PartialEq, Eq, Structural)]
pub enum StyleTag {
    Sup,
    Sub,
    Underline,
    Mark,
    Span,
}

/// What the renderer does for an inline HTML tag. For an opened style the
/// renderer adds what the tag means (a smaller, raised or lowered font for
/// `sup` and `sub`; the theme's highlight for a `mark` without background)
/// and opens the scope unless the style changes nothing.
#[derive(Debug, Clone)]
pub enum InlineHtmlAction {
    LineBreak,
    Strikethrough(bool),
    Emphasis(bool),
    Strong(bool),
    CloseStyle,
    OpenStyle(StyleTag, InlineHtmlStyle),
    Ignore,
}

pub enum ActionModel {
    LineBreak,
    Strikethrough(bool),
    Emphasis(bool),
    Strong(bool),
    CloseStyle,
    OpenStyle(StyleTag, StyleModel),
    Ignore,
}

impl InlineHtmlAction {
    pub open spec fn model(&self) -> ActionModel {
        match self {
            InlineHtmlAction::LineBreak => ActionModel::LineBreak,
            InlineHtmlAction::Strikethrough(b) => ActionModel::Strikethrough(*b),
            InlineHtmlAction::Emphasis(b) => ActionModel::Emphasis(*b),
            InlineHtmlAction::Strong(b) => ActionModel::Strong(*b),
            InlineHtmlAction::CloseStyle => ActionModel::CloseStyle,
            InlineHtmlAction::OpenStyle(k, st) => ActionModel::OpenStyle(*k, st.model()),
            InlineHtmlAction::Ignore => ActionModel::Ignore,
        }
    }
}

/// The action for inline HTML `html`: the plain formatting tags (`<br>`,
/// `<del>`/`<s>`, `<em>`/`<i>`, `<strong>`/`<b>` and their closing tags,
/// written exactly so up to case and surrounding whitespace) act directly;
/// otherwise a closing tag closes the innermost style scope, and `sup`,
/// `sub`, `u` (which underlines), `mark`, `span` and `font` open one. Unknown
/// and self-closing tags, and what is not a tag, are ignored, so their
/// content is still rendered.
pub open spec fn html_action(html: Seq<char>) -> ActionModel {
    let tag = ascii_lower(trim(html));
    if tag == seq!['<', 'b', 'r', '>'] || tag == seq!['<', 'b', 'r', '/', '>'] || tag == seq!['<', 'b', 'r', ' ', '/', '>'] {
        ActionModel::LineBreak
    } else if tag == seq!['<', 'd', 'e', 'l', '>'] || tag == seq!['<', 's', '>'] {
        ActionModel::Strikethrough(true)
    } else if tag == seq!['<', '/', 'd', 'e', 'l', '>'] || tag == seq!['<', '/', 's', '>'] {
        ActionModel::Strikethrough(false)
    } else if tag == seq!['<', 'e', 'm', '>'] || tag == seq!['<', 'i', '>'] {
        ActionModel::Emphasis(true)
    } else if tag == seq!['<', '/', 'e', 'm', '>'] || tag == seq!['<', '/', 'i', '>'] {
        ActionModel::Emphasis(false)
    } else if tag == seq!['<', 's', 't', 'r', 'o', 'n', 'g', '>'] || tag == seq!['<', 'b', '>'] {
        ActionModel::Strong(true)
    } else if tag == seq!['<', '/', 's', 't', 'r', 'o', 'n', 'g', '>'] || tag == seq!['<', '/', 'b', '>'] {
        ActionModel::Strong(false)
    } else {
        match parse_tag(html) {
            None => ActionModel::Ignore,
            Some(p) => if p.self_closing {
                ActionModel::Ignore
            } else if p.closing {
                ActionModel::CloseStyle
            } else if p.name == seq!['s', 'u', 'p'] {
                ActionModel::OpenStyle(StyleTag::Sup, p.style)
            } else if p.name == seq!['s', 'u', 'b'] {
                ActionModel::OpenStyle(StyleTag::Sub, p.style)
            } else if p.name == seq!['u'] {
                ActionModel::OpenStyle(StyleTag::Underline, StyleModel { underline: true, ..p.style })
            } else if p.name == seq!['m', 'a', 'r', 'k'] {
                ActionModel::OpenStyle(StyleTag::Mark, p.style)
            } else if p.name == seq!['s', 'p', 'a', 'n'] || p.name == seq!['f', 'o', 'n', 't'] {
                ActionModel::OpenStyle(StyleTag::Span, p.style)
            } else {
                ActionModel::Ignore
            },
        }
    }
}

fn is_lit(t: &Vec<char>, v: &Vec<char>) -> (b: bool)
    ensures
        b == (t@ == v@),
{
    eq_chars(t.as_slice(), v.as_slice())
}

/// What the renderer does for the inline HTML `html`.
pub fn inline_html_action(html: &str) -> (r: InlineHtmlAction)
    ensures
        r.model() == html_action(html@),
{
    let h = str_to_chars(html);
    let k0 = vec!['<', 'b', 'r', '>'];
    assert(k0@ =~= seq!['<', 'b', 'r', '>']);
    let k1 = vec!['<', 'b', 'r', '/', '>'];
    assert(k1@ =~= seq!['<', 'b', 'r', '/', '>']);
    let k2 = vec!['<', 'b', 'r', ' ', '/', '>'];
    assert(k2@ =~= seq!['<', 'b', 'r', ' ', '/', '>']);
    let k3 = vec!['<', 'd', 'e', 'l', '>'];
    assert(k3@ =~= seq!['<', 'd', 'e', 'l', '>']);
    let k4 = vec!['<', 's', '>'];
    assert(k4@ =~= seq!['<', 's', '>']);
    let k5 = vec!['<', '/', 'd', 'e', 'l', '>'];
    assert(k5@ =~= seq!['<', '/', 'd', 'e', 'l', '>']);
    let k6 = vec!['<', '/', 's', '>'];
    assert(k6@ =~= seq!['<', '/', 's', '>']);
    let k7 = vec!['<', 'e', 'm', '>'];
    assert(k7@ =~= seq!['<', 'e', 'm', '>']);
    let k8 = vec!['<', 'i', '>'];
    assert(k8@ =~= seq!['<', 'i', '>']);
    let k9 = vec!['<', '/', 'e', 'm', '>'];
    assert(k9@ =~= seq!['<', '/', 'e', 'm', '>']);
    let k10 = vec!['<', '/', 'i', '>'];
    assert(k10@ =~= seq!['<', '/', 'i', '>']);
    let k11 = vec!['<', 's', 't', 'r', 'o', 'n', 'g', '>'];
    assert(k11@ =~= seq!['<', 's', 't', 'r', 'o', 'n', 'g', '>']);
    let k12 = vec!['<', 'b', '>'];
    assert(k12@ =~= seq!['<', 'b', '>']);
    let k13 = vec!['<', '/', 's', 't', 'r', 'o', 'n', 'g', '>'];
    assert(k13@ =~= seq!['<', '/', 's', 't', 'r', 'o', 'n', 'g', '>']);
    let k14 = vec!['<', '/', 'b', '>'];
    assert(k14@ =~= seq!['<', '/', 'b', '>']);
    let k15 = vec!['s', 'u', 'p'];
    assert(k15@ =~= seq!['s', 'u', 'p']);
    let k16 = vec!['s', 'u', 'b'];
    assert(k16@ =~= seq!['s', 'u', 'b']);
    let k17 = vec!['u'];
    assert(k17@ =~= seq!['u']);
    let k18 = vec!['m', 'a', 'r', 'k'];
    assert(k18@ =~= seq!['m', 'a', 'r', 'k']);
    let k19 = vec!['s', 'p', 'a', 'n'];
    assert(k19@ =~= seq!['s', 'p', 'a', 'n']);
    let k20 = vec!['f', 'o', 'n', 't'];
    assert(k20@ =~= seq!['f', 'o', 'n', 't']);
    let t0 = trim_chars(h.as_slice());
    let tag = ascii_lower_chars(t0.as_slice());
    let ghost g = tag@;
    if is_lit(&tag, &k0) || is_lit(&tag, &k1) || is_lit(&tag, &k2) {
        return InlineHtmlAction::LineBreak;
    }
    if is_lit(&tag, &k3) || is_lit(&tag, &k4) {
        return InlineHtmlAction::Strikethrough(true);
    }
    if is_lit(&tag, &k5) || is_lit(&tag, &k6) {
        return InlineHtmlAction::Strikethrough(false);
    }
    if is_lit(&tag, &k7) || is_lit(&tag, &k8) {
        return InlineHtmlAction::Emphasis(true);
    }
    if is_lit(&tag, &k9) || is_lit(&tag, &k10) {
        return InlineHtmlAction::Emphasis(false);
    }
    if is_lit(&tag, &k11) || is_lit(&tag, &k12) {
        return InlineHtmlAction::Strong(true);
    }
    if is_lit(&tag, &k13) || is_lit(&tag, &k14) {
        return InlineHtmlAction::Strong(false);
    }
    let parsed = match parse_inline_html_tag(html) {
        Some(p) => p,
        None => {
            return InlineHtmlAction::Ignore;
        },
    };
    if parsed.self_closing {
        return InlineHtmlAction::Ignore;
    }
    if parsed.closing {
        return InlineHtmlAction::CloseStyle;
    }
    let name = string_chars(&parsed.name);
    let mut style = parsed.style;
    if is_lit(&name, &k15) {
        InlineHtmlAction::OpenStyle(StyleTag::Sup, style)
    } else if is_lit(&name, &k16) {
        InlineHtmlAction::OpenStyle(StyleTag::Sub, style)
    } else if is_lit(&name, &k17) {
        style.underline = true;
        InlineHtmlAction::OpenStyle(StyleTag::Underline, style)
    } else if is_lit(&name, &k18) {
        InlineHtmlAction::OpenStyle(StyleTag::Mark, style)
    } else if is_lit(&name, &k19) || is_lit(&name, &k20) {
        InlineHtmlAction::OpenStyle(StyleTag::Span, style)
    } else {
        InlineHtmlAction::Ignore
    }
}

// ----- laws -----

/// A colour holds no character that could end an attribute or open markup.
pub open spec fn markup_free(v: Seq<char>) -> bool {
    forall|i: int|
        0 <= i < v.len() ==> {
            let c = #[trigger] v[i];
            c != '<' && c != '>' && c != '"' && c != '\'' && c != '&' && c != ';' && c != ':'
        }
}

pub open spec fn style_markup_free(st: StyleModel) -> bool {
    &&& (st.color matches Some(c) ==> markup_free(c))
    &&& (st.background matches Some(b) ==> markup_free(b))
}

/// A sanitized colour is made only of letters, digits and `#,()%. `, so it
/// can never carry markup into the SVG.
pub proof fn sanitized_colors_are_markup_free(value: Seq<char>)
    ensures
        safe_color(value) matches Some(c) ==> (forall|i: int| 0 <= i < c.len() ==> color_char(#[trigger] c[i]))
            && markup_free(c),
{
    if let Some(c) = safe_color(value) {
        assert forall|i: int| 0 <= i < c.len() implies color_char(#[trigger] c[i]) by {
            assert(c == trim(value));
        }
    }
}

proof fn lemma_decl_safe(st: StyleModel, decl: Seq<char>)
    requires
        style_markup_free(st),
    ensures
        style_markup_free(apply_decl(st, decl)),
{
    match find(decl, seq![':']) {
        None => {},
        Some(k) => {
            let val = trim(after(decl, k + 1));
            sanitized_colors_are_markup_free(val);
        },
    }
}

proof fn lemma_decls_safe(st: StyleModel, decls: Seq<Seq<char>>)
    requires
        style_markup_free(st),
    ensures
        style_markup_free(apply_decls(st, decls)),
    decreases decls.len(),
{
    if decls.len() > 0 {
        lemma_decl_safe(st, decls[0]);
        lemma_decls_safe(apply_decl(st, decls[0]), decls.drop_first());
    }
}

proof fn lemma_attr_safe(st: StyleModel, name: Seq<char>, value: Seq<char>)
    requires
        style_markup_free(st),
    ensures
        style_markup_free(apply_attr(st, name, value)),
{
    let v = trim(value);
    sanitized_colors_are_markup_free(v);
    lemma_decls_safe(st, split_char(v, ';'));
}

proof fn lemma_scan_safe(s: Seq<char>, i: int, st: StyleModel)
    requires
        style_markup_free(st),
    ensures
        style_markup_free(scan_attrs(s, i, st)),
    decreases s.len() + 1 - i,
{
    if i >= 0 {
        let j = skip_ws_at(s, i);
        if j < s.len() && i <= s.len() {
            lemma_scan_bounds(s, i);
            lemma_attr_at(s, j);
            let a = attr_at(s, j);
            if a.0.len() > 0 {
                lemma_attr_safe(st, a.0, a.1);
                lemma_scan_safe(s, a.2, apply_attr(st, a.0, a.1));
            } else {
                lemma_scan_safe(s, a.2, st);
            }
        }
    }
}

/// Whatever a tag's attributes say, the colours of the style they give hold
/// no markup characters.
pub proof fn tag_styles_are_markup_free(html: Seq<char>)
    ensures
        parse_tag(html) matches Some(t) ==> style_markup_free(t.style),
        html_action(html) matches ActionModel::OpenStyle(_, st) ==> style_markup_free(st),
{
    let t = trim(html);
    if starts_with(t, seq!['<']) {
        let closing = starts_with(t, seq!['<', '/']);
        let inner0 = if closing {
            after(t, 2)
        } else {
            after(t, 1)
        };
        let inner1 = match find(inner0, seq!['>']) {
            Some(k) => inner0.subrange(0, k),
            None => inner0,
        };
        let inner = trim(trim_end_matches(trim(inner1), '/'));
        let w = first_ws_at(inner, 0);
        let rest = if w < inner.len() {
            after(inner, w + 1)
        } else {
            Seq::empty()
        };
        lemma_scan_safe(rest, 0, plain_style());
    }
}

/// A tag written `<` name `>` or `</` name `>` is its own trimmed form and
/// lowers to `<`, the lowered name and `>` (with the `/` in the closing one).
proof fn lemma_tag_forms(name: Seq<char>)
    ensures
        ascii_lower(trim(seq!['<'] + name + seq!['>'])) =~= seq!['<'] + ascii_lower(name) + seq!['>'],
        ascii_lower(trim(seq!['<', '/'] + name + seq!['>'])) =~= seq!['<', '/'] + ascii_lower(name) + seq!['>'],
{
    let o = seq!['<'] + name + seq!['>'];
    let c = seq!['<', '/'] + name + seq!['>'];
    assert(!is_ws(o[0]) && !is_ws(o.last()) && !is_ws(c[0]) && !is_ws(c.last()));
    assert(crate::text::trim_start(o) == o);
    assert(crate::text::trim_end(o) == o);
    assert(crate::text::trim_start(c) == c);
    assert(crate::text::trim_end(c) == c);
}

/// Two tags with the same start and `>` end are equal exactly when what lies
/// between is.
proof fn lemma_wrapped_eq(a: Seq<char>, w: Seq<char>, p: Seq<char>)
    ensures
        (p + a + seq!['>'] == p + w + seq!['>']) <==> a == w,
{
    let x = p + a + seq!['>'];
    let y = p + w + seq!['>'];
    if x == y {
        assert(x.len() == p.len() + a.len() + 1 && y.len() == p.len() + w.len() + 1);
        assert(a =~= x.subrange(p.len() as int, (p.len() + a.len()) as int));
        assert(w =~= y.subrange(p.len() as int, (p.len() + w.len()) as int));
    }
}

/// The opening form of each plain formatting tag does the opposite of its
/// closing form, for any tag name: where `</name>` ends emphasis, strong
/// text or strikethrough, `<name>` starts it, and the other way round. So
/// `<em>` and `<i>` start the emphasis that `</em>` and `</i>` end, `<strong>`
/// and `<b>` the strong text, `<del>` and `<s>` the strikethrough.
pub proof fn formatting_tags_open_what_they_close(name: Seq<char>)
    ensures
        html_action(seq!['<', '/'] + name + seq!['>']) == ActionModel::Emphasis(false) <==> html_action(
            seq!['<'] + name + seq!['>'],
        ) == ActionModel::Emphasis(true),
        html_action(seq!['<', '/'] + name + seq!['>']) == ActionModel::Strong(false) <==> html_action(
            seq!['<'] + name + seq!['>'],
        ) == ActionModel::Strong(true),
        html_action(seq!['<', '/'] + name + seq!['>']) == ActionModel::Strikethrough(false) <==> html_action(
            seq!['<'] + name + seq!['>'],
        ) == ActionModel::Strikethrough(true),
{
    lemma_tag_forms(name);
    let ln = ascii_lower(name);
    lemma_wrapped_eq(ln, seq!['b', 'r'], seq!['<']);
    lemma_wrapped_eq(ln, seq!['b', 'r'], seq!['<', '/']);
    lemma_wrapped_eq(ln, seq!['/', 'b', 'r'], seq!['<']);
    assert(seq!['<', 'b', 'r', '>'] =~= seq!['<'] + seq!['b', 'r'] + seq!['>']);
    assert(seq!['<', '/', 'b', 'r', '>'] =~= seq!['<', '/'] + seq!['b', 'r'] + seq!['>']);
    assert(seq!['<', '/', 'b', 'r', '>'] =~= seq!['<'] + seq!['/', 'b', 'r'] + seq!['>']);
    lemma_wrapped_eq(ln, seq!['b', 'r', '/'], seq!['<']);
    lemma_wrapped_eq(ln, seq!['b', 'r', '/'], seq!['<', '/']);
    lemma_wrapped_eq(ln, seq!['/', 'b', 'r', '/'], seq!['<']);
    assert(seq!['<', 'b', 'r', '/', '>'] =~= seq!['<'] + seq!['b', 'r', '/'] + seq!['>']);
    assert(seq!['<', '/', 'b', 'r', '/', '>'] =~= seq!['<', '/'] + seq!['b', 'r', '/'] + seq!['>']);
    assert(seq!['<', '/', 'b', 'r', '/', '>'] =~= seq!['<'] + seq!['/', 'b', 'r', '/'] + seq!['>']);
    lemma_wrapped_eq(ln, seq!['b', 'r', ' ', '/'], seq!['<']);
    lemma_wrapped_eq(ln, seq!['b', 'r', ' ', '/'], seq!['<', '/']);
    lemma_wrapped_eq(ln, seq!['/', 'b', 'r', ' ', '/'], seq!['<']);
    assert(seq!['<', 'b', 'r', ' ', '/', '>'] =~= seq!['<'] + seq!['b', 'r', ' ', '/'] + seq!['>']);
    assert(seq!['<', '/', 'b', 'r', ' ', '/', '>'] =~= seq!['<', '/'] + seq!['b', 'r', ' ', '/'] + seq!['>']);
    assert(seq!['<', '/', 'b', 'r', ' ', '/', '>'] =~= seq!['<'] + seq!['/', 'b', 'r', ' ', '/'] + seq!['>']);
    lemma_wrapped_eq(ln, seq!['d', 'e', 'l'], seq!['<']);
    lemma_wrapped_eq(ln, seq!['d', 'e', 'l'], seq!['<', '/']);
    lemma_wrapped_eq(ln, seq!['/', 'd', 'e', 'l'], seq!['<']);
    assert(seq!['<', 'd', 'e', 'l', '>'] =~= seq!['<'] + seq!['d', 'e', 'l'] + seq!['>']);
    assert(seq!['<', '/', 'd', 'e', 'l', '>'] =~= seq!['<', '/'] + seq!['d', 'e', 'l'] + seq!['>']);
    assert(seq!['<', '/', 'd', 'e', 'l', '>'] =~= seq!['<'] + seq!['/', 'd', 'e', 'l'] + seq!['>']);
    lemma_wrapped_eq(ln, seq!['s'], seq!['<']);
    lemma_wrapped_eq(ln, seq!['s'], seq!['<', '/']);
    lemma_wrapped_eq(ln, seq!['/', 's'], seq!['<']);
    assert(seq!['<', 's', '>'] =~= seq!['<'] + seq!['s'] + seq!['>']);
    assert(seq!['<', '/', 's', '>'] =~= seq!['<', '/'] + seq!['s'] + seq!['>']);
    assert(seq!['<', '/', 's', '>'] =~= seq!['<'] + seq!['/', 's'] + seq!['>']);
    lemma_wrapped_eq(ln, seq!['e', 'm'], seq!['<']);
    lemma_wrapped_eq(ln, seq!['e', 'm'], seq!['<', '/']);
    lemma_wrapped_eq(ln, seq!['/', 'e', 'm'], seq!['<']);
    assert(seq!['<', 'e', 'm', '>'] =~= seq!['<'] + seq!['e', 'm'] + seq!['>']);
    assert(seq!['<', '/', 'e', 'm', '>'] =~= seq!['<', '/'] + seq!['e', 'm'] + seq!['>']);
    assert(seq!['<', '/', 'e', 'm', '>'] =~= seq!['<'] + seq!['/', 'e', 'm'] + seq!['>']);
    lemma_wrapped_eq(ln, seq!['i'], seq!['<']);
    lemma_wrapped_eq(ln, seq!['i'], seq!['<', '/']);
    lemma_wrapped_eq(ln, seq!['/', 'i'], seq!['<']);
    assert(seq!['<', 'i', '>'] =~= seq!['<'] + seq!['i'] + seq!['>']);
    assert(seq!['<', '/', 'i', '>'] =~= seq!['<', '/'] + seq!['i'] + seq!['>']);
    assert(seq!['<', '/', 'i', '>'] =~= seq!['<'] + seq!['/', 'i'] + seq!['>']);
    lemma_wrapped_eq(ln, seq!['s', 't', 'r', 'o', 'n', 'g'], seq!['<']);
    lemma_wrapped_eq(ln, seq!['s', 't', 'r', 'o', 'n', 'g'], seq!['<', '/']);
    lemma_wrapped_eq(ln, seq!['/', 's', 't', 'r', 'o', 'n', 'g'], seq!['<']);
    assert(seq!['<', 's', 't', 'r', 'o', 'n', 'g', '>'] =~= seq!['<'] + seq!['s', 't', 'r', 'o', 'n', 'g'] + seq!['>']);
    assert(seq!['<', '/', 's', 't', 'r', 'o', 'n', 'g', '>'] =~= seq!['<', '/'] + seq!['s', 't', 'r', 'o', 'n', 'g'] + seq!['>']);
    assert(seq!['<', '/', 's', 't', 'r', 'o', 'n', 'g', '>'] =~= seq!['<'] + seq!['/', 's', 't', 'r', 'o', 'n', 'g'] + seq!['>']);
    lemma_wrapped_eq(ln, seq!['b'], seq!['<']);
    lemma_wrapped_eq(ln, seq!['b'], seq!['<', '/']);
    lemma_wrapped_eq(ln, seq!['/', 'b'], seq!['<']);
    assert(seq!['<', 'b', '>'] =~= seq!['<'] + seq!['b'] + seq!['>']);
    assert(seq!['<', '/', 'b', '>'] =~= seq!['<', '/'] + seq!['b'] + seq!['>']);
    assert(seq!['<', '/', 'b', '>'] =~= seq!['<'] + seq!['/', 'b'] + seq!['>']);
    assert(seq!['e', 'm'][0] != seq!['b', 'r'][0]);
    assert(seq!['s'][0] != seq!['i'][0]);
    assert(seq!['s'][0] != seq!['b'][0]);
    assert(seq!['i'][0] != seq!['b'][0]);
}

} // verus!
