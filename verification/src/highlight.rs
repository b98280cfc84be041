//! Syntax highlighting of code blocks with syntect: the spans of each line,
//! with their colours and font style. Placing them on the page is the
//! caller's work.
use vstd::prelude::*;
use crate::text::{chars_to_string, split_lines, str_to_chars};
use syntect::easy::HighlightLines;
use syntect::highlighting::{FontStyle, Theme, ThemeSet};
use syntect::parsing::{SyntaxReference, SyntaxSet};

verus! {

#[verifier::external_type_specification]
#[verifier::external_body]
pub struct ExSyntaxSet(syntect::parsing::SyntaxSet);

#[verifier::external_type_specification]
#[verifier::external_body]
pub struct ExThemeSet(syntect::highlighting::ThemeSet);

#[verifier::external_type_specification]
#[verifier::external_body]
pub struct ExSyntaxReference(syntect::parsing::SyntaxReference);

#[verifier::external_type_specification]
#[verifier::external_body]
pub struct ExTheme(syntect::highlighting::Theme);

#[verifier::external_type_specification]
#[verifier::external_body]
pub struct ExHighlightLines<'a>(syntect::easy::HighlightLines<'a>);

/// A colour with its alpha channel.
#[derive(Debug, Clone, Copy, PartialEq, Eq)]
pub struct Rgba {
    pub r: u8,
    pub g: u8,
    pub b: u8,
    pub a: u8,
}

/// A run of code text drawn in one style.
#[derive(Debug, Clone, PartialEq, Eq)]
pub struct StyledSpan {
    pub foreground: Rgba,
    pub background: Rgba,
    pub bold: bool,
    pub italic: bool,
    pub underline: bool,
    pub text: String,
}

/// A span with its text as a `Seq<char>`.
pub struct SpanModel {
    pub foreground: Rgba,
    pub background: Rgba,
    pub bold: bool,
    pub italic: bool,
    pub underline: bool,
    pub text: Seq<char>,
}

impl View for StyledSpan {
    type V = SpanModel;

    open spec fn view(&self) -> SpanModel {
        SpanModel {
            foreground: self.foreground,
            background: self.background,
            bold: self.bold,
            italic: self.italic,
            underline: self.underline,
            text: self.text@,
        }
    }
}

pub open spec fn spans_view(v: Seq<StyledSpan>) -> Seq<SpanModel> {
    v.map_values(|s: StyledSpan| s@)
}

/// syntect's default syntaxes (with newlines) and themes. Made only by
/// `load_highlighting`.
pub struct Highlighting {
    syntaxes: SyntaxSet,
    themes: ThemeSet,
}

/// Where a block's syntax was found: by its language as a token, by its
/// language as a file extension, or nowhere (plain text).
#[derive(Debug, Clone, Copy, PartialEq, Eq, Structural)]
pub enum SyntaxSource {
    Token,
    Extension,
    PlainText,
}

/// A syntax of the default set, with the lookup that found it. Made only by
/// `syntax_by_token`, `syntax_by_extension` and `plain_text_syntax`.
struct FoundSyntax<'a> {
    syntax: &'a SyntaxReference,
    source: Ghost<SyntaxSource>,
    lang: Ghost<Seq<char>>,
}

/// A default theme, with its name (`None`: the first theme of the set).
/// Made only by `theme_by_name` and `first_theme`.
struct FoundTheme<'a> {
    theme: &'a Theme,
    name: Ghost<Option<Seq<char>>>,
}

/// A highlighter for one code block, with the syntax and theme it was made
/// with and the lines it has highlighted. Made only by `start_highlighter`
/// and advanced only by `highlight_next`.
struct CodeHighlighter<'a> {
    lines: HighlightLines<'a>,
    syntaxes: &'a SyntaxSet,
    source: Ghost<SyntaxSource>,
    lang: Ghost<Seq<char>>,
    theme: Ghost<Option<Seq<char>>>,
    seen: Ghost<Seq<Seq<char>>>,
}

/// Whether syntect's default syntaxes have one whose token is `lang`
/// (`SyntaxSet::find_syntax_by_token`).
pub uninterp spec fn syntax_token_known(lang: Seq<char>) -> bool;

/// Whether syntect's default syntaxes have one for the file extension `ext`
/// (`SyntaxSet::find_syntax_by_extension`).
pub uninterp spec fn syntax_extension_known(ext: Seq<char>) -> bool;

/// Whether syntect's default themes have one named `name`.
pub uninterp spec fn theme_known(name: Seq<char>) -> bool;

/// The spans syntect gives `line` of a code block, after the lines `before`,
/// with the default syntax found for `lang` by the lookup `source` (for
/// plain text, `lang` is empty) and the default theme named `theme` (`None`:
/// the first default theme); or its error's message. It depends on these
/// values alone.
pub uninterp spec fn highlight_spans(
    source: SyntaxSource,
    lang: Seq<char>,
    theme: Option<Seq<char>>,
    before: Seq<Seq<char>>,
    line: Seq<char>,
) -> Result<Seq<SpanModel>, Seq<char>>;

/// `SyntaxSet::load_defaults_newlines` and `ThemeSet::load_defaults`.
#[verifier::external_body]
pub fn load_highlighting() -> Highlighting {
    Highlighting { syntaxes: SyntaxSet::load_defaults_newlines(), themes: ThemeSet::load_defaults() }
}

/// `SyntaxSet::find_syntax_by_token`: a syntax exactly when one is known by
/// that token.
#[verifier::external_body]
fn syntax_by_token<'a>(h: &'a Highlighting, lang: &str) -> (r: Option<FoundSyntax<'a>>)
    ensures
        r is Some <==> syntax_token_known(lang@),
        r matches Some(f) ==> f.source@ == SyntaxSource::Token && f.lang@ == lang@,
{
    match h.syntaxes.find_syntax_by_token(lang) {
        Some(syntax) => Some(FoundSyntax { syntax, source: Ghost(SyntaxSource::Token), lang: Ghost(lang@) }),
        None => None,
    }
}

/// `SyntaxSet::find_syntax_by_extension`: a syntax exactly when one is known
/// for that extension.
#[verifier::external_body]
fn syntax_by_extension<'a>(h: &'a Highlighting, lang: &str) -> (r: Option<FoundSyntax<'a>>)
    ensures
        r is Some <==> syntax_extension_known(lang@),
        r matches Some(f) ==> f.source@ == SyntaxSource::Extension && f.lang@ == lang@,
{
    match h.syntaxes.find_syntax_by_extension(lang) {
        Some(syntax) => Some(FoundSyntax { syntax, source: Ghost(SyntaxSource::Extension), lang: Ghost(lang@) }),
        None => None,
    }
}

/// `SyntaxSet::find_syntax_plain_text`.
#[verifier::external_body]
fn plain_text_syntax<'a>(h: &'a Highlighting) -> (r: FoundSyntax<'a>)
    ensures
        r.source@ == SyntaxSource::PlainText,
        r.lang@ == Seq::<char>::empty(),
{
    FoundSyntax { syntax: h.syntaxes.find_syntax_plain_text(), source: Ghost(SyntaxSource::PlainText), lang: Ghost(Seq::empty()) }
}

/// The default theme named `name`, exactly when one is.
#[verifier::external_body]
fn theme_by_name<'a>(h: &'a Highlighting, name: &str) -> (r: Option<FoundTheme<'a>>)
    ensures
        r is Some <==> theme_known(name@),
        r matches Some(f) ==> f.name@ == Some(name@),
{
    match h.themes.themes.get(name) {
        Some(theme) => Some(FoundTheme { theme, name: Ghost(Some(name@)) }),
        None => None,
    }
}

/// The first default theme (by name order). `Highlighting` is made only by
/// `load_highlighting`, and `ThemeSet::load_defaults` documents a non-empty
/// list of themes, so there is one.
#[verifier::external_body]
fn first_theme<'a>(h: &'a Highlighting) -> (r: FoundTheme<'a>)
    ensures
        r.name@ == None::<Seq<char>>,
{
    FoundTheme { theme: h.themes.themes.values().next().unwrap(), name: Ghost(None) }
}

/// `HighlightLines::new` with the syntax and theme found: a highlighter at
/// the start of a block.
#[verifier::external_body]
fn start_highlighter<'a>(h: &'a Highlighting, syntax: FoundSyntax<'a>, theme: FoundTheme<'a>) -> (r: CodeHighlighter<'a>)
    ensures
        r.source == syntax.source,
        r.lang == syntax.lang,
        r.theme == theme.name,
        r.seen@ == Seq::<Seq<char>>::empty(),
{
    let lines = HighlightLines::new(syntax.syntax, theme.theme);
    CodeHighlighter { lines, syntaxes: &h.syntaxes, source: syntax.source, lang: syntax.lang, theme: theme.name, seen: Ghost(Seq::empty()) }
}

/// `HighlightLines::highlight_line` on the next line of the block: its
/// spans, each style's colours and bold, italic and underline flags with
/// its text, or the error's message (`Display`).
#[verifier::external_body]
fn highlight_next(hl: &mut CodeHighlighter, line: &str) -> (r: Result<Vec<StyledSpan>, String>)
    ensures
        match r {
            Ok(v) => highlight_spans(old(hl).source@, old(hl).lang@, old(hl).theme@, old(hl).seen@, line@) == Ok::<
                Seq<SpanModel>,
                Seq<char>,
            >(spans_view(v@)),
            Err(e) => highlight_spans(old(hl).source@, old(hl).lang@, old(hl).theme@, old(hl).seen@, line@) == Err::<
                Seq<SpanModel>,
                Seq<char>,
            >(e@),
        },
        final(hl).source == old(hl).source,
        final(hl).lang == old(hl).lang,
        final(hl).theme == old(hl).theme,
        final(hl).seen@ == old(hl).seen@.push(line@),
{
    let c = |c: syntect::highlighting::Color| Rgba { r: c.r, g: c.g, b: c.b, a: c.a };
    let spans = hl.lines.highlight_line(line, hl.syntaxes).map_err(|e| e.to_string())?;
    Ok(spans.iter().map(|(s, t)| StyledSpan {
        foreground: c(s.foreground),
        background: c(s.background),
        bold: s.font_style.contains(FontStyle::BOLD),
        italic: s.font_style.contains(FontStyle::ITALIC),
        underline: s.font_style.contains(FontStyle::UNDERLINE),
        text: t.to_string(),
    }).collect())
}

pub open spec fn highlight_error_prefix() -> Seq<char> {
    "Highlight error: "@
}

/// The spans of the lines `ls[k..]` of a block whose lines `ls[..k]` are
/// highlighted already, or the first error with its message prefixed.
pub open spec fn highlight_from(
    source: SyntaxSource,
    lang: Seq<char>,
    theme: Option<Seq<char>>,
    ls: Seq<Seq<char>>,
    k: nat,
) -> Result<
    Seq<Seq<SpanModel>>,
    Seq<char>,
>
    decreases ls.len() - k,
{
    if k >= ls.len() {
        Ok(Seq::empty())
    } else {
        match highlight_spans(source, lang, theme, ls.take(k as int), ls[k as int]) {
            Err(e) => Err(highlight_error_prefix() + e),
            Ok(spans) => match highlight_from(source, lang, theme, ls, k + 1) {
                Ok(rest) => Ok(seq![spans] + rest),
                Err(e) => Err(e),
            },
        }
    }
}

/// The language a block is highlighted as: its own, or `txt`.
pub open spec fn block_lang(lang: Option<Seq<char>>) -> Seq<char> {
    match lang {
        Some(l) => l,
        None => "txt"@,
    }
}

/// The theme a code block is drawn with on a dark or light background.
pub open spec fn code_theme(dark: bool) -> Seq<char> {
    if dark {
        "Solarized (dark)"@
    } else {
        "Solarized (light)"@
    }
}

/// The theme taken where `code_theme` is missing.
pub open spec fn fallback_theme(dark: bool) -> Seq<char> {
    if dark {
        "base16-ocean.dark"@
    } else {
        "base16-ocean.light"@
    }
}

/// The syntax a block in language `lang` is highlighted with: the one known
/// by that token, else the one for that extension, else plain text.
pub open spec fn syntax_choice(lang: Seq<char>) -> (SyntaxSource, Seq<char>) {
    if syntax_token_known(lang) {
        (SyntaxSource::Token, lang)
    } else if syntax_extension_known(lang) {
        (SyntaxSource::Extension, lang)
    } else {
        (SyntaxSource::PlainText, Seq::empty())
    }
}

/// The theme of a dark or light code block: `code_theme` if known, else
/// `fallback_theme` if known, else (`None`) the first default theme.
pub open spec fn theme_choice(dark: bool) -> Option<Seq<char>> {
    if theme_known(code_theme(dark)) {
        Some(code_theme(dark))
    } else if theme_known(fallback_theme(dark)) {
        Some(fallback_theme(dark))
    } else {
        None
    }
}

/// The highlighted lines of a code block (its lines as `str::lines` splits
/// them), in language `lang` (`txt` when none) with the dark or light theme;
/// or "Highlight error: " and the message of the first line syntect fails
/// on.
pub open spec fn highlighted(code: Seq<char>, lang: Option<Seq<char>>, dark: bool) -> Result<
    Seq<Seq<SpanModel>>,
    Seq<char>,
> {
    let (source, name) = syntax_choice(block_lang(lang));
    highlight_from(source, name, theme_choice(dark), crate::text::lines(code), 0)
}

/// Finds the syntax for `lang` as `syntax_choice` says.
fn pick_syntax<'a>(h: &'a Highlighting, lang: &str) -> (r: FoundSyntax<'a>)
    ensures
        (r.source@, r.lang@) == syntax_choice(lang@),
{
    match syntax_by_token(h, lang) {
        Some(f) => f,
        None => match syntax_by_extension(h, lang) {
            Some(f) => f,
            None => plain_text_syntax(h),
        },
    }
}

/// Finds the theme of a dark or light block as `theme_choice` says.
fn pick_theme<'a>(h: &'a Highlighting, dark: bool) -> (r: FoundTheme<'a>)
    ensures
        r.name@ == theme_choice(dark),
{
    let (theme, fallback) = if dark {
        ("Solarized (dark)", "base16-ocean.dark")
    } else {
        ("Solarized (light)", "base16-ocean.light")
    };
    assert(theme@ == code_theme(dark) && fallback@ == fallback_theme(dark));
    match theme_by_name(h, theme) {
        Some(f) => f,
        None => match theme_by_name(h, fallback) {
            Some(f) => f,
            None => first_theme(h),
        },
    }
}

pub open spec fn blocks_view(r: Result<Vec<Vec<StyledSpan>>, String>) -> Result<Seq<Seq<SpanModel>>, Seq<char>> {
    match r {
        Ok(v) => Ok(v@.map_values(|l: Vec<StyledSpan>| spans_view(l@))),
        Err(e) => Err(e@),
    }
}

/// Highlights a code block line by line.
pub fn code_block_spans(h: &Highlighting, code: &str, lang: Option<&str>, dark: bool) -> (r: Result<
    Vec<Vec<StyledSpan>>,
    String,
>)
    ensures
        blocks_view(r) == highlighted(
            code@,
            match lang {
                Some(l) => Some(l@),
                None => None,
            },
            dark,
        ),
{
    let txt = "txt";
    let l = match lang {
        Some(l) => l,
        None => txt,
    };
    let ghost lang_seq = block_lang(match lang {
        Some(l) => Some(l@),
        None => None,
    });
    assert(l@ == lang_seq);
    let chars = str_to_chars(code);
    let ls = split_lines(chars.as_slice());
    let ghost lv = ls@.map_values(|x: Vec<char>| x@);
    assert(lv == crate::text::lines(code@));
    let syn = pick_syntax(h, l);
    let ghost src = syn.source@;
    let ghost name = syn.lang@;
    let found = pick_theme(h, dark);
    let ghost th = found.name@;
    let mut hl = start_highlighter(h, syn, found);
    let mut out: Vec<Vec<StyledSpan>> = Vec::new();
    let mut i: usize = 0;
    assert(lv.take(0) =~= Seq::<Seq<char>>::empty());
    assert(out@.map_values(|x: Vec<StyledSpan>| spans_view(x@)) =~= Seq::<Seq<SpanModel>>::empty());
    proof {
        match highlight_from(src, name, th, lv, 0) {
            Ok(rest) => {
                assert(Seq::<Seq<SpanModel>>::empty() + rest =~= rest);
            },
            Err(e) => {},
        }
    }
    while i < ls.len()
        invariant
            i <= ls@.len(),
            lv == ls@.map_values(|x: Vec<char>| x@),
            lv == crate::text::lines(code@),
            lang_seq == block_lang(
                match lang {
                    Some(l) => Some(l@),
                    None => None,
                },
            ),
            lv.len() == ls@.len(),
            hl.source@ == src,
            hl.lang@ == name,
            hl.theme@ == th,
            (src, name) == syntax_choice(lang_seq),
            th == theme_choice(dark),
            hl.seen@ == lv.take(i as int),
            out@.len() == i,
            highlight_from(src, name, th, lv, 0) == match highlight_from(src, name, th, lv, i as nat) {
                Ok(rest) => Ok(out@.map_values(|x: Vec<StyledSpan>| spans_view(x@)) + rest),
                Err(e) => Err::<Seq<Seq<SpanModel>>, Seq<char>>(e),
            },
        decreases ls@.len() - i,
    {
        let line = chars_to_string(ls[i].as_slice());
        assert(line@ == lv[i as int]);
        let ghost before = out@.map_values(|x: Vec<StyledSpan>| spans_view(x@));
        let ghost seen0 = hl.seen@;
        match highlight_next(&mut hl, line.as_str()) {
            Ok(spans) => {
                out.push(spans);
                assert(lv.take(i + 1) =~= lv.take(i as int).push(lv[i as int]));
                assert(out@.map_values(|x: Vec<StyledSpan>| spans_view(x@)) =~= before.push(spans_view(spans@)));
                proof {
                    match highlight_from(src, name, th, lv, (i + 1) as nat) {
                        Ok(rest) => {
                            assert(before + (seq![spans_view(spans@)] + rest) =~= before.push(spans_view(spans@)) + rest);
                        },
                        Err(e) => {},
                    }
                }
            },
            Err(e) => {
                let mut msg = str_to_chars("Highlight error: ");
                let mut ec = str_to_chars(e.as_str());
                msg.append(&mut ec);
                assert(seen0 == lv.take(i as int));
                assert(highlight_from(src, name, th, lv, i as nat) == Err::<Seq<Seq<SpanModel>>, Seq<char>>(
                    highlight_error_prefix() + e@,
                ));
                assert(msg@ == highlight_error_prefix() + e@);
                assert(highlight_from(src, name, th, lv, 0) == Err::<Seq<Seq<SpanModel>>, Seq<char>>(msg@));
                let r = chars_to_string(msg.as_slice());
                assert(blocks_view(Err(r)) == Err::<Seq<Seq<SpanModel>>, Seq<char>>(msg@));
                return Err(r);
            },
        }
        i += 1;
    }
    assert(out@.map_values(|x: Vec<StyledSpan>| spans_view(x@)) + Seq::<Seq<SpanModel>>::empty() =~= out@.map_values(
        |x: Vec<StyledSpan>| spans_view(x@),
    ));
    Ok(out)
}

} // verus!
