//! Which file format an output path asks for.
use vstd::prelude::*;
use crate::text::{ascii_lower, ascii_lower_chars, chars_to_string, contains, contains_chars, eq_chars, str_to_chars, string_chars};

verus! {

/// The formats a rendering can be saved in.
#[derive(Debug, Clone, Copy, PartialEq, Eq, Structural)]
pub enum OutputFormat {
    Svg,
    Png,
    Pdf,
}

pub open spec fn no_extension_error() -> Seq<char> {
    seq!['O', 'u', 't', 'p', 'u', 't', ' ', 'f', 'i', 'l', 'e', ' ', 'h', 'a', 's', ' ', 'n', 'o', ' ', 'e', 'x', 't', 'e', 'n', 's', 'i', 'o', 'n']
}

pub open spec fn unsupported_error(ext: Seq<char>) -> Seq<char> {
    seq!['U', 'n', 's', 'u', 'p', 'p', 'o', 'r', 't', 'e', 'd', ' ', 'o', 'u', 't', 'p', 'u', 't', ' ', 'f', 'o', 'r', 'm', 'a', 't', ':', ' ', '.']
        + ext + seq![' ', '(', 'u', 's', 'e', ' ', '.', 's', 'v', 'g', ',', ' ', '.', 'p', 'n', 'g', ' ', 'o', 'r', ' ', '.', 'p', 'd', 'f', ')']
}

/// The format for an output file extension (in any ASCII case): `svg`,
/// `png` or `pdf`; an error for another extension or none.
pub open spec fn format_of(ext: Option<Seq<char>>) -> Result<OutputFormat, Seq<char>> {
    match ext {
        None => Err(no_extension_error()),
        Some(e) => {
            let l = ascii_lower(e);
            if l == seq!['s', 'v', 'g'] {
                Ok(OutputFormat::Svg)
            } else if l == seq!['p', 'n', 'g'] {
                Ok(OutputFormat::Png)
            } else if l == seq!['p', 'd', 'f'] {
                Ok(OutputFormat::Pdf)
            } else {
                Err(unsupported_error(l))
            }
        },
    }
}

pub open spec fn format_view(r: Result<OutputFormat, String>) -> Result<OutputFormat, Seq<char>> {
    match r {
        Ok(f) => Ok(f),
        Err(e) => Err(e@),
    }
}

/// The output format an extension selects.
pub fn output_format(ext: Option<&str>) -> (r: Result<OutputFormat, String>)
    ensures
        format_view(r) == format_of(match ext {
            Some(e) => Some(e@),
            None => None,
        }),
{
    let e = match ext {
        Some(e) => e,
        None => {
            let m = vec!['O', 'u', 't', 'p', 'u', 't', ' ', 'f', 'i', 'l', 'e', ' ', 'h', 'a', 's', ' ', 'n', 'o', ' ', 'e', 'x', 't', 'e', 'n', 's', 'i', 'o', 'n'];
            assert(m@ =~= no_extension_error());
            return Err(chars_to_string(m.as_slice()));
        },
    };
    let c = str_to_chars(e);
    let l = ascii_lower_chars(c.as_slice());
    let svg = vec!['s', 'v', 'g'];
    let png = vec!['p', 'n', 'g'];
    let pdf = vec!['p', 'd', 'f'];
    assert(svg@ =~= seq!['s', 'v', 'g']);
    assert(png@ =~= seq!['p', 'n', 'g']);
    assert(pdf@ =~= seq!['p', 'd', 'f']);
    if eq_chars(l.as_slice(), svg.as_slice()) {
        Ok(OutputFormat::Svg)
    } else if eq_chars(l.as_slice(), png.as_slice()) {
        Ok(OutputFormat::Png)
    } else if eq_chars(l.as_slice(), pdf.as_slice()) {
        Ok(OutputFormat::Pdf)
    } else {
        let mut m = vec!['U', 'n', 's', 'u', 'p', 'p', 'o', 'r', 't', 'e', 'd', ' ', 'o', 'u', 't', 'p', 'u', 't', ' ', 'f', 'o', 'r', 'm', 'a', 't', ':', ' ', '.'];
        let ghost m0 = m@;
        let mut lc = l;
        m.append(&mut lc);
        let mut tail = vec![' ', '(', 'u', 's', 'e', ' ', '.', 's', 'v', 'g', ',', ' ', '.', 'p', 'n', 'g', ' ', 'o', 'r', ' ', '.', 'p', 'd', 'f', ')'];
        let ghost t0 = tail@;
        m.append(&mut tail);
        proof {
            assert(m0 =~= seq!['U', 'n', 's', 'u', 'p', 'p', 'o', 'r', 't', 'e', 'd', ' ', 'o', 'u', 't', 'p', 'u', 't', ' ', 'f', 'o', 'r', 'm', 'a', 't', ':', ' ', '.']);
            assert(t0 =~= seq![' ', '(', 'u', 's', 'e', ' ', '.', 's', 'v', 'g', ',', ' ', '.', 'p', 'n', 'g', ' ', 'o', 'r', ' ', '.', 'p', 'd', 'f', ')']);
            assert(m@ =~= unsupported_error(ascii_lower(e@)));
        }
        Err(chars_to_string(m.as_slice()))
    }
}

// ----- font fallbacks -----

/// The font families the renderer falls back to for generic sans-serif,
/// serif and monospace text.
#[derive(Debug, Clone, PartialEq, Eq)]
pub struct FontFallbacks {
    pub sans: Option<String>,
    pub serif: Option<String>,
    pub mono: Option<String>,
}

pub open spec fn kw_sans() -> Seq<char> {
    seq!['s', 'a', 'n', 's']
}

pub open spec fn kw_serif() -> Seq<char> {
    seq!['s', 'e', 'r', 'i', 'f']
}

pub open spec fn kw_mono() -> Seq<char> {
    seq!['m', 'o', 'n', 'o']
}

pub open spec fn kw_code() -> Seq<char> {
    seq!['c', 'o', 'd', 'e']
}

/// Which kind a family name suggests: 0 sans, 1 serif, 2 monospace (by the
/// words `sans`, `serif`, `mono` or `code` in its lower-case name).
pub open spec fn family_is(name: Seq<char>, kind: int) -> bool {
    let l = ascii_lower(name);
    if kind == 0 {
        contains(l, kw_sans())
    } else if kind == 1 {
        contains(l, kw_serif())
    } else {
        contains(l, kw_mono()) || contains(l, kw_code())
    }
}

/// The first of `fams` from `i` on of the given kind.
pub open spec fn first_of_kind(fams: Seq<String>, kind: int, i: int) -> Option<Seq<char>>
    decreases fams.len() - i,
{
    if i < 0 || i >= fams.len() {
        None
    } else if family_is(fams[i]@, kind) {
        Some(fams[i]@)
    } else {
        first_of_kind(fams, kind, i + 1)
    }
}

pub open spec fn or_else(a: Option<Seq<char>>, b: Option<Seq<char>>) -> Option<Seq<char>> {
    if a is Some {
        a
    } else {
        b
    }
}

pub open spec fn first_family(fams: Seq<String>) -> Option<Seq<char>> {
    if fams.len() > 0 {
        Some(fams[0]@)
    } else {
        None
    }
}

pub open spec fn opt_s(o: Option<String>) -> Option<Seq<char>> {
    match o {
        Some(s) => Some(s@),
        None => None,
    }
}

fn family_is_exec(name: &String, kind: u8) -> (b: bool)
    ensures
        b == family_is(name@, kind as int),
{
    let c = string_chars(name);
    let l = ascii_lower_chars(c.as_slice());
    let sans = vec!['s', 'a', 'n', 's'];
    let serif = vec!['s', 'e', 'r', 'i', 'f'];
    let mono = vec!['m', 'o', 'n', 'o'];
    let code = vec!['c', 'o', 'd', 'e'];
    assert(sans@ =~= kw_sans());
    assert(serif@ =~= kw_serif());
    assert(mono@ =~= kw_mono());
    assert(code@ =~= kw_code());
    if kind == 0 {
        contains_chars(l.as_slice(), sans.as_slice())
    } else if kind == 1 {
        contains_chars(l.as_slice(), serif.as_slice())
    } else {
        contains_chars(l.as_slice(), mono.as_slice()) || contains_chars(l.as_slice(), code.as_slice())
    }
}

fn first_of_kind_exec(fams: &[String], kind: u8) -> (r: Option<String>)
    ensures
        opt_s(r) == first_of_kind(fams@, kind as int, 0),
{
    let mut i: usize = 0;
    while i < fams.len()
        invariant
            i <= fams@.len(),
            first_of_kind(fams@, kind as int, 0) == first_of_kind(fams@, kind as int, i as int),
        decreases fams@.len() - i,
    {
        if family_is_exec(&fams[i], kind) {
            return Some(fams[i].clone());
        }
        i += 1;
    }
    None
}

/// The fallback families among the installed ones, in the order the font
/// database lists them: the first whose name mentions `sans` for sans-serif,
/// `serif` for serif, `mono` or `code` for monospace; sans-serif and serif
/// fall back to the first family, monospace to the sans-serif one and then
/// the first family.
pub fn choose_font_fallbacks(fams: &[String]) -> (r: FontFallbacks)
    ensures
        opt_s(r.sans) == or_else(first_of_kind(fams@, 0, 0), first_family(fams@)),
        opt_s(r.serif) == or_else(first_of_kind(fams@, 1, 0), first_family(fams@)),
        opt_s(r.mono) == or_else(first_of_kind(fams@, 2, 0), or_else(first_of_kind(fams@, 0, 0), first_family(fams@))),
{
    let first: Option<String> = if fams.len() > 0 {
        Some(fams[0].clone())
    } else {
        None
    };
    let sans = first_of_kind_exec(fams, 0);
    let serif = first_of_kind_exec(fams, 1);
    let mono = first_of_kind_exec(fams, 2);
    let sans_or_first = match &sans {
        Some(s) => Some(s.clone()),
        None => match &first {
            Some(f) => Some(f.clone()),
            None => None,
        },
    };
    let serif_or_first = match serif {
        Some(s) => Some(s),
        None => match &first {
            Some(f) => Some(f.clone()),
            None => None,
        },
    };
    let mono_pick = match mono {
        Some(m) => Some(m),
        None => match &sans_or_first {
            Some(s) => Some(s.clone()),
            None => None,
        },
    };
    FontFallbacks { sans: sans_or_first, serif: serif_or_first, mono: mono_pick }
}

} // verus!
