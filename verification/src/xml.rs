//! Text made safe for an XML document: entity escaping and removal of the
//! characters XML 1.0 does not allow.
use vstd::prelude::*;
use crate::text::{chars_to_string, str_to_chars};

verus! {

/// The entity that stands for a markup character, or the character itself.
/// With `apos`, the single quote is escaped too.
pub open spec fn escape_char(c: char, apos: bool) -> Seq<char> {
    if c == '&' {
        seq!['&', 'a', 'm', 'p', ';']
    } else if c == '<' {
        seq!['&', 'l', 't', ';']
    } else if c == '>' {
        seq!['&', 'g', 't', ';']
    } else if c == '"' {
        seq!['&', 'q', 'u', 'o', 't', ';']
    } else if apos && c == '\'' {
        seq!['&', 'a', 'p', 'o', 's', ';']
    } else {
        seq![c]
    }
}

/// Every character of `s` replaced by `escape_char`.
pub open spec fn escape_seq(s: Seq<char>, apos: bool) -> Seq<char>
    decreases s.len(),
{
    if s.len() == 0 {
        Seq::empty()
    } else {
        escape_seq(s.drop_last(), apos) + escape_char(s.last(), apos)
    }
}

/// Characters XML 1.0 allows in a document (Rust's `char` has no surrogates).
pub open spec fn xml_char(c: char) -> bool {
    c == '\t' || c == '\n' || c == '\r' || (' ' <= c && c != '\u{fffe}' && c != '\u{ffff}')
}

/// `s` without the characters XML does not allow.
pub open spec fn xml_clean(s: Seq<char>) -> Seq<char> {
    s.filter(|c: char| xml_char(c))
}

fn push_all(out: &mut Vec<char>, lit: &[char])
    ensures
        final(out)@ == old(out)@ + lit@,
{
    let mut i: usize = 0;
    while i < lit.len()
        invariant
            i <= lit@.len(),
            out@ == old(out)@ + lit@.subrange(0, i as int),
        decreases lit@.len() - i,
    {
        out.push(lit[i]);
        i += 1;
        assert(out@ =~= old(out)@ + lit@.subrange(0, i as int));
    }
    assert(lit@.subrange(0, lit@.len() as int) == lit@);
}

pub fn escape_chars(s: &[char], apos: bool) -> (r: Vec<char>)
    ensures
        r@ == escape_seq(s@, apos),
{
    let mut out: Vec<char> = Vec::new();
    let mut i: usize = 0;
    while i < s.len()
        invariant
            i <= s@.len(),
            out@ == escape_seq(s@.subrange(0, i as int), apos),
        decreases s@.len() - i,
    {
        let c = s[i];
        if c == '&' {
            push_all(&mut out, &['&', 'a', 'm', 'p', ';']);
        } else if c == '<' {
            push_all(&mut out, &['&', 'l', 't', ';']);
        } else if c == '>' {
            push_all(&mut out, &['&', 'g', 't', ';']);
        } else if c == '"' {
            push_all(&mut out, &['&', 'q', 'u', 'o', 't', ';']);
        } else if apos && c == '\'' {
            push_all(&mut out, &['&', 'a', 'p', 'o', 's', ';']);
        } else {
            out.push(c);
        }
        assert(s@.subrange(0, i + 1).drop_last() == s@.subrange(0, i as int));
        i += 1;
    }
    assert(s@.subrange(0, s@.len() as int) == s@);
    out
}

/// Escapes `&`, `<`, `>`, `"` and `'` as XML entities.
pub fn escape_xml(text: &str) -> (r: String)
    ensures
        r@ == escape_seq(text@, true),
{
    let c = str_to_chars(text);
    let e = escape_chars(c.as_slice(), true);
    chars_to_string(e.as_slice())
}

/// Removes characters XML 1.0 does not allow (control characters other than
/// tab, line feed and carriage return, and U+FFFE, U+FFFF).
pub fn sanitize_xml_text(text: &str) -> (r: String)
    ensures
        r@ == xml_clean(text@),
{
    let s = str_to_chars(text);
    let mut out: Vec<char> = Vec::new();
    let mut i: usize = 0;
    while i < s.len()
        invariant
            i <= s@.len(),
            out@ == xml_clean(s@.subrange(0, i as int)),
        decreases s@.len() - i,
    {
        let c = s[i];
        if c == '\t' || c == '\n' || c == '\r' || (' ' <= c && c != '\u{fffe}' && c != '\u{ffff}') {
            out.push(c);
        }
        proof {
            let pre = s@.subrange(0, i as int);
            assert(s@.subrange(0, i + 1) == pre.push(c));
            pre.filter_lemma(|c: char| xml_char(c));
            assert(pre.push(c).filter(|c: char| xml_char(c)) == if xml_char(c) {
                pre.filter(|c: char| xml_char(c)).push(c)
            } else {
                pre.filter(|c: char| xml_char(c))
            }) by {
                reveal_with_fuel(Seq::filter, 1);
                assert(pre.push(c).drop_last() == pre);
            }
        }
        i += 1;
    }
    assert(s@.subrange(0, s@.len() as int) == s@);
    chars_to_string(out.as_slice())
}

// ----- laws -----

/// Escaped text holds no `<`, `>` or `"`, so it cannot open or close markup
/// or end an attribute value.
pub proof fn escaped_text_has_no_markup(s: Seq<char>, apos: bool)
    ensures
        forall|i: int|
            0 <= i < escape_seq(s, apos).len() ==> {
                let c = #[trigger] escape_seq(s, apos)[i];
                c != '<' && c != '>' && c != '"'
            },
    decreases s.len(),
{
    if s.len() > 0 {
        escaped_text_has_no_markup(s.drop_last(), apos);
        let pre = escape_seq(s.drop_last(), apos);
        let tail = escape_char(s.last(), apos);
        assert forall|i: int| 0 <= i < escape_seq(s, apos).len() implies {
            let c = #[trigger] escape_seq(s, apos)[i];
            c != '<' && c != '>' && c != '"'
        } by {
            if i >= pre.len() {
                assert(escape_seq(s, apos)[i] == tail[i - pre.len()]);
            } else {
                assert(escape_seq(s, apos)[i] == pre[i]);
            }
        }
    }
}

/// Text without markup characters and ampersands is left as it is.
pub proof fn escape_keeps_plain_text(s: Seq<char>, apos: bool)
    requires
        forall|i: int|
            0 <= i < s.len() ==> #[trigger] s[i] != '&' && s[i] != '<' && s[i] != '>' && s[i]
                != '"' && s[i] != '\'',
    ensures
        escape_seq(s, apos) == s,
    decreases s.len(),
{
    if s.len() > 0 {
        escape_keeps_plain_text(s.drop_last(), apos);
        assert(s.drop_last().push(s.last()) == s);
    }
}

/// Cleaning is idempotent, and its result is all XML characters.
pub proof fn xml_clean_is_idempotent(s: Seq<char>)
    ensures
        xml_clean(xml_clean(s)) == xml_clean(s),
        forall|i: int| 0 <= i < xml_clean(s).len() ==> xml_char(#[trigger] xml_clean(s)[i]),
{
    s.filter_lemma(|c: char| xml_char(c));
    let t = xml_clean(s);
    t.filter_lemma(|c: char| xml_char(c));
    xml_clean_keeps_valid_text(t);
}

/// Text made only of characters XML allows is left as it is.
pub proof fn xml_clean_keeps_valid_text(t: Seq<char>)
    requires
        forall|i: int| 0 <= i < t.len() ==> xml_char(#[trigger] t[i]),
    ensures
        xml_clean(t) == t,
    decreases t.len(),
{
    reveal_with_fuel(Seq::filter, 1);
    if t.len() > 0 {
        xml_clean_keeps_valid_text(t.drop_last());
        assert(t.drop_last().push(t.last()) == t);
    }
}

/// Reads entities back: `&amp;`, `&lt;`, `&gt;`, `&quot;` and `&apos;` become
/// the characters they stand for; every other character stays.
pub open spec fn unescape(s: Seq<char>) -> Seq<char>
    decreases s.len(),
{
    if s.len() == 0 {
        Seq::empty()
    } else if s.len() >= 5 && s.subrange(0, 5) == seq!['&', 'a', 'm', 'p', ';'] {
        seq!['&'] + unescape(s.subrange(5, s.len() as int))
    } else if s.len() >= 4 && s.subrange(0, 4) == seq!['&', 'l', 't', ';'] {
        seq!['<'] + unescape(s.subrange(4, s.len() as int))
    } else if s.len() >= 4 && s.subrange(0, 4) == seq!['&', 'g', 't', ';'] {
        seq!['>'] + unescape(s.subrange(4, s.len() as int))
    } else if s.len() >= 6 && s.subrange(0, 6) == seq!['&', 'q', 'u', 'o', 't', ';'] {
        seq!['"'] + unescape(s.subrange(6, s.len() as int))
    } else if s.len() >= 6 && s.subrange(0, 6) == seq!['&', 'a', 'p', 'o', 's', ';'] {
        seq!['\''] + unescape(s.subrange(6, s.len() as int))
    } else {
        seq![s[0]] + unescape(s.drop_first())
    }
}

proof fn lemma_escape_prepend(c: char, t: Seq<char>, apos: bool)
    ensures
        escape_seq(seq![c] + t, apos) == escape_char(c, apos) + escape_seq(t, apos),
    decreases t.len(),
{
    if t.len() == 0 {
        assert(seq![c] + t == seq![c]);
        assert(seq![c].drop_last() == Seq::<char>::empty());
        assert(escape_seq(seq![c], apos) == escape_seq(Seq::<char>::empty(), apos) + escape_char(c, apos));
        assert(escape_char(c, apos) + Seq::<char>::empty() == escape_char(c, apos));
        assert(Seq::<char>::empty() + escape_char(c, apos) == escape_char(c, apos));
    } else {
        lemma_escape_prepend(c, t.drop_last(), apos);
        assert((seq![c] + t).drop_last() == seq![c] + t.drop_last());
        assert((seq![c] + t).last() == t.last());
        assert(escape_char(c, apos) + escape_seq(t.drop_last(), apos) + escape_char(t.last(), apos)
            == escape_char(c, apos) + (escape_seq(t.drop_last(), apos) + escape_char(t.last(), apos)));
    }
}

proof fn lemma_unescape_char(c: char, rest: Seq<char>, apos: bool)
    ensures
        unescape(escape_char(c, apos) + rest) == seq![c] + unescape(rest),
{
    let e = escape_char(c, apos);
    let s = e + rest;
    if c == '&' || c == '<' || c == '>' || c == '"' || (apos && c == '\'') {
        assert(s.subrange(0, e.len() as int) == e);
        assert(s.subrange(e.len() as int, s.len() as int) == rest);
    } else {
        assert(e == seq![c]);
        assert(s[0] == c);
        assert(s.drop_first() == rest);
    }
}

/// Escaping loses nothing: reading the entities back gives the text again.
pub proof fn unescape_undoes_escape(s: Seq<char>, apos: bool)
    ensures
        unescape(escape_seq(s, apos)) == s,
    decreases s.len(),
{
    if s.len() > 0 {
        let t = s.drop_first();
        assert(s == seq![s[0]] + t);
        lemma_escape_prepend(s[0], t, apos);
        unescape_undoes_escape(t, apos);
        lemma_unescape_char(s[0], escape_seq(t, apos), apos);
    }
}

} // verus!
