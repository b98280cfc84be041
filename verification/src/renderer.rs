//! Helpers of the Markdown renderer that decide rather than draw: list
//! markers, image MIME types and `data:` URLs.
use vstd::prelude::*;
use base64::Engine;
use crate::text::{
    after, find_from, matches_at, ascii_lower, ascii_lower_chars, chars_to_string, decimal, decimal_chars, eq_chars, find,
    find_char, lemma_find_bounds, slice_to_vec, split_char, split_char_exec, starts_with,
    starts_with_chars, str_to_chars, string_chars,
};

verus! {

// ----- list markers -----

/// The numbering state of an open list.
#[derive(Debug, Clone, Copy, PartialEq, Eq, Structural)]
pub struct ListCounter {
    pub ordered: bool,
    pub next_index: usize,
}

pub open spec fn bullet() -> Seq<char> {
    seq!['\u{2022}']
}

/// The marker of the next item of the innermost list: `N.` for an ordered
/// list, which then counts on, and a bullet otherwise or outside lists.
pub fn next_list_marker(stack: &mut Vec<ListCounter>) -> (r: String)
    requires
        old(stack)@.len() > 0 && old(stack)@.last().ordered ==> old(stack)@.last().next_index < usize::MAX,
    ensures
        old(stack)@.len() > 0 && old(stack)@.last().ordered ==> {
            &&& r@ == decimal(old(stack)@.last().next_index as nat) + seq!['.']
            &&& final(stack)@ == old(stack)@.drop_last().push(
                ListCounter { ordered: true, next_index: (old(stack)@.last().next_index + 1) as usize },
            )
        },
        !(old(stack)@.len() > 0 && old(stack)@.last().ordered) ==> r@ == bullet() && final(stack)@ == old(stack)@,
{
    let n = stack.len();
    if n > 0 && stack[n - 1].ordered {
        let top = stack[n - 1];
        let mut digits = decimal_chars(top.next_index);
        digits.push('.');
        stack.set(n - 1, ListCounter { ordered: true, next_index: top.next_index + 1 });
        proof {
            assert(stack@ =~= old(stack)@.drop_last().push(
                ListCounter { ordered: true, next_index: (old(stack)@.last().next_index + 1) as usize },
            ));
        }
        chars_to_string(digits.as_slice())
    } else {
        let b = vec!['\u{2022}'];
        assert(b@ =~= bullet());
        chars_to_string(b.as_slice())
    }
}

// ----- image types -----

/// The MIME type of an image file extension (in lower case).
pub open spec fn mime_of_ext(ext: Seq<char>) -> Option<Seq<char>> {
    if ext == seq!['p', 'n', 'g'] {
        Some(seq!['i', 'm', 'a', 'g', 'e', '/', 'p', 'n', 'g'])
    } else if ext == seq!['j', 'p', 'g'] || ext == seq!['j', 'p', 'e', 'g'] {
        Some(seq!['i', 'm', 'a', 'g', 'e', '/', 'j', 'p', 'e', 'g'])
    } else if ext == seq!['s', 'v', 'g'] {
        Some(seq!['i', 'm', 'a', 'g', 'e', '/', 's', 'v', 'g', '+', 'x', 'm', 'l'])
    } else {
        None
    }
}

pub open spec fn opt_seq(o: Option<String>) -> Option<Seq<char>> {
    match o {
        Some(s) => Some(s@),
        None => None,
    }
}

/// The MIME type for an image file extension, in any case: PNG, JPEG or SVG.
pub fn mime_from_extension(ext: &str) -> (r: Option<String>)
    ensures
        opt_seq(r) == mime_of_ext(ascii_lower(ext@)),
{
    let c = str_to_chars(ext);
    let e = ascii_lower_chars(c.as_slice());
    let png = vec!['p', 'n', 'g'];
    let jpg = vec!['j', 'p', 'g'];
    let jpeg = vec!['j', 'p', 'e', 'g'];
    let svg = vec!['s', 'v', 'g'];
    assert(png@ =~= seq!['p', 'n', 'g']);
    assert(jpg@ =~= seq!['j', 'p', 'g']);
    assert(jpeg@ =~= seq!['j', 'p', 'e', 'g']);
    assert(svg@ =~= seq!['s', 'v', 'g']);
    if eq_chars(e.as_slice(), png.as_slice()) {
        let m = vec!['i', 'm', 'a', 'g', 'e', '/', 'p', 'n', 'g'];
        assert(m@ =~= seq!['i', 'm', 'a', 'g', 'e', '/', 'p', 'n', 'g']);
        Some(chars_to_string(m.as_slice()))
    } else if eq_chars(e.as_slice(), jpg.as_slice()) || eq_chars(e.as_slice(), jpeg.as_slice()) {
        let m = vec!['i', 'm', 'a', 'g', 'e', '/', 'j', 'p', 'e', 'g'];
        assert(m@ =~= seq!['i', 'm', 'a', 'g', 'e', '/', 'j', 'p', 'e', 'g']);
        Some(chars_to_string(m.as_slice()))
    } else if eq_chars(e.as_slice(), svg.as_slice()) {
        let m = vec!['i', 'm', 'a', 'g', 'e', '/', 's', 'v', 'g', '+', 'x', 'm', 'l'];
        assert(m@ =~= seq!['i', 'm', 'a', 'g', 'e', '/', 's', 'v', 'g', '+', 'x', 'm', 'l']);
        Some(chars_to_string(m.as_slice()))
    } else {
        None
    }
}

/// Position of the first `?` or `#` at or after `i`, or the end.
pub open spec fn query_start(s: Seq<char>, i: int) -> int
    decreases s.len() - i,
{
    if 0 <= i < s.len() && s[i] != '?' && s[i] != '#' {
        query_start(s, i + 1)
    } else {
        i
    }
}

/// What follows the last `.` (all of `s` without one).
pub open spec fn after_last_dot(s: Seq<char>) -> Seq<char>
    decreases s.len(),
{
    if s.len() == 0 {
        s
    } else if s.last() == '.' {
        Seq::empty()
    } else {
        after_last_dot(s.drop_last()).push(s.last())
    }
}

/// The MIME type an image URL's extension suggests (query and fragment
/// ignored).
pub open spec fn url_mime(src: Seq<char>) -> Option<Seq<char>> {
    mime_of_ext(ascii_lower(after_last_dot(src.subrange(0, query_start(src, 0)))))
}

/// The MIME type an image URL's extension suggests.
pub fn mime_from_url(src: &str) -> (r: Option<String>)
    ensures
        opt_seq(r) == url_mime(src@),
{
    let s = str_to_chars(src);
    let n = s.len();
    let mut q: usize = 0;
    while q < n && s[q] != '?' && s[q] != '#'
        invariant
            n == s@.len(),
            q <= n,
            query_start(s@, 0) == query_start(s@, q as int),
        decreases n - q,
    {
        q += 1;
    }
    let mut j: usize = q;
    let ghost base = s@.subrange(0, q as int);
    assert(base.subrange(0, j as int) == base);
    while j > 0 && s[j - 1] != '.'
        invariant
            j <= q <= n,
            n == s@.len(),
            base == s@.subrange(0, q as int),
            after_last_dot(base) == after_last_dot(base.subrange(0, j as int)) + base.subrange(j as int, q as int),
        decreases j,
    {
        let ghost pre = base.subrange(0, j as int);
        assert(pre.drop_last() == base.subrange(0, j - 1));
        assert(base.subrange(j - 1, q as int) =~= seq![pre.last()] + base.subrange(j as int, q as int));
        j -= 1;
    }
    proof {
        if j > 0 {
            assert(base.subrange(0, j as int).last() == '.');
        }
        assert(after_last_dot(base.subrange(0, j as int)) =~= Seq::<char>::empty());
    }
    let ext = slice_to_vec(s.as_slice(), j, q);
    assert(ext@ == after_last_dot(base));
    assert(q as int == query_start(s@, 0));
    assert(s@ == src@);
    let es = chars_to_string(ext.as_slice());
    mime_from_extension(es.as_str())
}

// ----- data URLs -----

/// What the standard base64 engine decodes `text` to, or `None` when it
/// rejects it.
pub uninterp spec fn base64_decode(text: Seq<char>) -> Option<Seq<u8>>;

/// The message (`Display`) of the error the standard base64 engine gives for
/// `text` when it rejects it.
pub uninterp spec fn base64_error(text: Seq<char>) -> Seq<char>;

/// The standard (padded) base64 encoding of `bytes`.
pub uninterp spec fn base64_encode(bytes: Seq<u8>) -> Seq<char>;

/// `base64::engine::general_purpose::STANDARD.decode`: the bytes `data`
/// encodes, or the message of the engine's error.
#[verifier::external_body]
fn decode_base64(data: &str) -> (r: Result<Vec<u8>, String>)
    ensures
        match r {
            Ok(b) => base64_decode(data@) == Some(b@),
            Err(e) => base64_decode(data@) is None && e@ == base64_error(data@),
        },
{
    base64::engine::general_purpose::STANDARD.decode(data).map_err(|e| e.to_string())
}

/// `base64::engine::general_purpose::STANDARD.encode`: the padded encoding,
/// which decodes back to the same bytes and is empty only for no bytes. The
/// engine panics when the encoded length overflows a `usize`, so inputs stay
/// below half of that.
#[verifier::external_body]
fn encode_base64(bytes: &[u8]) -> (r: String)
    requires
        bytes@.len() <= usize::MAX / 2,
    ensures
        r@ == base64_encode(bytes@),
        base64_decode(r@) == Some(bytes@),
        bytes@.len() > 0 ==> r@.len() > 0,
{
    base64::engine::general_purpose::STANDARD.encode(bytes)
}

pub open spec fn kw_data() -> Seq<char> {
    seq!['d', 'a', 't', 'a', ':']
}

pub open spec fn kw_base64() -> Seq<char> {
    seq!['b', 'a', 's', 'e', '6', '4']
}

/// Some parameter from the `k`-th on is `base64`, in any ASCII case.
pub open spec fn base64_flag(parts: Seq<Seq<char>>, k: int) -> bool
    decreases parts.len() - k,
{
    if k < 0 || k >= parts.len() {
        false
    } else {
        ascii_lower(parts[k]) == kw_base64() || base64_flag(parts, k + 1)
    }
}

/// The MIME type, the base64 flag and the payload of a `data:` URL: the
/// header before the first `,` is split at `;` into the type and its
/// parameters.
pub open spec fn data_url_fields(src: Seq<char>) -> (Seq<char>, bool, Seq<char>) {
    let rest = if starts_with(src, kw_data()) {
        after(src, 5)
    } else {
        src
    };
    let hd = match find(rest, seq![',']) {
        Some(k) => (rest.subrange(0, k), after(rest, k + 1)),
        None => (rest, Seq::<char>::empty()),
    };
    let parts = split_char(hd.0, ';');
    (parts[0], base64_flag(parts, 1), hd.1)
}

pub open spec fn data_url_prefix_error() -> Seq<char> {
    seq!['F', 'a', 'i', 'l', 'e', 'd', ' ', 't', 'o', ' ', 'd', 'e', 'c', 'o', 'd', 'e', ' ', 'd', 'a', 't', 'a', ' ', 'U', 'R', 'L', ':', ' ']
}

/// The image a `data:` URL holds: nothing unless it has a payload, a MIME
/// type and the `base64` flag; then the decoded bytes, or, when the payload
/// is not base64, "Failed to decode data URL: " and the decoder's message.
pub fn parse_data_url(src: &str) -> (r: Result<Option<(String, Vec<u8>)>, String>)
    ensures
        ({
            let f = data_url_fields(src@);
            let skip = f.2.len() == 0 || f.0.len() == 0 || !f.1;
            match r {
                Ok(None) => skip,
                Ok(Some(p)) => !skip && p.0@ == f.0 && base64_decode(f.2) == Some(p.1@),
                Err(e) => !skip && base64_decode(f.2) is None && e@ == data_url_prefix_error() + base64_error(f.2),
            }
        }),
{
    let s = str_to_chars(src);
    let n = s.len();
    let kd = vec!['d', 'a', 't', 'a', ':'];
    assert(kd@ =~= kw_data());
    let rest = if starts_with_chars(s.as_slice(), kd.as_slice()) {
        slice_to_vec(s.as_slice(), 5, n)
    } else {
        s
    };
    let rn = rest.len();
    let (header, data) = match find_char(rest.as_slice(), ',') {
        Some(k) => {
            proof {
                lemma_find_bounds(rest@, seq![',']);
            }
            (slice_to_vec(rest.as_slice(), 0, k), slice_to_vec(rest.as_slice(), k + 1, rn))
        },
        None => (rest, Vec::new()),
    };
    let parts = split_char_exec(header.as_slice(), ';');
    let ghost pv = parts@.map_values(|l: Vec<char>| l@);
    proof {
        assert(pv == split_char(header@, ';'));
        lemma_split_nonempty(header@, ';');
    }
    let ghost f = data_url_fields(src@);
    assert(data@ == f.2);
    if data.len() == 0 {
        return Ok(None);
    }
    let mime = &parts[0];
    assert(mime@ == f.0);
    let kb = vec!['b', 'a', 's', 'e', '6', '4'];
    assert(kb@ =~= kw_base64());
    let mut is_b64 = false;
    let mut k: usize = parts.len();
    while k > 1
        invariant
            1 <= k <= parts@.len(),
            pv == parts@.map_values(|l: Vec<char>| l@),
            kb@ == kw_base64(),
            is_b64 == base64_flag(pv, k as int),
        decreases k,
    {
        k -= 1;
        let low = ascii_lower_chars(parts[k].as_slice());
        if eq_chars(low.as_slice(), kb.as_slice()) {
            is_b64 = true;
        }
    }
    assert(is_b64 == f.1);
    if mime.len() == 0 || !is_b64 {
        return Ok(None);
    }
    let ds = chars_to_string(data.as_slice());
    match decode_base64(ds.as_str()) {
        Ok(bytes) => Ok(Some((chars_to_string(mime.as_slice()), bytes))),
        Err(e) => {
            let mut msg = vec!['F', 'a', 'i', 'l', 'e', 'd', ' ', 't', 'o', ' ', 'd', 'e', 'c', 'o', 'd', 'e', ' ', 'd', 'a', 't', 'a', ' ', 'U', 'R', 'L', ':', ' '];
            assert(msg@ =~= data_url_prefix_error());
            let mut tc = string_chars(&e);
            msg.append(&mut tc);
            Err(chars_to_string(msg.as_slice()))
        },
    }
}

// ----- raster image sizes -----

/// The width and height `imagesize` reads from the header of a raster image
/// held in `bytes`, or the message (`Display`) of its error. It depends on
/// the bytes alone.
pub uninterp spec fn image_size_of(bytes: Seq<u8>) -> Result<(usize, usize), Seq<char>>;

/// `imagesize::blob_size`: the image's width and height, or its error's
/// message.
#[verifier::external_body]
fn image_blob_size(bytes: &[u8]) -> (r: Result<(usize, usize), String>)
    ensures
        match r {
            Ok(p) => image_size_of(bytes@) == Ok::<(usize, usize), Seq<char>>(p),
            Err(e) => image_size_of(bytes@) == Err::<(usize, usize), Seq<char>>(e@),
        },
{
    match imagesize::blob_size(bytes) {
        Ok(size) => Ok((size.width, size.height)),
        Err(e) => Err(e.to_string()),
    }
}

pub open spec fn image_size_prefix_error() -> Seq<char> {
    "Failed to read image size: "@
}

/// The size of a raster image, or "Failed to read image size: " and the
/// reader's message.
pub open spec fn raster_size(bytes: Seq<u8>) -> Result<(usize, usize), Seq<char>> {
    match image_size_of(bytes) {
        Ok(p) => Ok(p),
        Err(e) => Err(image_size_prefix_error() + e),
    }
}

/// The width and height of a raster image (PNG, JPEG, GIF, WebP and the
/// other formats `imagesize` reads) from its bytes.
pub fn raster_image_size(bytes: &[u8]) -> (r: Result<(usize, usize), String>)
    ensures
        match r {
            Ok(p) => raster_size(bytes@) == Ok::<(usize, usize), Seq<char>>(p),
            Err(e) => raster_size(bytes@) == Err::<(usize, usize), Seq<char>>(e@),
        },
{
    match image_blob_size(bytes) {
        Ok(p) => Ok(p),
        Err(e) => {
            let mut msg = str_to_chars("Failed to read image size: ");
            let mut ec = string_chars(&e);
            msg.append(&mut ec);
            Err(chars_to_string(msg.as_slice()))
        },
    }
}

proof fn lemma_split_nonempty(s: Seq<char>, c: char)
    ensures
        split_char(s, c).len() > 0,
{
}

proof fn lemma_find_char_at(s: Seq<char>, c: char, k: int, i: int)
    requires
        0 <= i <= k < s.len(),
        s[k] == c,
        forall|j: int| i <= j < k ==> s[j] != c,
    ensures
        find_from(s, seq![c], i) == Some(k),
    decreases k - i,
{
    if i == k {
        assert(s.subrange(i, i + 1) =~= seq![c]);
    } else {
        assert(s.subrange(i, i + 1)[0] == s[i]);
        lemma_find_char_at(s, c, k, i + 1);
    }
}

proof fn lemma_find_char_none(s: Seq<char>, c: char, i: int)
    requires
        0 <= i <= s.len(),
        forall|j: int| i <= j < s.len() ==> s[j] != c,
    ensures
        find_from(s, seq![c], i) is None,
    decreases s.len() - i,
{
    if i < s.len() {
        assert(s.subrange(i, i + 1)[0] == s[i]);
        lemma_find_char_none(s, c, i + 1);
    }
}

/// A MIME type that can stand in a data URL header: not empty, without `;`
/// or `,`.
pub open spec fn plain_mime(mime: Seq<char>) -> bool {
    mime.len() > 0 && forall|i: int| 0 <= i < mime.len() ==> #[trigger] mime[i] != ';' && mime[i] != ','
}

/// The fields of a built data URL are the MIME type, the base64 flag and the
/// encoded bytes.
pub proof fn lemma_built_fields(mime: Seq<char>, enc: Seq<char>)
    requires
        plain_mime(mime),
    ensures
        data_url_fields(kw_data() + mime + seq![';'] + kw_base64() + seq![','] + enc) == (mime, true, enc),
{
    let src = kw_data() + mime + seq![';'] + kw_base64() + seq![','] + enc;
    assert(src.subrange(0, 5) =~= kw_data());
    let rest = after(src, 5);
    assert(rest =~= mime + seq![';'] + kw_base64() + seq![','] + enc);
    let k: int = mime.len() as int + 7;
    assert(rest[k] == ',');
    assert forall|j: int| 0 <= j < k implies rest[j] != ',' by {
        if j < mime.len() {
            assert(rest[j] == mime[j]);
        }
    }
    lemma_find_char_at(rest, ',', k, 0);
    let header = rest.subrange(0, k);
    assert(header =~= mime + seq![';'] + kw_base64());
    assert(after(rest, k + 1) =~= enc);
    let m = mime.len() as int;
    assert(header[m] == ';');
    assert forall|j: int| 0 <= j < m implies header[j] != ';' by {
        assert(header[j] == mime[j]);
    }
    lemma_find_char_at(header, ';', m, 0);
    assert(header.subrange(0, m) =~= mime);
    let tail = after(header, m + 1);
    assert(tail =~= kw_base64());
    lemma_find_char_none(tail, ';', 0);
    let parts = split_char(header, ';');
    assert(parts =~= seq![mime] + split_char(tail, ';'));
    assert(split_char(tail, ';') =~= seq![tail]);
    assert(ascii_lower(tail) =~= kw_base64());
    assert(base64_flag(parts, 1));
}

pub open spec fn data_url_text(mime: Seq<char>, bytes: Seq<u8>) -> Seq<char> {
    kw_data() + mime + seq![';'] + kw_base64() + seq![','] + base64_encode(bytes)
}

/// The `data:` URL of an image: its MIME type and its bytes in base64. A URL
/// built from a plain MIME type and some bytes reads back as that type, with
/// the base64 flag, and a payload that decodes to the same bytes.
pub fn build_data_url(mime: &str, bytes: &[u8]) -> (r: String)
    requires
        bytes@.len() <= usize::MAX / 2,
    ensures
        r@ == data_url_text(mime@, bytes@),
        plain_mime(mime@) && bytes@.len() > 0 ==> ({
            let f = data_url_fields(r@);
            &&& f.0 == mime@
            &&& f.1
            &&& f.2.len() > 0
            &&& base64_decode(f.2) == Some(bytes@)
        }),
{
    let mut out = vec!['d', 'a', 't', 'a', ':'];
    let mut m = str_to_chars(mime);
    out.append(&mut m);
    let mut mid = vec![';', 'b', 'a', 's', 'e', '6', '4', ','];
    out.append(&mut mid);
    let enc = encode_base64(bytes);
    let mut ec = string_chars(&enc);
    out.append(&mut ec);
    assert(out@ =~= data_url_text(mime@, bytes@));
    proof {
        if plain_mime(mime@) && bytes@.len() > 0 {
            lemma_built_fields(mime@, base64_encode(bytes@));
        }
    }
    chars_to_string(out.as_slice())
}

} // verus!
