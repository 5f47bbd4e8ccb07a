//! Markdown link extraction and link-target normalisation.

use vstd::prelude::*;
use vstd::utf8::{decode_utf8, encode_utf8, valid_utf8};
use crate::chars::{
    decode_lossy, encode, find_char, find_char_exec, has_prefix, is_space, lemma_find_char,
    lemma_views_push, lower, lower_exec, skip_space, skip_space_from, slice_of, space, starts_with,
    text, trim, trim_of, utf8_lossy, views,
};

verus! {

/// Targets of the inline links `[label](target)` found from position `i` on.
/// A `[` whose label is not closed, or whose `]` is not directly followed by
/// `(`, or whose `(` is never closed, starts no link; the scan then resumes at
/// the next character, so a malformed candidate hides no later one.  After a
/// link the scan resumes behind its `)`.
pub open spec fn link_targets_from(t: Seq<char>, i: int) -> Seq<Seq<char>>
    decreases t.len() - i,
{
    if i < 0 || i >= t.len() {
        seq![]
    } else if t[i] != '[' {
        link_targets_from(t, i + 1)
    } else {
        let le = find_char(t, ']', i + 1);
        proof {
            lemma_find_char(t, ']', i + 1);
        }
        if le + 1 >= t.len() || t[le + 1] != '(' {
            link_targets_from(t, i + 1)
        } else {
            let te = find_char(t, ')', le + 2);
            proof {
                lemma_find_char(t, ')', le + 2);
            }
            if te >= t.len() {
                link_targets_from(t, i + 1)
            } else {
                seq![t.subrange(le + 2, te)] + link_targets_from(t, te + 1)
            }
        }
    }
}

/// Targets of the inline links of a Markdown text, in order.
pub open spec fn link_targets(t: Seq<char>) -> Seq<Seq<char>> {
    link_targets_from(t, 0)
}

pub fn markdown_link_targets(text: &[char]) -> (r: Vec<Vec<char>>)
    ensures
        views(r@) == link_targets(text@),
{
    let n = text.len();
    let mut out: Vec<Vec<char>> = Vec::new();
    let mut i: usize = 0;
    while i < n
        invariant
            n == text@.len(),
            i <= n,
            views(out@) + link_targets_from(text@, i as int) == link_targets(text@),
        decreases n - i,
    {
        if text[i] != '[' {
            i = i + 1;
            continue;
        }
        let le = find_char_exec(text, ']', i + 1);
        if le >= n - 1 || text[le + 1] != '(' {
            i = i + 1;
            continue;
        }
        let te = find_char_exec(text, ')', le + 2);
        if te >= n {
            i = i + 1;
            continue;
        }
        let target = slice_of(text, le + 2, te);
        proof {
            lemma_views_push(out@, target);
            assert(views(out@.push(target)) + link_targets_from(text@, te + 1) =~= views(out@)
                + link_targets_from(text@, i as int));
        }
        out.push(target);
        i = te + 1;
    }
    proof {
        assert(link_targets_from(text@, i as int) =~= seq![]);
        assert(views(out@) + link_targets_from(text@, i as int) =~= views(out@));
    }
    out
}

// ---------------------------------------------------------------------------
// Percent decoding
// ---------------------------------------------------------------------------

/// Value of an ASCII hexadecimal digit.
pub open spec fn hex_digit(b: u8) -> Option<u8> {
    if 48 <= b <= 57 {
        Some((b - 48) as u8)
    } else if 97 <= b <= 102 {
        Some((b - 97 + 10) as u8)
    } else if 65 <= b <= 70 {
        Some((b - 65 + 10) as u8)
    } else {
        None
    }
}

pub fn hex_value(byte: u8) -> (r: Option<u8>)
    ensures
        r == hex_digit(byte),
        r matches Some(v) ==> v < 16,
{
    if 48 <= byte && byte <= 57 {
        Some(byte - 48)
    } else if 97 <= byte && byte <= 102 {
        Some(byte - 97 + 10)
    } else if 65 <= byte && byte <= 70 {
        Some(byte - 65 + 10)
    } else {
        None
    }
}

/// Bytes of `b` from `i` on, with each `%` followed by two hexadecimal digits
/// replaced by the byte they spell; every other byte is kept.
pub open spec fn unescape_from(b: Seq<u8>, i: int) -> Seq<u8>
    decreases b.len() - i,
{
    if i < 0 || i >= b.len() {
        seq![]
    } else if b[i] == 37 && i + 2 < b.len() && hex_digit(b[i + 1]) is Some && hex_digit(
        b[i + 2],
    ) is Some {
        seq![(hex_digit(b[i + 1]).unwrap() * 16 + hex_digit(b[i + 2]).unwrap()) as u8]
            + unescape_from(b, i + 3)
    } else {
        seq![b[i]] + unescape_from(b, i + 1)
    }
}

/// Percent-decoding of a link target: unescape its UTF-8 bytes, then decode
/// them as UTF-8 with invalid sequences replaced.
pub open spec fn percent_decoded(t: Seq<char>) -> Seq<char> {
    let b = unescape_from(encode_utf8(t), 0);
    if valid_utf8(b) {
        decode_utf8(b)
    } else {
        utf8_lossy(b)
    }
}

pub fn unescape(bytes: &[u8]) -> (r: Vec<u8>)
    ensures
        r@ == unescape_from(bytes@, 0),
{
    let n = bytes.len();
    let mut out: Vec<u8> = Vec::new();
    let mut i: usize = 0;
    while i < n
        invariant
            n == bytes@.len(),
            i <= n,
            out@ + unescape_from(bytes@, i as int) == unescape_from(bytes@, 0),
        decreases n - i,
    {
        if bytes[i] == 37 && n > 2 && i < n - 2 {
            let high = hex_value(bytes[i + 1]);
            let low = hex_value(bytes[i + 2]);
            if let (Some(h), Some(l)) = (high, low) {
                let v: u8 = h * 16 + l;
                proof {
                    assert(out@.push(v) + unescape_from(bytes@, i + 3) =~= out@ + unescape_from(
                        bytes@,
                        i as int,
                    ));
                }
                out.push(v);
                i = i + 3;
                continue;
            }
        }
        proof {
            assert(out@.push(bytes@[i as int]) + unescape_from(bytes@, i + 1) =~= out@
                + unescape_from(bytes@, i as int));
        }
        out.push(bytes[i]);
        i = i + 1;
    }
    proof {
        assert(unescape_from(bytes@, i as int) =~= seq![]);
        assert(out@ + unescape_from(bytes@, i as int) =~= out@);
    }
    out
}

proof fn lemma_scalar_no_percent(c: char)
    requires
        c != '%',
    ensures
        !vstd::utf8::encode_scalar(c as u32).contains(37u8),
{
    let u = c as u32;
    vstd::utf8::char_is_scalar(c);
    let e = vstd::utf8::encode_scalar(u);
    if vstd::utf8::has_width_1_encoding(u) {
        assert((u & 0x7F) as u8 == u) by (bit_vector)
            requires
                u <= 0x7F,
        ;
        if e[0] == 37u8 {
            vstd::utf8::char_u32_cast(c, u);
            assert(u == 37);
            assert(c == '%');
        }
        assert(e.len() == 1);
    } else {
        assert((0xC0u8 | ((u >> 6u32) & 0x1Fu32) as u8) >= 0x80u8) by (bit_vector);
        assert((0xE0u8 | ((u >> 12u32) & 0x0Fu32) as u8) >= 0x80u8) by (bit_vector);
        assert((0xF0u8 | ((u >> 18u32) & 0x7u32) as u8) >= 0x80u8) by (bit_vector);
        assert((0x80u8 | (u & 0x3Fu32) as u8) >= 0x80u8) by (bit_vector);
        assert((0x80u8 | ((u >> 6u32) & 0x3Fu32) as u8) >= 0x80u8) by (bit_vector);
        assert((0x80u8 | ((u >> 12u32) & 0x3Fu32) as u8) >= 0x80u8) by (bit_vector);
        assert forall|k: int| 0 <= k < e.len() implies e[k] >= 0x80u8 by {}
    }
}

proof fn lemma_encode_no_percent(t: Seq<char>)
    requires
        !crate::chars::has_char(t, '%'),
    ensures
        !encode_utf8(t).contains(37u8),
    decreases t.len(),
{
    if t.len() > 0 {
        let rest = t.drop_first();
        assert(!crate::chars::has_char(rest, '%')) by {
            if crate::chars::has_char(rest, '%') {
                let k = choose|k: int| 0 <= k < rest.len() && rest[k] == '%';
                assert(t[k + 1] == '%');
            }
        }
        lemma_encode_no_percent(rest);
        assert(t[0] != '%');
        lemma_scalar_no_percent(t[0]);
        let a = vstd::utf8::encode_scalar(t[0] as u32);
        let b = encode_utf8(rest);
        assert(encode_utf8(t) == a + b);
        if (a + b).contains(37u8) {
            let k = choose|k: int| 0 <= k < (a + b).len() && (a + b)[k] == 37u8;
            if k < a.len() {
                assert(a[k] == 37u8);
            } else {
                assert(b[k - a.len()] == 37u8);
            }
        }
    }
}

proof fn lemma_unescape_plain(b: Seq<u8>, i: int)
    requires
        0 <= i <= b.len(),
        !b.contains(37u8),
    ensures
        unescape_from(b, i) == b.subrange(i, b.len() as int),
    decreases b.len() - i,
{
    if i < b.len() {
        lemma_unescape_plain(b, i + 1);
        assert(b[i] != 37u8);
        assert(b.subrange(i, b.len() as int) =~= seq![b[i]] + b.subrange(i + 1, b.len() as int));
    } else {
        assert(b.subrange(i, b.len() as int) =~= Seq::<u8>::empty());
    }
}

/// Percent-decoding of a link target: each `%` followed by two hex digits
/// becomes that byte, once; when the resulting bytes are UTF-8 the result is
/// exactly their characters, else invalid sequences are replaced.  A target
/// without `%` decodes to itself.
pub fn percent_decode(target: &[char]) -> (r: Vec<char>)
    ensures
        r@ == percent_decoded(target@),
        valid_utf8(unescape_from(encode_utf8(target@), 0)) ==> r@ == decode_utf8(
            unescape_from(encode_utf8(target@), 0),
        ),
        !crate::chars::has_char(target@, '%') ==> r@ == target@,
{
    let bytes = encode(target);
    let decoded = unescape(bytes.as_slice());
    proof {
        if !crate::chars::has_char(target@, '%') {
            lemma_encode_no_percent(target@);
            lemma_unescape_plain(bytes@, 0);
            assert(bytes@.subrange(0, bytes@.len() as int) =~= bytes@);
            vstd::utf8::encode_utf8_valid_utf8(target@);
            vstd::utf8::encode_utf8_decode_utf8(target@);
        }
    }
    decode_lossy(decoded.as_slice())
}

// ---------------------------------------------------------------------------
// Link targets
// ---------------------------------------------------------------------------

pub open spec fn is_external(t: Seq<char>) -> bool {
    let l = lower(t);
    starts_with(l, "http://"@) || starts_with(l, "https://"@) || starts_with(l, "mailto:"@)
}

pub fn is_external_target(target: &[char]) -> (r: bool)
    ensures
        r == is_external(target@),
{
    let l = lower_exec(target);
    has_prefix(l.as_slice(), text("http://").as_slice()) || has_prefix(
        l.as_slice(),
        text("https://").as_slice(),
    ) || has_prefix(l.as_slice(), text("mailto:").as_slice())
}

/// End of the first white-space-free run that starts at `a`.
pub open spec fn word_end(s: Seq<char>, i: int) -> int
    decreases s.len() - i,
{
    if i < 0 || i >= s.len() {
        s.len() as int
    } else if is_space(s[i]) {
        i
    } else {
        word_end(s, i + 1)
    }
}

/// The first white-space-separated word (`split_whitespace().next()`), or empty.
pub open spec fn first_word(s: Seq<char>) -> Seq<char> {
    let a = skip_space(s, 0);
    s.subrange(a, word_end(s, a))
}

pub open spec fn is_angle(c: char) -> bool {
    c == '<' || c == '>'
}

pub open spec fn skip_angle(s: Seq<char>, i: int) -> int
    decreases s.len() - i,
{
    if i < 0 || i >= s.len() {
        s.len() as int
    } else if is_angle(s[i]) {
        skip_angle(s, i + 1)
    } else {
        i
    }
}

pub open spec fn angle_end(s: Seq<char>, n: int) -> int
    decreases n,
{
    if n <= 0 {
        0
    } else if is_angle(s[n - 1]) {
        angle_end(s, n - 1)
    } else {
        n
    }
}

/// `trim_matches(['<', '>'])`.
pub open spec fn trim_angles(s: Seq<char>) -> Seq<char> {
    let a = skip_angle(s, 0);
    let t = s.subrange(a, s.len() as int);
    t.subrange(0, angle_end(t, t.len() as int))
}

/// Index of the first `'#'` or `'?'` at or after `i`, or the length.
pub open spec fn query_start(s: Seq<char>, i: int) -> int
    decreases s.len() - i,
{
    if i < 0 || i >= s.len() {
        s.len() as int
    } else if s[i] == '#' || s[i] == '?' {
        i
    } else {
        query_start(s, i + 1)
    }
}

/// The file part of a link target, still percent-encoded, or `None` when the
/// link names no repository file: an empty target, a fragment of the same
/// page, an `http`, `https` or `mailto` address, or a bare query.
pub open spec fn link_file_part(target: Seq<char>) -> Option<Seq<char>> {
    let t = trim_angles(first_word(trim(target)));
    if t.len() == 0 || t[0] == '#' || is_external(t) {
        None
    } else {
        let f = t.subrange(0, query_start(t, 0));
        if f.len() == 0 {
            None
        } else {
            Some(f)
        }
    }
}

proof fn lemma_word_end(s: Seq<char>, i: int)
    requires
        0 <= i <= s.len(),
    ensures
        i <= word_end(s, i) <= s.len(),
    decreases s.len() - i,
{
    if i < s.len() && !is_space(s[i]) {
        lemma_word_end(s, i + 1);
    }
}

proof fn lemma_skip_angle(s: Seq<char>, i: int)
    requires
        0 <= i <= s.len(),
    ensures
        i <= skip_angle(s, i) <= s.len(),
    decreases s.len() - i,
{
    if i < s.len() && is_angle(s[i]) {
        lemma_skip_angle(s, i + 1);
    }
}

proof fn lemma_angle_end(s: Seq<char>, n: int)
    requires
        0 <= n <= s.len(),
    ensures
        0 <= angle_end(s, n) <= n,
    decreases n,
{
    if n > 0 && is_angle(s[n - 1]) {
        lemma_angle_end(s, n - 1);
    }
}

proof fn lemma_query_start(s: Seq<char>, i: int)
    requires
        0 <= i <= s.len(),
    ensures
        i <= query_start(s, i) <= s.len(),
    decreases s.len() - i,
{
    if i < s.len() && !(s[i] == '#' || s[i] == '?') {
        lemma_query_start(s, i + 1);
    }
}

fn first_word_exec(s: &[char]) -> (r: Vec<char>)
    ensures
        r@ == first_word(s@),
{
    let a = skip_space_from(s, 0);
    let mut b = a;
    while b < s.len() && !space(s[b])
        invariant
            a <= b <= s@.len(),
            word_end(s@, a as int) == word_end(s@, b as int),
        decreases s@.len() - b,
    {
        b = b + 1;
    }
    slice_of(s, a, b)
}

fn trim_angles_exec(s: &[char]) -> (r: Vec<char>)
    ensures
        r@ == trim_angles(s@),
{
    let mut a: usize = 0;
    while a < s.len() && (s[a] == '<' || s[a] == '>')
        invariant
            a <= s@.len(),
            skip_angle(s@, 0) == skip_angle(s@, a as int),
        decreases s@.len() - a,
    {
        a = a + 1;
    }
    let t = slice_of(s, a, s.len());
    let mut b = t.len();
    while b > 0 && (t[b - 1] == '<' || t[b - 1] == '>')
        invariant
            b <= t@.len(),
            angle_end(t@, t@.len() as int) == angle_end(t@, b as int),
        decreases b,
    {
        b = b - 1;
    }
    slice_of(t.as_slice(), 0, b)
}

pub fn link_file_part_exec(target: &[char]) -> (r: Option<Vec<char>>)
    ensures
        match (r, link_file_part(target@)) {
            (Some(v), Some(f)) => v@ == f,
            (None, None) => true,
            _ => false,
        },
{
    let trimmed = trim_of(target);
    let word = first_word_exec(trimmed.as_slice());
    let t = trim_angles_exec(word.as_slice());
    if t.len() == 0 || t[0] == '#' || is_external_target(t.as_slice()) {
        return None;
    }
    let mut q: usize = 0;
    while q < t.len() && t[q] != '#' && t[q] != '?'
        invariant
            q <= t@.len(),
            query_start(t@, 0) == query_start(t@, q as int),
        decreases t@.len() - q,
    {
        q = q + 1;
    }
    if q == 0 {
        return None;
    }
    Some(slice_of(t.as_slice(), 0, q))
}

} // verus!
