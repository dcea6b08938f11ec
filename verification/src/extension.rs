use vstd::prelude::*;
use vstd::utf8::{encode_scalar, encode_utf8, is_ascii_chars, is_ascii_chars_encode_utf8};

use crate::error::ExtensionError;

verus! {

/// A single recognized compression-format token.
#[derive(Clone, Copy, Debug, PartialEq, Eq)]
pub enum CompressionFormat {
    Tar,
    Gzip,
    Bzip,
    Zip,
}

/// The byte `'.'`, which separates a filename's suffix segments.
pub const DOT: u8 = 46;

// The ASCII bytes that spell the recognized segments: 't', 'a', 'r',
// 'g', 'z', 'b', '2', 'i' and 'p'.
pub const B_T: u8 = 116;

pub const B_A: u8 = 97;

pub const B_R: u8 = 114;

pub const B_G: u8 = 103;

pub const B_Z: u8 = 122;

pub const B_B: u8 = 98;

pub const B_TWO: u8 = 50;

pub const B_I: u8 = 105;

pub const B_P: u8 = 112;

/// The UTF-8 bytes of the filename segment that names a format.
pub open spec fn token_bytes(t: CompressionFormat) -> Seq<u8> {
    match t {
        CompressionFormat::Tar => seq![B_T, B_A, B_R],
        CompressionFormat::Gzip => seq![B_G, B_Z],
        CompressionFormat::Bzip => seq![B_B, B_Z, B_TWO],
        CompressionFormat::Zip => seq![B_Z, B_I, B_P],
    }
}

/// The format a suffix segment names, if any.
pub open spec fn token_of(seg: Seq<u8>) -> Option<CompressionFormat> {
    if seg.len() == 3 && seg[0] == B_T && seg[1] == B_A && seg[2] == B_R {
        Some(CompressionFormat::Tar)
    } else if seg.len() == 2 && seg[0] == B_G && seg[1] == B_Z {
        Some(CompressionFormat::Gzip)
    } else if seg.len() == 3 && seg[0] == B_B && seg[1] == B_Z && seg[2] == B_TWO {
        Some(CompressionFormat::Bzip)
    } else if seg.len() == 3 && seg[0] == B_Z && seg[1] == B_I && seg[2] == B_P {
        Some(CompressionFormat::Zip)
    } else {
        None
    }
}

/// Index of the last `'.'` in `name`, or `-1` when there is none.
pub open spec fn last_dot(name: Seq<u8>) -> int
    decreases name.len(),
{
    if name.len() == 0 {
        -1
    } else if name.last() == DOT {
        name.len() - 1
    } else {
        last_dot(name.drop_last())
    }
}

pub proof fn lemma_last_dot_bounds(name: Seq<u8>)
    ensures
        -1 <= last_dot(name) < name.len(),
        last_dot(name) >= 0 ==> name[last_dot(name)] == DOT,
    decreases name.len(),
{
    if name.len() != 0 && name.last() != DOT {
        lemma_last_dot_bounds(name.drop_last());
    }
}

/// The chain of format tokens carried by the trailing suffix segments of
/// `name`, in the order they appear in the filename.  Splitting on `'.'`
/// from the right, segments are consumed greedily while each names a
/// format; the first segment that does not ends the chain.
pub open spec fn ext_chain(name: Seq<u8>) -> Seq<CompressionFormat>
    decreases name.len(),
    via ext_chain_decreases
{
    let d = last_dot(name);
    if d < 0 {
        match token_of(name) {
            Some(t) => seq![t],
            None => Seq::empty(),
        }
    } else {
        match token_of(name.subrange(d + 1, name.len() as int)) {
            Some(t) => ext_chain(name.subrange(0, d)).push(t),
            None => Seq::empty(),
        }
    }
}

#[via_fn]
proof fn ext_chain_decreases(name: Seq<u8>) {
    lemma_last_dot_bounds(name);
}

/// The leading part of `name` that the chain does not consume: the base
/// name, together with any suffixes below the first unrecognized one.
pub open spec fn ext_rest(name: Seq<u8>) -> Seq<u8>
    decreases name.len(),
    via ext_rest_decreases
{
    let d = last_dot(name);
    if d < 0 {
        match token_of(name) {
            Some(_) => Seq::empty(),
            None => name,
        }
    } else {
        match token_of(name.subrange(d + 1, name.len() as int)) {
            Some(_) => ext_rest(name.subrange(0, d)),
            None => name,
        }
    }
}

#[via_fn]
proof fn ext_rest_decreases(name: Seq<u8>) {
    lemma_last_dot_bounds(name);
}

/// The suffix text a token chain contributes to a filename: a `'.'`
/// followed by the token's segment, once per token.
pub open spec fn dotted(tokens: Seq<CompressionFormat>) -> Seq<u8>
    decreases tokens.len(),
{
    if tokens.len() == 0 {
        Seq::empty()
    } else {
        dotted(tokens.drop_last()) + seq![DOT] + token_bytes(tokens.last())
    }
}

/// A token's segment names that token back, and contains no dot.
pub proof fn lemma_token_bytes(t: CompressionFormat)
    ensures
        token_of(token_bytes(t)) == Some(t),
        forall|i: int| 0 <= i < token_bytes(t).len() ==> token_bytes(t)[i] != DOT,
{
}

proof fn lemma_last_dot_append(s: Seq<u8>, tail: Seq<u8>)
    requires
        forall|i: int| 0 <= i < tail.len() ==> tail[i] != DOT,
    ensures
        last_dot(s + seq![DOT] + tail) == s.len(),
    decreases tail.len(),
{
    let x = s + seq![DOT] + tail;
    if tail.len() == 0 {
        assert(x.last() == DOT);
    } else {
        assert(x.last() == tail.last());
        assert(x.drop_last() =~= s + seq![DOT] + tail.drop_last());
        lemma_last_dot_append(s, tail.drop_last());
    }
}

/// Appending a dot and a token's segment to any filename extends its
/// chain by exactly that token.
pub proof fn lemma_chain_append_token(s: Seq<u8>, t: CompressionFormat)
    ensures
        ext_chain(s + seq![DOT] + token_bytes(t)) == ext_chain(s).push(t),
{
    let x = s + seq![DOT] + token_bytes(t);
    lemma_token_bytes(t);
    lemma_last_dot_append(s, token_bytes(t));
    assert(x.subrange(s.len() as int + 1, x.len() as int) =~= token_bytes(t));
    assert(x.subrange(0, s.len() as int) =~= s);
}

/// Appending a whole re-joined chain to any filename extends its chain by
/// exactly those tokens.
pub proof fn lemma_chain_append_dotted(s: Seq<u8>, tokens: Seq<CompressionFormat>)
    ensures
        ext_chain(s + dotted(tokens)) == ext_chain(s) + tokens,
    decreases tokens.len(),
{
    if tokens.len() == 0 {
        assert(s + dotted(tokens) =~= s);
        assert(ext_chain(s) + tokens =~= ext_chain(s));
    } else {
        let head = tokens.drop_last();
        let t = tokens.last();
        lemma_chain_append_dotted(s, head);
        lemma_chain_append_token(s + dotted(head), t);
        assert(s + dotted(tokens) =~= (s + dotted(head)) + seq![DOT] + token_bytes(t));
        assert((ext_chain(s) + head).push(t) =~= ext_chain(s) + tokens);
    }
}

/// The unconsumed part of a filename carries no chain of its own.
pub proof fn lemma_chain_rest(name: Seq<u8>)
    ensures
        ext_chain(ext_rest(name)).len() == 0,
    decreases name.len(),
{
    lemma_last_dot_bounds(name);
    let d = last_dot(name);
    if d < 0 {
        if token_of(name) is Some {
            assert(last_dot(Seq::<u8>::empty()) == -1);
            assert(ext_chain(Seq::<u8>::empty()).len() == 0);
        }
    } else {
        if token_of(name.subrange(d + 1, name.len() as int)) is Some {
            lemma_chain_rest(name.subrange(0, d));
        }
    }
}

/// Parsing is idempotent on the reconstructed filename: re-joining the
/// parsed tokens with dots and appending them to the unconsumed base
/// reproduces the same chain.
pub proof fn lemma_parse_idempotent(name: Seq<u8>)
    ensures
        ext_chain(ext_rest(name) + dotted(ext_chain(name))) == ext_chain(name),
{
    lemma_chain_append_dotted(ext_rest(name), ext_chain(name));
    lemma_chain_rest(name);
    assert(ext_chain(ext_rest(name)) + ext_chain(name) =~= ext_chain(name));
}

/// The chain of format tokens of a filename given as characters.
pub open spec fn ext_chain_of(name: Seq<char>) -> Seq<CompressionFormat> {
    ext_chain(encode_utf8(name))
}

/// The characters of the filename segment that names a format.
pub open spec fn token_chars(t: CompressionFormat) -> Seq<char> {
    match t {
        CompressionFormat::Tar => seq!['t', 'a', 'r'],
        CompressionFormat::Gzip => seq!['g', 'z'],
        CompressionFormat::Bzip => seq!['b', 'z', '2'],
        CompressionFormat::Zip => seq!['z', 'i', 'p'],
    }
}

/// The suffix text a token chain contributes to a filename, as characters.
pub open spec fn dotted_chars(tokens: Seq<CompressionFormat>) -> Seq<char>
    decreases tokens.len(),
{
    if tokens.len() == 0 {
        Seq::empty()
    } else {
        dotted_chars(tokens.drop_last()) + seq!['.'] + token_chars(tokens.last())
    }
}

proof fn lemma_encode_utf8_concat(a: Seq<char>, b: Seq<char>)
    ensures
        encode_utf8(a + b) == encode_utf8(a) + encode_utf8(b),
    decreases a.len(),
{
    if a.len() == 0 {
        assert(a + b =~= b);
        assert(encode_utf8(a) + encode_utf8(b) =~= encode_utf8(b));
    } else {
        assert((a + b).drop_first() =~= a.drop_first() + b);
        lemma_encode_utf8_concat(a.drop_first(), b);
        assert((a + b)[0] == a[0]);
        assert(encode_scalar(a[0] as u32) + (encode_utf8(a.drop_first()) + encode_utf8(b)) =~= (
        encode_scalar(a[0] as u32) + encode_utf8(a.drop_first())) + encode_utf8(b));
    }
}

proof fn lemma_token_chars_encode(t: CompressionFormat)
    ensures
        encode_utf8(token_chars(t)) == token_bytes(t),
{
    assert(is_ascii_chars(token_chars(t)));
    is_ascii_chars_encode_utf8(token_chars(t));
    assert(encode_utf8(token_chars(t)) =~= token_bytes(t));
}

proof fn lemma_dot_char_encode()
    ensures
        encode_utf8(seq!['.']) == seq![DOT],
{
    assert(is_ascii_chars(seq!['.']));
    is_ascii_chars_encode_utf8(seq!['.']);
    assert(encode_utf8(seq!['.']) =~= seq![DOT]);
}

proof fn lemma_dotted_chars_encode(tokens: Seq<CompressionFormat>)
    ensures
        encode_utf8(dotted_chars(tokens)) == dotted(tokens),
    decreases tokens.len(),
{
    if tokens.len() == 0 {
        assert(encode_utf8(dotted_chars(tokens)) =~= dotted(tokens));
    } else {
        let head = dotted_chars(tokens.drop_last());
        lemma_dotted_chars_encode(tokens.drop_last());
        lemma_token_chars_encode(tokens.last());
        lemma_dot_char_encode();
        lemma_encode_utf8_concat(head, seq!['.']);
        lemma_encode_utf8_concat(head + seq!['.'], token_chars(tokens.last()));
    }
}

/// Appending a re-joined chain to any filename extends the parsed chain
/// by exactly those tokens.
pub proof fn lemma_chain_of_append_dotted(name: Seq<char>, tokens: Seq<CompressionFormat>)
    ensures
        ext_chain_of(name + dotted_chars(tokens)) == ext_chain_of(name) + tokens,
{
    lemma_encode_utf8_concat(name, dotted_chars(tokens));
    lemma_dotted_chars_encode(tokens);
    lemma_chain_append_dotted(encode_utf8(name), tokens);
}

/// Parsing is idempotent on a reconstructed filename: a filename's parsed
/// tokens, re-joined with dots and appended to any base name that carries
/// no chain of its own, parse back to the same chain.
pub proof fn lemma_parse_idempotent_of(name: Seq<char>, base: Seq<char>)
    requires
        ext_chain_of(base).len() == 0,
    ensures
        ext_chain_of(base + dotted_chars(ext_chain_of(name))) == ext_chain_of(name),
{
    lemma_chain_of_append_dotted(base, ext_chain_of(name));
    assert(ext_chain_of(base) + ext_chain_of(name) =~= ext_chain_of(name));
}

/// Whether a filename carries a recognized compression suffix chain.
pub open spec fn has_extension(name: Seq<char>) -> bool {
    ext_chain_of(name).len() > 0
}

/// An ordered, non-empty chain of compression-format tokens read off the
/// trailing suffixes of a filename, most recently applied last.
#[derive(Clone, Debug, PartialEq, Eq)]
pub struct Extension {
    pub tokens: Vec<CompressionFormat>,
}

impl Extension {
    /// An extension is never empty: a filename without recognized suffixes
    /// has no `Extension` at all.
    pub open spec fn wf(&self) -> bool {
        self.tokens@.len() > 0
    }

    /// Parses the trailing suffix chain of `filename`.  Fails exactly when
    /// no trailing segment names a known format.
    pub fn new(filename: &str) -> (r: Result<Extension, ExtensionError>)
        ensures
            match r {
                Ok(e) => e.wf() && e.tokens@ == ext_chain_of(filename@),
                Err(e) => ext_chain_of(filename@).len() == 0 && e == ExtensionError::Unrecognized,
            },
    {
        let bytes = filename.as_bytes();
        let n = bytes.len();
        proof {
            assert(bytes@.subrange(0, n as int) =~= bytes@);
        }
        let tokens = chain_prefix(bytes, n);
        if tokens.len() == 0 {
            Err(ExtensionError::Unrecognized)
        } else {
            Ok(Extension { tokens })
        }
    }
}

/// Index of the last `'.'` among `b[..end]`, or `None` when there is none.
fn find_last_dot(b: &[u8], end: usize) -> (r: Option<usize>)
    requires
        end <= b@.len(),
    ensures
        match r {
            Some(d) => d < end && last_dot(b@.subrange(0, end as int)) == d as int,
            None => last_dot(b@.subrange(0, end as int)) == -1,
        },
{
    let mut i = end;
    while i > 0 && b[i - 1] != DOT
        invariant
            i <= end <= b@.len(),
            last_dot(b@.subrange(0, end as int)) == last_dot(b@.subrange(0, i as int)),
        decreases i,
    {
        proof {
            assert(b@.subrange(0, i as int).drop_last() =~= b@.subrange(0, (i - 1) as int));
        }
        i = i - 1;
    }
    if i == 0 {
        None
    } else {
        Some(i - 1)
    }
}

/// The format named by the segment `b[start..end]`, if any.
fn token_at(b: &[u8], start: usize, end: usize) -> (r: Option<CompressionFormat>)
    requires
        start <= end <= b@.len(),
    ensures
        r == token_of(b@.subrange(start as int, end as int)),
{
    let n = end - start;
    if n == 3 && b[start] == B_T && b[start + 1] == B_A && b[start + 2] == B_R {
        Some(CompressionFormat::Tar)
    } else if n == 2 && b[start] == B_G && b[start + 1] == B_Z {
        Some(CompressionFormat::Gzip)
    } else if n == 3 && b[start] == B_B && b[start + 1] == B_Z && b[start + 2] == B_TWO {
        Some(CompressionFormat::Bzip)
    } else if n == 3 && b[start] == B_Z && b[start + 1] == B_I && b[start + 2] == B_P {
        Some(CompressionFormat::Zip)
    } else {
        None
    }
}

/// The chain of format tokens carried by `b[..end]`.
fn chain_prefix(b: &[u8], end: usize) -> (r: Vec<CompressionFormat>)
    requires
        end <= b@.len(),
    ensures
        r@ == ext_chain(b@.subrange(0, end as int)),
    decreases end,
{
    match find_last_dot(b, end) {
        None => {
            match token_at(b, 0, end) {
                Some(t) => {
                    let mut v: Vec<CompressionFormat> = Vec::new();
                    v.push(t);
                    proof {
                        assert(v@ =~= seq![t]);
                    }
                    v
                },
                None => Vec::new(),
            }
        },
        Some(d) => {
            proof {
                assert(b@.subrange(0, end as int).subrange(d + 1, end as int) =~= b@.subrange(
                    d + 1,
                    end as int,
                ));
                assert(b@.subrange(0, end as int).subrange(0, d as int) =~= b@.subrange(
                    0,
                    d as int,
                ));
            }
            match token_at(b, d + 1, end) {
                Some(t) => {
                    let mut v = chain_prefix(b, d);
                    v.push(t);
                    v
                },
                None => Vec::new(),
            }
        },
    }
}

} // verus!
