//! Content digests: SHA-256 written as lowercase hexadecimal.

use vstd::prelude::*;
use vstd::utf8::encode_utf8;
use sha2::Digest;
use crate::text::views;

verus! {

/// The SHA-256 digest of `data`.
pub uninterp spec fn sha256_of(data: Seq<u8>) -> Seq<u8>;

/// The lowercase hexadecimal digit for `n`, which is below 16.
pub open spec fn hex_digit(n: u8) -> char {
    if n < 10 {
        ((n + 48) as u8) as char
    } else {
        ((n + 87) as u8) as char
    }
}

/// Each byte as two lowercase hexadecimal digits, the high half first.
pub open spec fn hex_of(b: Seq<u8>) -> Seq<char>
    decreases b.len(),
{
    if b.len() == 0 {
        Seq::empty()
    } else {
        hex_of(b.drop_last()).push(hex_digit(b.last() / 16)).push(hex_digit(b.last() % 16))
    }
}

/// A lowercase hexadecimal digit.
pub open spec fn is_lower_hex(c: char) -> bool {
    ('0' <= c && c <= '9') || ('a' <= c && c <= 'f')
}

/// A digest as written here: 64 lowercase hexadecimal digits.
pub open spec fn is_hex_digest(s: Seq<char>) -> bool {
    s.len() == 64 && forall|i: int| 0 <= i < s.len() ==> is_lower_hex(#[trigger] s[i])
}

/// Hexadecimal writes two lowercase digits per byte.
pub proof fn lemma_hex_of(b: Seq<u8>)
    ensures
        hex_of(b).len() == 2 * b.len(),
        forall|i: int| 0 <= i < hex_of(b).len() ==> is_lower_hex(#[trigger] hex_of(b)[i]),
    decreases b.len(),
{
    if b.len() > 0 {
        lemma_hex_of(b.drop_last());
        let x = b.last();
        lemma_hex_digit(x / 16);
        lemma_hex_digit(x % 16);
        let h = hex_of(b);
        let p = hex_of(b.drop_last());
        assert forall|i: int| 0 <= i < h.len() implies is_lower_hex(#[trigger] h[i]) by {
            if i < p.len() {
                assert(h[i] == p[i]);
            }
        }
    }
}

proof fn lemma_hex_digit(n: u8)
    requires
        n < 16,
    ensures
        is_lower_hex(hex_digit(n)),
{
}

/// The byte sequences one after the other.
pub open spec fn concat_all(parts: Seq<Seq<u8>>) -> Seq<u8>
    decreases parts.len(),
{
    if parts.len() == 0 {
        Seq::empty()
    } else {
        concat_all(parts.drop_last()) + parts.last()
    }
}

/// The digest that identifies a chunk by its content.
pub open spec fn chunk_digest(content: Seq<char>) -> Seq<char> {
    hex_of(sha256_of(encode_utf8(content)))
}

/// The digest of a query together with the context it was answered from:
/// over the UTF-8 bytes of the query followed by those of each context chunk.
pub open spec fn context_digest(query: Seq<char>, chunks: Seq<Seq<char>>) -> Seq<char> {
    hex_of(
        sha256_of(encode_utf8(query) + concat_all(chunks.map_values(|c: Seq<char>| encode_utf8(c)))),
    )
}

/// Relies on `sha2::Sha256::digest`: the SHA-256 digest of the bytes, which
/// is 32 bytes long.
#[verifier::external_body]
fn sha256(data: &[u8]) -> (r: Vec<u8>)
    ensures
        r@ == sha256_of(data@),
        r@.len() == 32,
{
    sha2::Sha256::digest(data).to_vec()
}

/// Relies on `hex::encode`: two lowercase hexadecimal digits per byte, the
/// high half first.
#[verifier::external_body]
fn hex_encode(b: &[u8]) -> (r: String)
    ensures
        r@ == hex_of(b@),
{
    hex::encode(b)
}

/// Appends the bytes of `b` to `out`.
fn append_bytes(out: &mut Vec<u8>, b: &[u8])
    ensures
        final(out)@ == old(out)@ + b@,
{
    let mut i: usize = 0;
    while i < b.len()
        invariant
            i <= b@.len(),
            out@ == old(out)@ + b@.subrange(0, i as int),
        decreases b@.len() - i,
    {
        out.push(b[i]);
        i = i + 1;
        assert(out@ =~= old(out)@ + b@.subrange(0, i as int));
    }
    assert(b@.subrange(0, b@.len() as int) =~= b@);
}

/// The hexadecimal SHA-256 digest of the UTF-8 bytes of `content`.
pub fn digest_text(content: &str) -> (r: String)
    ensures
        r@ == chunk_digest(content@),
        is_hex_digest(r@),
{
    let d = sha256(content.as_bytes());
    proof {
        lemma_hex_of(d@);
    }
    hex_encode(d.as_slice())
}

/// The digest of a query and the context chunks it was answered from.
pub fn hash_query_context(query: &str, context_chunks: &[String]) -> (r: String)
    ensures
        r@ == context_digest(query@, views(context_chunks@)),
        is_hex_digest(r@),
{
    let mut bytes: Vec<u8> = Vec::new();
    append_bytes(&mut bytes, query.as_bytes());
    let mut i: usize = 0;
    while i < context_chunks.len()
        invariant
            i <= context_chunks@.len(),
            bytes@ == encode_utf8(query@) + concat_all(
                views(context_chunks@.subrange(0, i as int)).map_values(
                    |c: Seq<char>| encode_utf8(c),
                ),
            ),
        decreases context_chunks@.len() - i,
    {
        let ghost pre = views(context_chunks@.subrange(0, i as int)).map_values(
            |c: Seq<char>| encode_utf8(c),
        );
        append_bytes(&mut bytes, context_chunks[i].as_str().as_bytes());
        let ghost next = views(context_chunks@.subrange(0, i + 1)).map_values(
            |c: Seq<char>| encode_utf8(c),
        );
        assert(next.drop_last() =~= pre);
        assert(next.last() == encode_utf8(context_chunks@[i as int]@));
        i = i + 1;
        assert(bytes@ =~= encode_utf8(query@) + concat_all(next));
    }
    assert(context_chunks@.subrange(0, context_chunks@.len() as int) =~= context_chunks@);
    let d = sha256(bytes.as_slice());
    proof {
        lemma_hex_of(d@);
    }
    hex_encode(d.as_slice())
}

} // verus!
