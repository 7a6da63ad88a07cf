//! The object store's encoding: every object is framed with a header that
//! declares its length, and is named by the SHA-1 digest of the framed bytes.

use crate::error::Error;
use sha1::{Digest, Sha1};
use vstd::prelude::*;
use vstd::slice::slice_subrange;
use vstd::string::*;

verus! {

/// The SHA-1 digest of `data`, as 20 bytes.
pub uninterp spec fn sha1_digest(data: Seq<u8>) -> Seq<u8>;

/// `n` in decimal, as ASCII digits without leading zeros.
pub open spec fn decimal(n: nat) -> Seq<u8>
    decreases n,
{
    if n < 10 {
        seq![(48 + n) as u8]
    } else {
        decimal(n / 10).push((48 + n % 10) as u8)
    }
}

/// The bytes of `"blob "`.
pub open spec fn header_tag() -> Seq<u8> {
    seq![98u8, 108u8, 111u8, 98u8, 32u8]
}

/// The header that precedes `len` bytes of content: `"blob "`, the length in
/// decimal, and a NUL byte.
pub open spec fn framing_header(len: nat) -> Seq<u8> {
    header_tag() + decimal(len) + seq![0u8]
}

/// What is hashed and stored for `content`.
pub open spec fn framed(content: Seq<u8>) -> Seq<u8> {
    framing_header(content.len()) + content
}

/// The position of the first NUL byte at or after `from`, or the length of
/// `s` if there is none.
pub open spec fn find_nul(s: Seq<u8>, from: int) -> int
    decreases s.len() - from,
{
    if 0 <= from < s.len() && s[from] != 0 {
        find_nul(s, from + 1)
    } else {
        from
    }
}

/// The content of a stored object: what follows its first NUL byte.
pub open spec fn unframed(stored: Seq<u8>) -> Option<Seq<u8>> {
    let p = find_nul(stored, 0);
    if p < stored.len() {
        Some(stored.subrange(p + 1, stored.len() as int))
    } else {
        None
    }
}

/// The lower-case hexadecimal digit for `n < 16`.
pub open spec fn hex_digit(n: int) -> char {
    "0123456789abcdef"@[n]
}

/// `bytes` in lower-case hexadecimal, two digits per byte.
pub open spec fn hex(bytes: Seq<u8>) -> Seq<char>
    decreases bytes.len(),
{
    if bytes.len() == 0 {
        Seq::empty()
    } else {
        hex(bytes.drop_last()).push(hex_digit(bytes.last() as int / 16)).push(
            hex_digit(bytes.last() as int % 16),
        )
    }
}

/// The name under which `content` is stored.
pub open spec fn blob_digest(content: Seq<u8>) -> Seq<char> {
    hex(sha1_digest(framed(content)))
}

/// An object as it goes to the store: the file's name and the file's bytes.
#[derive(Debug, Clone, PartialEq, Eq)]
pub struct StoredObject {
    pub digest: String,
    pub data: Vec<u8>,
}

/// Calls `Sha1::digest` of the `sha1` crate on `data` and copies the output
/// array. The digest is a function of the bytes alone, and SHA-1 gives 20
/// bytes; nothing else is claimed of it.
#[verifier::external_body]
fn sha1_bytes(data: &[u8]) -> (digest: Vec<u8>)
    ensures
        digest@ == sha1_digest(data@),
        digest@.len() == 20,
{
    Sha1::digest(data).to_vec()
}

/// Hexadecimal takes two digits per byte.
pub proof fn lemma_hex_len(bytes: Seq<u8>)
    ensures
        hex(bytes).len() == 2 * bytes.len(),
    decreases bytes.len(),
{
    if bytes.len() > 0 {
        lemma_hex_len(bytes.drop_last());
    }
}

/// Every byte of a decimal numeral is an ASCII digit.
pub proof fn lemma_decimal_digits(n: nat)
    ensures
        decimal(n).len() >= 1,
        forall|i: int| 0 <= i < decimal(n).len() ==> 48 <= #[trigger] decimal(n)[i] <= 57,
    decreases n,
{
    if n >= 10 {
        lemma_decimal_digits(n / 10);
    }
}

/// Where `s` holds no NUL byte from `from` up to `at`, and one at `at`, the
/// search from `from` ends at `at`.
pub proof fn lemma_find_nul(s: Seq<u8>, from: int, at: int)
    requires
        0 <= from <= at < s.len(),
        s[at] == 0,
        forall|i: int| from <= i < at ==> s[i] != 0,
    ensures
        find_nul(s, from) == at,
    decreases at - from,
{
    if from < at {
        lemma_find_nul(s, from + 1, at);
    }
}

/// Reading back what was stored gives the content, whatever it is.
pub proof fn lemma_round_trip(content: Seq<u8>)
    ensures
        unframed(framed(content)) == Some(content),
{
    let n = content.len();
    let head = header_tag() + decimal(n);
    let s = framed(content);
    lemma_decimal_digits(n);
    assert(s =~= head + seq![0u8] + content);
    assert forall|i: int| 0 <= i < head.len() implies s[i] != 0 by {
        if i >= 5 {
            assert(s[i] == decimal(n)[i - 5]);
        }
    }
    lemma_find_nul(s, 0, head.len() as int);
    assert(s.subrange(head.len() as int + 1, s.len() as int) =~= content);
}

/// Different contents are stored as different bytes: the digest is taken of
/// bytes that tell the contents apart.
pub proof fn lemma_framing_injective(c1: Seq<u8>, c2: Seq<u8>)
    requires
        framed(c1) == framed(c2),
    ensures
        c1 == c2,
{
    lemma_round_trip(c1);
    lemma_round_trip(c2);
}

/// The objects directory after `content` is written to it: the framed
/// content stands under the content's digest.
pub open spec fn store_after_write(store: Map<Seq<char>, Seq<u8>>, content: Seq<u8>) -> Map<
    Seq<char>,
    Seq<u8>,
> {
    store.insert(blob_digest(content), framed(content))
}

/// Writing the same content a second time changes nothing in the objects
/// directory.
pub proof fn lemma_write_idempotent(store: Map<Seq<char>, Seq<u8>>, content: Seq<u8>)
    ensures
        store_after_write(store_after_write(store, content), content) == store_after_write(
            store,
            content,
        ),
{
    assert(store_after_write(store_after_write(store, content), content) =~= store_after_write(
        store,
        content,
    ));
}

/// What is read under the digest that a write gave is the content written,
/// whatever the objects directory held before.
pub proof fn lemma_read_after_write(store: Map<Seq<char>, Seq<u8>>, content: Seq<u8>)
    ensures
        store_after_write(store, content).dom().contains(blob_digest(content)),
        unframed(store_after_write(store, content)[blob_digest(content)]) == Some(content),
{
    lemma_round_trip(content);
}

/// Equal content has one name and one stored form: a second write of the same
/// content replaces a file by itself.
pub proof fn lemma_content_addressed(c1: Seq<u8>, c2: Seq<u8>)
    requires
        c1 == c2,
    ensures
        blob_digest(c1) == blob_digest(c2),
        framed(c1) == framed(c2),
{
}

fn push_decimal(out: &mut Vec<u8>, n: usize)
    ensures
        final(out)@ == old(out)@ + decimal(n as nat),
    decreases n,
{
    if n >= 10 {
        push_decimal(out, n / 10);
    }
    let d: u8 = (n % 10) as u8;
    out.push(48 + d);
    assert(final(out)@ =~= old(out)@ + decimal(n as nat));
}

/// `content` behind its framing header.
pub fn frame_blob(content: &[u8]) -> (data: Vec<u8>)
    ensures
        data@ == framed(content@),
{
    let mut data: Vec<u8> = Vec::new();
    data.push(98);
    data.push(108);
    data.push(111);
    data.push(98);
    data.push(32);
    assert(data@ =~= header_tag());
    push_decimal(&mut data, content.len());
    data.push(0);
    assert(data@ =~= framing_header(content@.len()));
    let mut i: usize = 0;
    while i < content.len()
        invariant
            i <= content.len(),
            data@ == framing_header(content@.len()) + content@.subrange(0, i as int),
        decreases content.len() - i,
    {
        data.push(content[i]);
        i += 1;
        assert(data@ =~= framing_header(content@.len()) + content@.subrange(0, i as int));
    }
    assert(content@.subrange(0, i as int) =~= content@);
    data
}

/// `bytes` in lower-case hexadecimal.
pub fn to_hex(bytes: &[u8]) -> (text: String)
    ensures
        text@ == hex(bytes@),
{
    let digits = "0123456789abcdef";
    proof {
        reveal_strlit("0123456789abcdef");
    }
    let mut text = String::new();
    let mut i: usize = 0;
    while i < bytes.len()
        invariant
            i <= bytes.len(),
            digits@ == "0123456789abcdef"@,
            digits@.len() == 16,
            text@ == hex(bytes@.subrange(0, i as int)),
        decreases bytes.len() - i,
    {
        let b: u8 = bytes[i];
        let hi: usize = (b / 16) as usize;
        let lo: usize = (b % 16) as usize;
        text.append(digits.substring_char(hi, hi + 1));
        text.append(digits.substring_char(lo, lo + 1));
        proof {
            let next = bytes@.subrange(0, i + 1);
            assert(next.drop_last() =~= bytes@.subrange(0, i as int));
            assert(next.last() == b);
            assert(text@ =~= hex(next));
        }
        i += 1;
    }
    assert(bytes@.subrange(0, i as int) =~= bytes@);
    text
}

/// The digest that names `content`: the SHA-1 of the framed content, in 40
/// hexadecimal digits.
pub fn hash_blob(content: &[u8]) -> (digest: String)
    ensures
        digest@ == blob_digest(content@),
        digest@.len() == 40,
{
    let data = frame_blob(content);
    hash_framed(data.as_slice())
}

/// The digest of bytes that are framed already.
pub fn hash_framed(data: &[u8]) -> (digest: String)
    ensures
        digest@ == hex(sha1_digest(data@)),
        digest@.len() == 40,
{
    let raw = sha1_bytes(data);
    proof {
        lemma_hex_len(raw@);
    }
    to_hex(raw.as_slice())
}

/// The object to store for `content`: named by its digest, holding the framed
/// content. It depends on the content alone, so storing the same content
/// again overwrites a file with the bytes it already has.
pub fn write_blob(content: &[u8]) -> (object: StoredObject)
    ensures
        object.digest@ == blob_digest(content@),
        object.digest@.len() == 40,
        object.data@ == framed(content@),
        unframed(object.data@) == Some(content@),
{
    let data = frame_blob(content);
    let digest = hash_framed(data.as_slice());
    proof {
        lemma_round_trip(content@);
    }
    StoredObject { digest, data }
}

/// The content of a stored object, without its framing header: all that
/// follows the first NUL byte. Bytes without a NUL byte are no object.
pub fn strip_git_blob_header(blob: &[u8]) -> (content: Result<&[u8], Error>)
    ensures
        match unframed(blob@) {
            Some(c) => content is Ok && content->Ok_0@ == c,
            None => content == Err::<&[u8], Error>(Error::CorruptObject),
        },
{
    let mut i: usize = 0;
    while i < blob.len() && blob[i] != 0
        invariant
            i <= blob.len(),
            find_nul(blob@, i as int) == find_nul(blob@, 0),
        decreases blob.len() - i,
    {
        i += 1;
    }
    if i < blob.len() {
        Ok(slice_subrange(blob, i + 1, blob.len()))
    } else {
        Err(Error::CorruptObject)
    }
}

/// The content of the object read from the store, where `stored` is what the
/// store holds under the digest asked for: `None` where it holds nothing.
pub fn read_blob(stored: Option<&[u8]>) -> (content: Result<Vec<u8>, Error>)
    ensures
        match stored {
            None => content == Err::<Vec<u8>, Error>(Error::NotFound),
            Some(bytes) => match unframed(bytes@) {
                Some(c) => content is Ok && content->Ok_0@ == c,
                None => content == Err::<Vec<u8>, Error>(Error::CorruptObject),
            },
        },
{
    match stored {
        None => Err(Error::NotFound),
        Some(bytes) => match strip_git_blob_header(bytes) {
            Ok(c) => Ok(vstd::slice::slice_to_vec(c)),
            Err(e) => Err(e),
        },
    }
}

} // verus!
