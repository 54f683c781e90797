use vstd::prelude::*;
use sha2::Digest;
use vstd::string::*;
use vstd::utf8::*;
use crate::text::{digit_char, push_str};

verus! {

broadcast use vstd::string::group_string_axioms;

/// The SHA-256 digest of `data`.
pub uninterp spec fn sha256_spec(data: Seq<u8>) -> Seq<u8>;

/// `sha2::Sha256::digest`, the digest copied out into a `Vec`. The contract
/// claims that the result is the SHA-256 digest of `data` (named, not
/// stated) and is 32 bytes long, the output size of the algorithm.
#[verifier::external_body]
pub(crate) fn sha256(data: &[u8]) -> (d: Vec<u8>)
    ensures
        d@ == sha256_spec(data@),
        d@.len() == 32,
{
    sha2::Sha256::digest(data).to_vec()
}

/// The lowercase hexadecimal digit for `d` (`0 <= d < 16`).
pub open spec fn hex_digit(d: int) -> char {
    if d < 10 {
        digit_char(d)
    } else if d == 10 {
        'a'
    } else if d == 11 {
        'b'
    } else if d == 12 {
        'c'
    } else if d == 13 {
        'd'
    } else if d == 14 {
        'e'
    } else {
        'f'
    }
}

/// Each byte of `data` as two lowercase hexadecimal digits, high nibble first.
pub open spec fn hex_lower(data: Seq<u8>) -> Seq<char>
    decreases data.len(),
{
    if data.len() == 0 {
        seq![]
    } else {
        hex_lower(data.drop_last()) + seq![
            hex_digit(data.last() as int / 16),
            hex_digit(data.last() as int % 16),
        ]
    }
}

/// `hex::encode`: the contract claims what its documentation and source
/// show, two lowercase hexadecimal digits per byte, high nibble first.
#[verifier::external_body]
pub(crate) fn hex_encode(data: &[u8]) -> (s: String)
    ensures
        s@ == hex_lower(data@),
{
    hex::encode(data)
}

/// The identifier of the project rooted at `root_path`: the hexadecimal
/// SHA-256 digest of the path's UTF-8 bytes.
pub open spec fn project_id_spec(root_path: Seq<char>) -> Seq<char> {
    hex_lower(sha256_spec(encode_utf8(root_path)))
}

/// The identifier of the file at `rel_path` in the project `project_id`:
/// the hexadecimal SHA-256 digest of `"<project_id>:<rel_path>"`.
pub open spec fn file_id_spec(project_id: Seq<char>, rel_path: Seq<char>) -> Seq<char> {
    hex_lower(sha256_spec(encode_utf8(project_id + seq![':'] + rel_path)))
}

/// The hexadecimal SHA-256 digest of the UTF-8 bytes of `s`.
pub open spec fn content_hash_spec(s: Seq<char>) -> Seq<char> {
    hex_lower(sha256_spec(encode_utf8(s)))
}

/// An identifier: 64 lowercase hexadecimal digits.
pub open spec fn is_hex_id(id: Seq<char>) -> bool {
    &&& id.len() == 64
    &&& forall|i: int| 0 <= i < 64 ==> exists|d: int| 0 <= d < 16 && hex_digit(d) == #[trigger] id[i]
}

/// The hexadecimal SHA-256 digest of `s`.
pub fn content_hash(s: &str) -> (h: String)
    ensures
        h@ == content_hash_spec(s@),
        is_hex_id(h@),
{
    let d = sha256(s.as_bytes());
    proof {
        lemma_hex_lower_shape(d@);
    }
    hex_encode(d.as_slice())
}

/// The identifier of the project rooted at `root_path`.
pub fn project_id_for(root_path: &str) -> (id: String)
    ensures
        id@ == project_id_spec(root_path@),
        is_hex_id(id@),
{
    content_hash(root_path)
}

/// The identifier of the file at `rel_path` in the project `project_id`.
pub fn file_id_for(project_id: &str, rel_path: &str) -> (id: String)
    ensures
        id@ == file_id_spec(project_id@, rel_path@),
        is_hex_id(id@),
{
    let mut key = project_id.to_owned();
    push_str(&mut key, ":");
    push_str(&mut key, rel_path);
    proof {
        reveal_strlit(":");
    }
    assert(key@ =~= project_id@ + seq![':'] + rel_path@);
    content_hash(key.as_str())
}

/// `hex_lower(data)` holds two lowercase hexadecimal digits per byte.
pub proof fn lemma_hex_lower_shape(data: Seq<u8>)
    ensures
        hex_lower(data).len() == 2 * data.len(),
        forall|i: int| 0 <= i < hex_lower(data).len() ==> exists|d: int| 0 <= d < 16 && hex_digit(d) == #[trigger] hex_lower(data)[i],
    decreases data.len(),
{
    if data.len() > 0 {
        lemma_hex_lower_shape(data.drop_last());
        let h = hex_lower(data);
        let prev = hex_lower(data.drop_last());
        assert forall|i: int| 0 <= i < h.len() implies exists|d: int| 0 <= d < 16 && hex_digit(d) == #[trigger] h[i] by {
            if i < prev.len() {
                assert(h[i] == prev[i]);
            } else if i == prev.len() {
                let d = data.last() as int / 16;
                assert(hex_digit(d) == h[i]);
            } else {
                let d = data.last() as int % 16;
                assert(hex_digit(d) == h[i]);
            }
        }
    }
}

} // verus!
