//! The on-disk envelope: the salt, the nonce and the sealed payload, written
//! as the JSON object `{"salt":[..],"nonce":[..],"ciphertext":[..]}` with
//! each byte as a decimal number and no whitespace.
use vstd::prelude::*;

use crate::crypto::{NONCE_LEN, SALT_LEN};
use crate::error::VaultError;
use crate::json_bytes::{array_at, json_array, parse_json_array, push_json_array};

verus! {

/// The stored form of a vault: the salt its key was derived with, the nonce
/// it was encrypted under, and the sealed payload.
#[derive(Clone, Debug, PartialEq, Eq)]
pub struct EncryptedVault {
    pub salt: Vec<u8>,
    pub nonce: Vec<u8>,
    pub ciphertext: Vec<u8>,
}

impl EncryptedVault {
    /// Salt and nonce have their fixed lengths.
    pub open spec fn wf(&self) -> bool {
        &&& self.salt@.len() == SALT_LEN
        &&& self.nonce@.len() == NONCE_LEN
    }
}

/// `{"salt":`
pub open spec fn salt_field() -> Seq<u8> {
    seq![123u8, 34u8, 115u8, 97u8, 108u8, 116u8, 34u8, 58u8]
}

/// `,"nonce":`
pub open spec fn nonce_field() -> Seq<u8> {
    seq![44u8, 34u8, 110u8, 111u8, 110u8, 99u8, 101u8, 34u8, 58u8]
}

/// `,"ciphertext":`
pub open spec fn ciphertext_field() -> Seq<u8> {
    seq![44u8, 34u8, 99u8, 105u8, 112u8, 104u8, 101u8, 114u8, 116u8, 101u8, 120u8, 116u8, 34u8, 58u8]
}

/// `}`
pub open spec fn object_end() -> Seq<u8> {
    seq![125u8]
}

/// The bytes of an envelope.
pub open spec fn envelope_bytes(salt: Seq<u8>, nonce: Seq<u8>, ciphertext: Seq<u8>) -> Seq<u8> {
    salt_field() + json_array(salt) + nonce_field() + json_array(nonce) + ciphertext_field()
        + json_array(ciphertext) + object_end()
}

/// `bytes` are the bytes of an envelope with the given parts, whose salt and
/// nonce have their fixed lengths.
pub open spec fn is_envelope_of(
    bytes: Seq<u8>,
    salt: Seq<u8>,
    nonce: Seq<u8>,
    ciphertext: Seq<u8>,
) -> bool {
    &&& salt.len() == SALT_LEN
    &&& nonce.len() == NONCE_LEN
    &&& bytes == envelope_bytes(salt, nonce, ciphertext)
}

/// `bytes` are the bytes of some envelope.
pub open spec fn is_envelope(bytes: Seq<u8>) -> bool {
    exists|s: Seq<u8>, n: Seq<u8>, c: Seq<u8>| #[trigger] is_envelope_of(bytes, s, n, c)
}

fn salt_field_bytes() -> (r: Vec<u8>)
    ensures
        r@ == salt_field(),
{
    let r: Vec<u8> = vec![123u8, 34u8, 115u8, 97u8, 108u8, 116u8, 34u8, 58u8];
    assert(r@ =~= salt_field());
    r
}

fn nonce_field_bytes() -> (r: Vec<u8>)
    ensures
        r@ == nonce_field(),
{
    let r: Vec<u8> = vec![44u8, 34u8, 110u8, 111u8, 110u8, 99u8, 101u8, 34u8, 58u8];
    assert(r@ =~= nonce_field());
    r
}

fn ciphertext_field_bytes() -> (r: Vec<u8>)
    ensures
        r@ == ciphertext_field(),
{
    let r: Vec<u8> = vec![
        44u8,
        34u8,
        99u8,
        105u8,
        112u8,
        104u8,
        101u8,
        114u8,
        116u8,
        101u8,
        120u8,
        116u8,
        34u8,
        58u8,
    ];
    assert(r@ =~= ciphertext_field());
    r
}

fn object_end_bytes() -> (r: Vec<u8>)
    ensures
        r@ == object_end(),
{
    let r: Vec<u8> = vec![125u8];
    assert(r@ =~= object_end());
    r
}

/// Appends all of `src` to `out`.
fn push_all(out: &mut Vec<u8>, src: &[u8])
    ensures
        final(out)@ == old(out)@ + src@,
{
    let ghost start = out@;
    let mut i: usize = 0;
    while i < src.len()
        invariant
            i <= src@.len(),
            out@ == start + src@.take(i as int),
        decreases src@.len() - i,
    {
        out.push(src[i]);
        i = i + 1;
        assert(out@ =~= start + src@.take(i as int));
    }
    assert(src@.take(src@.len() as int) =~= src@);
}

/// The position right after `lit` where `b[pos..]` starts with it.
fn expect_literal(b: &[u8], pos: usize, lit: &[u8]) -> (r: Option<usize>)
    requires
        pos <= b@.len(),
    ensures
        r matches Some(next) ==> next == pos + lit@.len() && next <= b@.len() && b@.subrange(
            pos as int,
            next as int,
        ) == lit@,
        (pos + lit@.len() <= b@.len() && b@.subrange(pos as int, pos + lit@.len()) == lit@) ==> r
            == Some((pos + lit@.len()) as usize),
{
    if lit.len() > b.len() - pos {
        return None;
    }
    let mut i: usize = 0;
    while i < lit.len()
        invariant
            i <= lit@.len(),
            pos + lit@.len() <= b.len(),
            forall|j: int| 0 <= j < i ==> b@[pos + j] == lit@[j],
        decreases lit@.len() - i,
    {
        if b[pos + i] != lit[i] {
            proof {
                assert(b@.subrange(pos as int, pos + lit@.len())[i as int] == b@[pos + i]);
            }
            return None;
        }
        i = i + 1;
    }
    assert(b@.subrange(pos as int, pos + lit@.len()) =~= lit@);
    Some(pos + lit.len())
}

/// The bytes that store `e`.
pub fn encode_envelope(e: &EncryptedVault) -> (r: Vec<u8>)
    requires
        e.wf(),
    ensures
        r@ == envelope_bytes(e.salt@, e.nonce@, e.ciphertext@),
{
    let mut out: Vec<u8> = Vec::new();
    push_all(&mut out, salt_field_bytes().as_slice());
    push_json_array(&mut out, e.salt.as_slice());
    push_all(&mut out, nonce_field_bytes().as_slice());
    push_json_array(&mut out, e.nonce.as_slice());
    push_all(&mut out, ciphertext_field_bytes().as_slice());
    push_json_array(&mut out, e.ciphertext.as_slice());
    push_all(&mut out, object_end_bytes().as_slice());
    assert(out@ =~= envelope_bytes(e.salt@, e.nonce@, e.ciphertext@));
    out
}

/// Where the envelope of the given parts stands in `bytes`, each part
/// stands at its offset.
proof fn lemma_envelope_parts(bytes: Seq<u8>, s: Seq<u8>, n: Seq<u8>, c: Seq<u8>)
    requires
        bytes == envelope_bytes(s, n, c),
    ensures
        ({
            let p1 = salt_field().len();
            let p2 = p1 + json_array(s).len();
            let p3 = p2 + nonce_field().len();
            let p4 = p3 + json_array(n).len();
            let p5 = p4 + ciphertext_field().len();
            let p6 = p5 + json_array(c).len();
            &&& bytes.subrange(0, p1 as int) == salt_field()
            &&& array_at(bytes, p1 as int, s)
            &&& bytes.subrange(p2 as int, p3 as int) == nonce_field()
            &&& array_at(bytes, p3 as int, n)
            &&& bytes.subrange(p4 as int, p5 as int) == ciphertext_field()
            &&& array_at(bytes, p5 as int, c)
            &&& bytes.subrange(p6 as int, (p6 + 1) as int) == object_end()
            &&& bytes.len() == p6 + 1
        }),
{
    let p1 = salt_field().len();
    let p2 = p1 + json_array(s).len();
    let p3 = p2 + nonce_field().len();
    let p4 = p3 + json_array(n).len();
    let p5 = p4 + ciphertext_field().len();
    let p6 = p5 + json_array(c).len();
    assert(bytes.subrange(0, p1 as int) =~= salt_field());
    assert(bytes.subrange(p1 as int, p2 as int) =~= json_array(s));
    assert(bytes.subrange(p2 as int, p3 as int) =~= nonce_field());
    assert(bytes.subrange(p3 as int, p4 as int) =~= json_array(n));
    assert(bytes.subrange(p4 as int, p5 as int) =~= ciphertext_field());
    assert(bytes.subrange(p5 as int, p6 as int) =~= json_array(c));
    assert(bytes.subrange(p6 as int, (p6 + 1) as int) =~= object_end());
}

/// Reads an envelope back from `bytes`; fails with `Serialization` exactly
/// where they are not the bytes of an envelope.
#[verifier::rlimit(60)]
pub fn decode_envelope(bytes: &[u8]) -> (r: Result<EncryptedVault, VaultError>)
    ensures
        r matches Ok(e) ==> e.wf() && bytes@ == envelope_bytes(e.salt@, e.nonce@, e.ciphertext@),
        r is Err ==> r == Err::<EncryptedVault, VaultError>(VaultError::Serialization),
        forall|s: Seq<u8>, n: Seq<u8>, c: Seq<u8>| #[trigger]
            is_envelope_of(bytes@, s, n, c) ==> (r matches Ok(e) && e.salt@ == s && e.nonce@ == n
                && e.ciphertext@ == c),
{
    proof {
        assert forall|s: Seq<u8>, n: Seq<u8>, c: Seq<u8>| #[trigger]
            is_envelope_of(bytes@, s, n, c) implies ({
            let p1 = salt_field().len();
            let p2 = p1 + json_array(s).len();
            let p3 = p2 + nonce_field().len();
            let p4 = p3 + json_array(n).len();
            let p5 = p4 + ciphertext_field().len();
            let p6 = p5 + json_array(c).len();
            &&& bytes@.subrange(0, p1 as int) == salt_field()
            &&& array_at(bytes@, p1 as int, s)
            &&& bytes@.subrange(p2 as int, p3 as int) == nonce_field()
            &&& array_at(bytes@, p3 as int, n)
            &&& bytes@.subrange(p4 as int, p5 as int) == ciphertext_field()
            &&& array_at(bytes@, p5 as int, c)
            &&& bytes@.subrange(p6 as int, (p6 + 1) as int) == object_end()
            &&& bytes@.len() == p6 + 1
        }) by {
            lemma_envelope_parts(bytes@, s, n, c);
        }
    }
    let p1 = match expect_literal(bytes, 0, salt_field_bytes().as_slice()) {
        Some(p) => p,
        None => {
            return Err(VaultError::Serialization);
        },
    };
    let (salt, p2) = match parse_json_array(bytes, p1) {
        Some(x) => x,
        None => {
            return Err(VaultError::Serialization);
        },
    };
    let p3 = match expect_literal(bytes, p2, nonce_field_bytes().as_slice()) {
        Some(p) => p,
        None => {
            return Err(VaultError::Serialization);
        },
    };
    let (nonce, p4) = match parse_json_array(bytes, p3) {
        Some(x) => x,
        None => {
            return Err(VaultError::Serialization);
        },
    };
    let p5 = match expect_literal(bytes, p4, ciphertext_field_bytes().as_slice()) {
        Some(p) => p,
        None => {
            return Err(VaultError::Serialization);
        },
    };
    let (ciphertext, p6) = match parse_json_array(bytes, p5) {
        Some(x) => x,
        None => {
            return Err(VaultError::Serialization);
        },
    };
    let p7 = match expect_literal(bytes, p6, object_end_bytes().as_slice()) {
        Some(p) => p,
        None => {
            return Err(VaultError::Serialization);
        },
    };
    if p7 != bytes.len() || salt.len() != SALT_LEN || nonce.len() != NONCE_LEN {
        return Err(VaultError::Serialization);
    }
    proof {
        assert(bytes@ =~= bytes@.subrange(0, p1 as int) + bytes@.subrange(p1 as int, p2 as int)
            + bytes@.subrange(p2 as int, p3 as int) + bytes@.subrange(p3 as int, p4 as int)
            + bytes@.subrange(p4 as int, p5 as int) + bytes@.subrange(p5 as int, p6 as int)
            + bytes@.subrange(p6 as int, p7 as int));
    }
    Ok(EncryptedVault { salt, nonce, ciphertext })
}

} // verus!
