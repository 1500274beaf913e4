//! LM-OTS key generation and signing, and the serialized form of a
//! signature.

use crate::constants::D_RANDOMIZER;
use crate::error::ErrorKind;
use crate::hasher::Hasher;
use crate::lm_ots::definitions::{
    chain, compute_commitment, compute_signed_digits, derive_chain_secret, hash_chain,
    lemma_words_len, public_key, public_words, randomizer, signature_words, signed_digits,
};
use crate::lm_ots::parameter::{lemma_derived_values, LmotsAlgorithm, LmotsParameter};
use crate::util::coef::{coef, lemma_coef_bound};
use crate::util::helper::to_array32;
use crate::util::ustr::{be32, from_be32, lemma_be32_roundtrip, str32u, u32str};
use vstd::prelude::*;

verus! {

/// An LM-OTS signature: the parameter set, the randomizer `C` and the `p`
/// chain values `y`, 32 bytes each.
pub struct LmotsSignature {
    pub lmots_parameter: LmotsAlgorithm,
    pub signature_randomizer: [u8; 32],
    pub signature_data: Vec<u8>,
}

/// The mathematical value of an LM-OTS signature.
pub struct LmotsSignatureView {
    pub alg: LmotsAlgorithm,
    pub randomizer: Seq<u8>,
    pub words: Seq<u8>,
}

impl LmotsSignatureView {
    /// The randomizer has 32 bytes and there are `p` chain values.
    pub open spec fn wf(self) -> bool {
        &&& self.randomizer.len() == 32
        &&& self.words.len() == 32 * self.alg.p()
    }
}

impl View for LmotsSignature {
    type V = LmotsSignatureView;

    open spec fn view(&self) -> LmotsSignatureView {
        LmotsSignatureView {
            alg: self.lmots_parameter,
            randomizer: self.signature_randomizer@,
            words: self.signature_data@,
        }
    }
}

/// The signature of leaf `q` over `message` with randomizer `c`.
pub open spec fn signature_with<H: Hasher>(
    alg: LmotsAlgorithm,
    seed: Seq<u8>,
    id: Seq<u8>,
    q: u32,
    c: Seq<u8>,
    message: Seq<u8>,
) -> LmotsSignatureView {
    LmotsSignatureView {
        alg,
        randomizer: c,
        words: signature_words::<H>(
            alg,
            seed,
            id,
            q,
            signed_digits::<H>(alg, id, q, c, message),
            alg.p() as nat,
        ),
    }
}

/// The signature of leaf `q` over `message` with the randomizer derived
/// from the seed.
pub open spec fn signature<H: Hasher>(
    alg: LmotsAlgorithm,
    seed: Seq<u8>,
    id: Seq<u8>,
    q: u32,
    message: Seq<u8>,
) -> LmotsSignatureView {
    signature_with::<H>(alg, seed, id, q, randomizer::<H>(seed, id, q), message)
}

/// The serialized form: `u32(type) ‖ C ‖ y[0] ‖ … ‖ y[p−1]`.
pub open spec fn encode(sig: LmotsSignatureView) -> Seq<u8> {
    be32(sig.alg.type_code()) + sig.randomizer + sig.words
}

/// The signature that `bytes` is the serialized form of, if there is one:
/// the type code is known and the length is the one it calls for.
pub open spec fn decode(bytes: Seq<u8>) -> Option<LmotsSignatureView> {
    if bytes.len() < 4 {
        None
    } else {
        match LmotsAlgorithm::of_type(from_be32(bytes)) {
            None => None,
            Some(alg) => if bytes.len() != alg.signature_length() {
                None
            } else {
                Some(
                    LmotsSignatureView {
                        alg,
                        randomizer: bytes.subrange(4, 36),
                        words: bytes.subrange(36, bytes.len() as int),
                    },
                )
            },
        }
    }
}

/// Decoding the serialized form of a well-formed signature gives the
/// signature back.
pub proof fn lemma_decode_encode(sig: LmotsSignatureView)
    requires
        sig.wf(),
    ensures
        encode(sig).len() == sig.alg.signature_length(),
        decode(encode(sig)) == Some(sig),
{
    let bytes = encode(sig);
    sig.alg.lemma_of_type();
    lemma_be32_roundtrip(sig.alg.type_code());
    assert(from_be32(bytes) == from_be32(be32(sig.alg.type_code())));
    assert(bytes.subrange(4, 36) =~= sig.randomizer);
    assert(bytes.subrange(36, bytes.len() as int) =~= sig.words);
}

/// Whatever decodes is well-formed, and serializing it gives the bytes back.
pub proof fn lemma_encode_decode(bytes: Seq<u8>)
    requires
        decode(bytes) is Some,
    ensures
        decode(bytes)->0.wf(),
        encode(decode(bytes)->0) == bytes,
{
    let sig = decode(bytes)->0;
    crate::util::ustr::lemma_from_be32_roundtrip(bytes.subrange(0, 4));
    assert(from_be32(bytes.subrange(0, 4)) == from_be32(bytes));
    sig.alg.lemma_of_type();
    assert(encode(sig) =~= bytes);
}

/// The signature of an honest signer is well-formed.
pub proof fn lemma_signature_wf<H: Hasher>(
    alg: LmotsAlgorithm,
    seed: Seq<u8>,
    id: Seq<u8>,
    q: u32,
    c: Seq<u8>,
    message: Seq<u8>,
)
    requires
        c.len() == 32,
    ensures
        signature_with::<H>(alg, seed, id, q, c, message).wf(),
{
    alg.lemma_of_type();
    lemma_words_len::<H>(
        alg,
        seed,
        id,
        q,
        signed_digits::<H>(alg, id, q, c, message),
        alg.p() as nat,
    );
}

/// The public key `K` of leaf `q`: every chain is run from its secret start
/// to its end, and the ends are hashed.
pub fn generate_public_key<H: Hasher>(alg: LmotsAlgorithm, seed: &[u8; 32], id: &[u8; 16], q: u32) -> (k:
    [u8; 32])
    ensures
        k@ == public_key::<H>(alg, seed@, id@, q),
{
    let p = alg.get_p();
    let max_digit = alg.get_max_digit();
    let mut ends: Vec<u8> = Vec::new();
    let mut i: u16 = 0;
    while i < p
        invariant
            i <= p,
            p == alg.p(),
            max_digit == alg.max_digit(),
            ends@ == public_words::<H>(alg, seed@, id@, q, i as nat),
        decreases p - i,
    {
        let secret = derive_chain_secret::<H>(seed, id, q, i);
        let end = hash_chain::<H>(id, q, i, 0, max_digit, &secret);
        ends.extend_from_slice(end.as_slice());
        i = i + 1;
    }
    compute_commitment::<H>(id, q, ends.as_slice())
}

/// The randomizer derived from the seed for leaf `q`.
pub fn derive_randomizer<H: Hasher>(seed: &[u8; 32], id: &[u8; 16], q: u32) -> (c: [u8; 32])
    ensures
        c@ == randomizer::<H>(seed@, id@, q),
{
    derive_chain_secret::<H>(seed, id, q, D_RANDOMIZER)
}

impl LmotsSignature {
    /// The randomizer has 32 bytes and there are `p` chain values.
    pub open spec fn wf(&self) -> bool {
        self@.wf()
    }

    /// Signs `message` with the one-time key of leaf `q` and the randomizer
    /// `c`.
    pub fn sign_with_randomizer<H: Hasher>(
        alg: LmotsAlgorithm,
        seed: &[u8; 32],
        id: &[u8; 16],
        q: u32,
        c: &[u8; 32],
        message: &[u8],
    ) -> (sig: LmotsSignature)
        ensures
            sig@ == signature_with::<H>(alg, seed@, id@, q, c@, message@),
            sig.wf(),
    {
        let p = alg.get_p();
        let w = alg.get_w();
        let digits = compute_signed_digits::<H>(alg, id, q, c, message);
        let mut words: Vec<u8> = Vec::new();
        let mut i: u16 = 0;
        while i < p
            invariant
                i <= p,
                p == alg.p(),
                w == alg.w(),
                digits@.len() == 34,
                words@ == signature_words::<H>(alg, seed@, id@, q, digits@, i as nat),
            decreases p - i,
        {
            proof {
                lemma_derived_values(w as int);
                lemma_coef_bound(digits@, i as int, w as int);
                assert((i * w) / 8 < 34) by (nonlinear_arith)
                    requires
                        (p * w) / 8 <= 34,
                        0 <= i < p,
                        1 <= w <= 8,
                        w == 8 ==> p == 34,
                        w < 8 ==> (p * w) / 8 < 34,
                ;
            }
            let a = coef(digits.as_slice(), i as u64, w as u64);
            let secret = derive_chain_secret::<H>(seed, id, q, i);
            let value = hash_chain::<H>(id, q, i, 0, a as u8, &secret);
            words.extend_from_slice(value.as_slice());
            i = i + 1;
        }
        proof {
            lemma_signature_wf::<H>(alg, seed@, id@, q, c@, message@);
        }
        LmotsSignature { lmots_parameter: alg, signature_randomizer: *c, signature_data: words }
    }

    /// Signs `message` with the one-time key of leaf `q`.
    pub fn sign<H: Hasher>(
        alg: LmotsAlgorithm,
        seed: &[u8; 32],
        id: &[u8; 16],
        q: u32,
        message: &[u8],
    ) -> (sig: LmotsSignature)
        ensures
            sig@ == signature::<H>(alg, seed@, id@, q, message@),
            sig.wf(),
    {
        let c = derive_randomizer::<H>(seed, id, q);
        Self::sign_with_randomizer::<H>(alg, seed, id, q, &c, message)
    }

    /// A copy of this signature.
    pub fn duplicate(&self) -> (copy: LmotsSignature)
        ensures
            copy@ == self@,
    {
        LmotsSignature {
            lmots_parameter: self.lmots_parameter,
            signature_randomizer: self.signature_randomizer,
            signature_data: slice_to_vec(self.signature_data.as_slice()),
        }
    }

    /// The serialized form.
    pub fn to_binary_representation(&self) -> (bytes: Vec<u8>)
        ensures
            bytes@ == encode(self@),
    {
        let mut bytes: Vec<u8> = Vec::new();
        bytes.extend_from_slice(u32str(self.lmots_parameter.get_type()).as_slice());
        bytes.extend_from_slice(self.signature_randomizer.as_slice());
        bytes.extend_from_slice(self.signature_data.as_slice());
        bytes
    }

    /// Reads a serialized signature.
    pub fn from_binary_representation(data: &[u8]) -> (r: Result<LmotsSignature, ErrorKind>)
        ensures
            match decode(data@) {
                Some(sig) => r matches Ok(s) && s@ == sig && s.wf(),
                None => r == Err::<LmotsSignature, ErrorKind>(ErrorKind::Parse),
            },
    {
        if data.len() < 4 {
            return Err(ErrorKind::Parse);
        }
        let alg = match LmotsAlgorithm::from_type(str32u(data)) {
            Some(alg) => alg,
            None => {
                return Err(ErrorKind::Parse);
            },
        };
        if data.len() != alg.get_signature_length() {
            return Err(ErrorKind::Parse);
        }
        proof {
            alg.lemma_of_type();
        }
        let signature_randomizer = to_array32(&data[4..36]);
        let signature_data = slice_to_vec(&data[36..data.len()]);
        Ok(LmotsSignature { lmots_parameter: alg, signature_randomizer, signature_data })
    }
}

/// An owned copy of `s`.
pub fn slice_to_vec(s: &[u8]) -> (v: Vec<u8>)
    ensures
        v@ == s@,
{
    let mut v: Vec<u8> = Vec::new();
    v.extend_from_slice(s);
    assert(v@ =~= s@);
    v
}

} // verus!
