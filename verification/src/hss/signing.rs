//! HSS signatures: their value, their serialized form, and signing with an
//! expanded private key.

use crate::error::ErrorKind;
use crate::hasher::Hasher;
use crate::hss::definitions::{
    lemma_level_tree, level_public_key, level_tree, signed_public_key, HssPrivateKey,
};
use crate::hss::parameter::level_index;
use crate::hss::reference_impl_private_key::PrivateKeyView;
use crate::lm_ots::definitions::randomizer;
use crate::lm_ots::signing::derive_randomizer;
use crate::lms::definitions::{
    decode_public_key, encode_public_key, lemma_decode_encode_public_key,
    lemma_encode_decode_public_key, LmsPublicKey, LmsPublicKeyView,
};
use crate::lms::helper::{cache_faithful, lemma_empty_cache_faithful};
use crate::lms::signing::{LmsSignature, LmsSignatureView};
use crate::util::ustr::{be32, from_be32, lemma_be32_roundtrip, str32u, u32str};
use vstd::prelude::*;

verus! {

/// The public key of a lower tree with the signature of the tree above it.
pub struct HssSignedPublicKey {
    pub sig: LmsSignature,
    pub public_key: LmsPublicKey,
}

/// The mathematical value of a signed public key.
pub struct SignedPublicKeyView {
    pub sig: LmsSignatureView,
    pub public_key: LmsPublicKeyView,
}

impl View for HssSignedPublicKey {
    type V = SignedPublicKeyView;

    open spec fn view(&self) -> SignedPublicKeyView {
        SignedPublicKeyView { sig: self.sig@, public_key: self.public_key@ }
    }
}

impl SignedPublicKeyView {
    /// Signature and public key are well-formed.
    pub open spec fn wf(self) -> bool {
        self.sig.wf() && self.public_key.wf()
    }

    /// The serialized form: the signature, then the public key.
    pub open spec fn encode(self) -> Seq<u8> {
        crate::lms::signing::encode(self.sig) + encode_public_key(self.public_key)
    }

    /// The signed public key whose serialized form `bytes` starts with, and
    /// the length of that form, if there is one.
    #[verifier::opaque]
    pub open spec fn decode_prefix(bytes: Seq<u8>) -> Option<(SignedPublicKeyView, int)> {
        match crate::lms::signing::decode_prefix(bytes) {
            None => None,
            Some((sig, n)) => if bytes.len() < n + 56 {
                None
            } else {
                match decode_public_key(bytes.subrange(n, n + 56)) {
                    None => None,
                    Some(public_key) => Some((SignedPublicKeyView { sig, public_key }, n + 56)),
                }
            },
        }
    }

    /// Decoding the serialized form of a well-formed signed public key,
    /// whatever follows it, gives it back.
    pub proof fn lemma_decode_encode(self, rest: Seq<u8>)
        requires
            self.wf(),
        ensures
            self.encode().len() == self.sig.length() + 56,
            Self::decode_prefix(self.encode() + rest) == Some((self, self.sig.length() + 56)),
    {
        reveal(SignedPublicKeyView::decode_prefix);
        let key_bytes = encode_public_key(self.public_key);
        let bytes = self.encode() + rest;
        lemma_decode_encode_public_key(self.public_key);
        crate::lms::signing::lemma_decode_encode(self.sig, key_bytes + rest);
        assert(bytes =~= crate::lms::signing::encode(self.sig) + (key_bytes + rest));
        let n = self.sig.length();
        assert(bytes.subrange(n, n + 56) =~= key_bytes);
    }

    /// Whatever decodes is well-formed, and serializing it gives the decoded
    /// bytes back.
    pub proof fn lemma_encode_decode(bytes: Seq<u8>)
        requires
            Self::decode_prefix(bytes) is Some,
        ensures
            Self::decode_prefix(bytes) matches Some((key, n)) && key.wf() && 64 <= n <= bytes.len()
                && key.encode() == bytes.subrange(0, n),
    {
        reveal(SignedPublicKeyView::decode_prefix);
        crate::lms::signing::lemma_encode_decode(bytes);
        match crate::lms::signing::decode_prefix(bytes) {
            Some((sig, n)) => {
                lemma_encode_decode_public_key(bytes.subrange(n, n + 56));
                let key = Self::decode_prefix(bytes)->0;
                assert(bytes.subrange(0, n + 56) =~= bytes.subrange(0, n) + bytes.subrange(n, n + 56));
            },
            None => {},
        }
    }
}

impl HssSignedPublicKey {
    /// Reads the serialized signed public key that `data` starts with, and
    /// says how many bytes it takes.
    pub fn parse_prefix(data: &[u8]) -> (r: Result<(HssSignedPublicKey, usize), ErrorKind>)
        ensures
            match SignedPublicKeyView::decode_prefix(data@) {
                Some((key, n)) => r matches Ok((k, len)) && k@ == key && len == n && k@.wf(),
                None => r == Err::<(HssSignedPublicKey, usize), ErrorKind>(ErrorKind::Parse),
            },
    {
        reveal(SignedPublicKeyView::decode_prefix);
        let (sig, used) = match LmsSignature::parse_prefix(data) {
            Ok(parsed) => parsed,
            Err(e) => {
                return Err(ErrorKind::Parse);
            },
        };
        proof {
            crate::lms::signing::lemma_encode_decode(data@);
        }
        if data.len() - used < 56 {
            return Err(ErrorKind::Parse);
        }
        let public_key = match LmsPublicKey::from_binary_representation(&data[used..used + 56]) {
            Ok(public_key) => public_key,
            Err(e) => {
                return Err(ErrorKind::Parse);
            },
        };
        proof {
            lemma_encode_decode_public_key(data@.subrange(used as int, used + 56));
        }
        Ok((HssSignedPublicKey { sig, public_key }, used + 56))
    }
}

/// An HSS signature: for every level but the last the public key of the
/// next level, signed; and the signature of the last level over the
/// message.
pub struct HssSignature {
    pub signed_public_keys: Vec<HssSignedPublicKey>,
    pub signature: LmsSignature,
}

/// The mathematical value of an HSS signature.
pub struct HssSignatureView {
    pub signed_keys: Seq<SignedPublicKeyView>,
    pub sig: LmsSignatureView,
}

/// The values of a list of signed public keys.
pub open spec fn keys_view(keys: Seq<HssSignedPublicKey>) -> Seq<SignedPublicKeyView> {
    Seq::new(keys.len(), |i: int| keys[i]@)
}

impl View for HssSignature {
    type V = HssSignatureView;

    open spec fn view(&self) -> HssSignatureView {
        HssSignatureView { signed_keys: keys_view(self.signed_public_keys@), sig: self.signature@ }
    }
}

/// The serialized forms of the first `n` of `keys`, one after the other.
pub open spec fn encode_keys(keys: Seq<SignedPublicKeyView>, n: nat) -> Seq<u8>
    decreases n,
{
    if n == 0 {
        Seq::empty()
    } else {
        encode_keys(keys, (n - 1) as nat) + keys[n - 1].encode()
    }
}

/// The first `n` signed public keys that follow the first four bytes of
/// `bytes`, and the position after the last of them, if `bytes` holds as
/// many.
pub open spec fn decode_keys(bytes: Seq<u8>, n: nat) -> Option<(Seq<SignedPublicKeyView>, int)>
    decreases n,
{
    if n == 0 {
        Some((Seq::empty(), 4))
    } else {
        match decode_keys(bytes, (n - 1) as nat) {
            None => None,
            Some((keys, pos)) => match SignedPublicKeyView::decode_prefix(
                bytes.subrange(pos, bytes.len() as int),
            ) {
                None => None,
                Some((key, used)) => Some((keys.push(key), pos + used)),
            },
        }
    }
}

impl HssSignatureView {
    /// At most seven signed public keys, all well-formed, and a well-formed
    /// signature.
    pub open spec fn wf(self) -> bool {
        &&& self.signed_keys.len() <= 7
        &&& forall|i: int| 0 <= i < self.signed_keys.len() ==> (#[trigger] self.signed_keys[i]).wf()
        &&& self.sig.wf()
    }

    /// The serialized form: `u32(Nspk)`, the `Nspk` signed public keys, the
    /// signature.
    pub open spec fn encode(self) -> Seq<u8> {
        be32(self.signed_keys.len() as u32) + encode_keys(self.signed_keys, self.signed_keys.len())
            + crate::lms::signing::encode(self.sig)
    }

    /// The signature that `bytes` is the serialized form of, if there is
    /// one.
    pub open spec fn decode(bytes: Seq<u8>) -> Option<HssSignatureView> {
        if bytes.len() < 4 || from_be32(bytes) > 7 {
            None
        } else {
            match decode_keys(bytes, from_be32(bytes) as nat) {
                None => None,
                Some((signed_keys, pos)) => match crate::lms::signing::decode(
                    bytes.subrange(pos, bytes.len() as int),
                ) {
                    None => None,
                    Some(sig) => Some(HssSignatureView { signed_keys, sig }),
                },
            }
        }
    }
}

/// If `bytes` does not hold `n` signed public keys, it does not hold more.
pub proof fn lemma_decode_keys_none(bytes: Seq<u8>, n: nat, m: nat)
    requires
        decode_keys(bytes, n) is None,
        n <= m,
    ensures
        decode_keys(bytes, m) is None,
    decreases m,
{
    if n < m {
        lemma_decode_keys_none(bytes, n, (m - 1) as nat);
    }
}

/// The serialized form of a well-formed signed public key takes no more
/// bytes than the largest parameter sets call for.
pub proof fn lemma_encode_keys_len(keys: Seq<SignedPublicKeyView>, n: nat)
    requires
        n <= keys.len(),
        forall|i: int| 0 <= i < keys.len() ==> (#[trigger] keys[i]).wf(),
    ensures
        encode_keys(keys, n).len() <= n * (crate::constants::MAX_LMS_SIGNATURE_LENGTH
            + crate::constants::LMS_PUBLIC_KEY_LENGTH),
    decreases n,
{
    if n > 0 {
        lemma_encode_keys_len(keys, (n - 1) as nat);
        keys[n - 1].lemma_decode_encode(Seq::empty());
        keys[n - 1].sig.ots.alg.lemma_of_type();
        keys[n - 1].sig.lms.lemma_of_type();
        assert(keys[n - 1].encode() + Seq::<u8>::empty() =~= keys[n - 1].encode());
        assert(keys[n - 1].encode().len() <= 9380);
        assert(crate::constants::MAX_LMS_SIGNATURE_LENGTH + crate::constants::LMS_PUBLIC_KEY_LENGTH
            == 9380);
        assert(n * 9380 == (n - 1) * 9380 + 9380) by (nonlinear_arith);
    }
}

/// The serialized form of a well-formed signature fits the largest
/// signature length.
pub proof fn lemma_encode_len(sig: HssSignatureView)
    requires
        sig.wf(),
    ensures
        sig.encode().len() <= crate::constants::MAX_HSS_SIGNATURE_LENGTH,
{
    lemma_encode_keys_len(sig.signed_keys, sig.signed_keys.len());
    crate::lms::signing::lemma_decode_encode(sig.sig, Seq::empty());
    sig.sig.ots.alg.lemma_of_type();
    sig.sig.lms.lemma_of_type();
    let n = sig.signed_keys.len() as int;
    assert(n * (9324 + 56) <= 7 * (9324 + 56)) by (nonlinear_arith)
        requires
            0 <= n <= 7,
    ;
}

/// From bytes that start with a count and the serialized forms of the first
/// `n` of `keys`, these `n` keys are decoded.
pub proof fn lemma_decode_keys_encode(bytes: Seq<u8>, keys: Seq<SignedPublicKeyView>, n: nat)
    requires
        n <= keys.len(),
        forall|i: int| 0 <= i < keys.len() ==> (#[trigger] keys[i]).wf(),
        bytes.len() >= 4 + encode_keys(keys, n).len(),
        bytes.subrange(4, 4 + encode_keys(keys, n).len() as int) == encode_keys(keys, n),
    ensures
        decode_keys(bytes, n) == Some((keys.take(n as int), 4 + encode_keys(keys, n).len() as int)),
    decreases n,
{
    if n == 0 {
        assert(keys.take(0) =~= Seq::empty());
    } else {
        let head = encode_keys(keys, (n - 1) as nat);
        let last = keys[n - 1];
        let pos = 4 + head.len() as int;
        let end = 4 + encode_keys(keys, n).len() as int;
        assert(bytes.subrange(4, pos) =~= bytes.subrange(4, end).subrange(0, head.len() as int));
        assert((head + last.encode()).subrange(0, head.len() as int) =~= head);
        lemma_decode_keys_encode(bytes, keys, (n - 1) as nat);
        let rest = bytes.subrange(end, bytes.len() as int);
        assert(bytes.subrange(pos, bytes.len() as int) =~= last.encode() + rest) by {
            assert(bytes.subrange(pos, end) =~= bytes.subrange(4, end).subrange(
                head.len() as int,
                end - 4,
            ));
            assert((head + last.encode()).subrange(head.len() as int, end - 4) =~= last.encode());
            assert(bytes.subrange(pos, bytes.len() as int) =~= bytes.subrange(pos, end) + rest);
        }
        last.lemma_decode_encode(rest);
        assert(keys.take(n - 1).push(last) =~= keys.take(n as int));
    }
}

/// Decoding the serialized form of a well-formed signature gives the
/// signature back.
pub proof fn lemma_decode_encode(sig: HssSignatureView)
    requires
        sig.wf(),
    ensures
        HssSignatureView::decode(sig.encode()) == Some(sig),
{
    let bytes = sig.encode();
    let n = sig.signed_keys.len();
    let keys_bytes = encode_keys(sig.signed_keys, n);
    let tail = crate::lms::signing::encode(sig.sig);
    lemma_be32_roundtrip(n as u32);
    assert(from_be32(bytes) == from_be32(be32(n as u32)));
    assert(bytes.subrange(4, 4 + keys_bytes.len() as int) =~= keys_bytes);
    lemma_decode_keys_encode(bytes, sig.signed_keys, n);
    assert(sig.signed_keys.take(n as int) =~= sig.signed_keys);
    assert(bytes.subrange(4 + keys_bytes.len() as int, bytes.len() as int) =~= tail);
    crate::lms::signing::lemma_decode_encode(sig.sig, Seq::empty());
}

/// Whatever keys are decoded are well-formed, and their serialized forms
/// are the bytes they were decoded from.
pub proof fn lemma_encode_decode_keys(bytes: Seq<u8>, n: nat)
    requires
        decode_keys(bytes, n) is Some,
        bytes.len() >= 4,
    ensures
        decode_keys(bytes, n) matches Some((keys, pos)) && keys.len() == n && 4 <= pos
            <= bytes.len() && (forall|i: int| 0 <= i < n ==> (#[trigger] keys[i]).wf())
            && encode_keys(keys, n) == bytes.subrange(4, pos),
    decreases n,
{
    if n == 0 {
        assert(bytes.subrange(4, 4) =~= Seq::<u8>::empty());
    } else {
        lemma_encode_decode_keys(bytes, (n - 1) as nat);
        match decode_keys(bytes, (n - 1) as nat) {
            Some((keys, pos)) => {
                let rest = bytes.subrange(pos, bytes.len() as int);
                SignedPublicKeyView::lemma_encode_decode(rest);
                match SignedPublicKeyView::decode_prefix(rest) {
                    Some((key, used)) => {
                        let all = keys.push(key);
                        assert(rest.subrange(0, used) =~= bytes.subrange(pos, pos + used));
                        lemma_encode_keys_prefix(all, keys, (n - 1) as nat);
                        assert(bytes.subrange(4, pos + used) =~= bytes.subrange(4, pos)
                            + bytes.subrange(pos, pos + used));
                    },
                    None => {},
                }
            },
            None => {},
        }
    }
}

/// The serialized forms of the first `n` keys depend on these keys alone.
pub proof fn lemma_encode_keys_prefix(
    a: Seq<SignedPublicKeyView>,
    b: Seq<SignedPublicKeyView>,
    n: nat,
)
    requires
        n <= a.len(),
        n <= b.len(),
        forall|i: int| 0 <= i < n ==> a[i] == b[i],
    ensures
        encode_keys(a, n) == encode_keys(b, n),
    decreases n,
{
    if n > 0 {
        lemma_encode_keys_prefix(a, b, (n - 1) as nat);
    }
}

/// Whatever decodes is well-formed, and serializing it gives the bytes back.
pub proof fn lemma_encode_decode(bytes: Seq<u8>)
    requires
        HssSignatureView::decode(bytes) is Some,
    ensures
        HssSignatureView::decode(bytes)->0.wf(),
        HssSignatureView::decode(bytes)->0.encode() == bytes,
{
    let n = from_be32(bytes) as nat;
    lemma_encode_decode_keys(bytes, n);
    match decode_keys(bytes, n) {
        Some((keys, pos)) => {
            let rest = bytes.subrange(pos, bytes.len() as int);
            crate::lms::signing::lemma_encode_decode(rest);
            crate::util::ustr::lemma_from_be32_roundtrip(bytes.subrange(0, 4));
            assert(from_be32(bytes.subrange(0, 4)) == from_be32(bytes));
            let sig = HssSignatureView::decode(bytes)->0;
            assert(rest.subrange(0, rest.len() as int) =~= rest);
            assert(sig.encode() =~= bytes.subrange(0, 4) + bytes.subrange(4, pos) + rest);
            assert(bytes.subrange(0, 4) + bytes.subrange(4, pos) + rest =~= bytes);
        },
        None => {},
    }
}

/// The signature that the stored key `key` makes over `message` when the
/// last level uses the randomizer `c`.
pub open spec fn signature_with<H: Hasher>(key: PrivateKeyView, c: Seq<u8>, message: Seq<u8>) -> HssSignatureView {
    let last = (key.params.len() - 1) as nat;
    HssSignatureView {
        signed_keys: Seq::new(
            last,
            |i: int|
                SignedPublicKeyView {
                    sig: signed_public_key::<H>(key, i as nat),
                    public_key: level_public_key::<H>(key, (i + 1) as nat),
                },
        ),
        sig: crate::lms::signing::signature_with::<H>(
            level_tree::<H>(key, last),
            level_index(key.params, key.q, last as int),
            c,
            message,
        ),
    }
}

/// The randomizer that the last level derives from its seed at the key's
/// counter.
pub open spec fn derived_randomizer<H: Hasher>(key: PrivateKeyView) -> Seq<u8> {
    let last = (key.params.len() - 1) as nat;
    randomizer::<H>(
        level_tree::<H>(key, last).seed,
        level_tree::<H>(key, last).id,
        level_index(key.params, key.q, last as int),
    )
}

/// The signature that the stored key `key` makes over `message`.
pub open spec fn signature<H: Hasher>(key: PrivateKeyView, message: Seq<u8>) -> HssSignatureView {
    signature_with::<H>(key, derived_randomizer::<H>(key), message)
}

/// The signature of an honest signer is well-formed.
pub proof fn lemma_signature_wf<H: Hasher>(key: PrivateKeyView, c: Seq<u8>, message: Seq<u8>)
    requires
        key.wf(),
        c.len() == 32,
    ensures
        signature_with::<H>(key, c, message).wf(),
        derived_randomizer::<H>(key).len() == 32,
{
    let sig = signature_with::<H>(key, c, message);
    let last = (key.params.len() - 1) as nat;
    crate::lms::signing::lemma_signature_wf::<H>(
        level_tree::<H>(key, last),
        level_index(key.params, key.q, last as int),
        c,
        message,
    );
    assert forall|i: int| 0 <= i < sig.signed_keys.len() implies (#[trigger] sig.signed_keys[i]).wf() by {
        let t = level_tree::<H>(key, i as nat);
        let q = level_index(key.params, key.q, i);
        lemma_level_tree::<H>(key, (i + 1) as nat);
        H::lemma_digest_len(
            t.id + be32(q) + crate::util::ustr::be16(crate::constants::D_RANDOMIZER)
                + seq![crate::constants::D_SECRET] + t.seed,
        );
        crate::lms::signing::lemma_signature_wf::<H>(
            t,
            q,
            randomizer::<H>(t.seed, t.id, q),
            encode_public_key(level_public_key::<H>(key, (i + 1) as nat)),
        );
    }
    let t = level_tree::<H>(key, last);
    let q = level_index(key.params, key.q, last as int);
    H::lemma_digest_len(
        t.id + be32(q) + crate::util::ustr::be16(crate::constants::D_RANDOMIZER)
            + seq![crate::constants::D_SECRET] + t.seed,
    );
}

/// The signed public keys of an expanded key, followed by the signature of
/// its last level, are the signature of the model.
proof fn lemma_assembled<H: Hasher>(
    private_key: &HssPrivateKey,
    result: HssSignatureView,
    c: Seq<u8>,
    message: Seq<u8>,
)
    requires
        private_key.expands::<H>(private_key.origin@),
        result.signed_keys.len() == private_key.origin@.params.len() - 1,
        forall|j: int|
            0 <= j < result.signed_keys.len() ==> #[trigger] result.signed_keys[j] == (SignedPublicKeyView {
                sig: private_key.signatures@[j]@,
                public_key: private_key.public_key@[j + 1]@,
            }),
        result.sig == crate::lms::signing::signature_with::<H>(
            level_tree::<H>(private_key.origin@, (private_key.origin@.params.len() - 1) as nat),
            level_index(
                private_key.origin@.params,
                private_key.origin@.q,
                private_key.origin@.params.len() - 1,
            ),
            c,
            message,
        ),
    ensures
        result == signature_with::<H>(private_key.origin@, c, message),
{
    reveal(HssPrivateKey::expands);
    reveal(HssPrivateKey::rooted);
    reveal(HssPrivateKey::shaped);
    let key = private_key.origin@;
    let model = signature_with::<H>(key, c, message);
    assert forall|j: int| 0 <= j < result.signed_keys.len() implies result.signed_keys[j]
        == model.signed_keys[j] by {
        assert(private_key.signatures@[j]@ == signed_public_key::<H>(key, j as nat));
        assert(private_key.public_key@[j + 1]@ == level_public_key::<H>(key, (j + 1) as nat));
    }
    assert(result.signed_keys =~= model.signed_keys);
}

impl HssSignature {
    /// See [`HssSignatureView::wf`].
    pub open spec fn wf(&self) -> bool {
        self@.wf()
    }

    /// Signs `message` with the last level of the expanded key
    /// `private_key`, using the randomizer `c`, and puts the signed public
    /// keys of the levels above in front. `nodes` is a cache of the nodes
    /// near the root of the top-level tree.
    pub fn sign_with_randomizer<H: Hasher>(
        private_key: &HssPrivateKey,
        c: &[u8; 32],
        message: &[u8],
        nodes: &[u8],
    ) -> (r: Result<HssSignature, ErrorKind>)
        requires
            private_key.well_shaped(),
        ensures
            r matches Err(e) ==> e == ErrorKind::Exhausted,
            r matches Ok(sig) ==> sig.wf(),
            private_key.private_key@.last().used_leafs_index
                < private_key.private_key@.last().end_leaf() <==> r is Ok,
            r matches Ok(sig) ==> (private_key.expands::<H>(private_key.origin@)
                && private_key.origin@.wf() && cache_faithful::<H>(
                level_tree::<H>(private_key.origin@, 0),
                nodes@,
            ) ==> sig@ == signature_with::<H>(private_key.origin@, c@, message@)),
    {
        proof {
            reveal(HssPrivateKey::well_shaped);
        }
        let levels = private_key.private_key.len();
        let mut bottom = private_key.private_key[levels - 1];
        let empty: Vec<u8> = Vec::new();
        let ghost ready = private_key.expands::<H>(private_key.origin@) && private_key.origin@.wf()
            && cache_faithful::<H>(level_tree::<H>(private_key.origin@, 0), nodes@);
        proof {
            lemma_empty_cache_faithful::<H>(bottom.tree(), empty@);
            if ready {
                reveal(HssPrivateKey::expands);
                private_key.lemma_bottom_tree::<H>();
            }
        }
        let signed = if levels == 1 {
            LmsSignature::sign_with_randomizer::<H>(&mut bottom, c, message, nodes)
        } else {
            LmsSignature::sign_with_randomizer::<H>(&mut bottom, c, message, empty.as_slice())
        };
        let signature = match signed {
            Ok(signature) => signature,
            Err(e) => {
                return Err(ErrorKind::Exhausted);
            },
        };
        let mut signed_public_keys: Vec<HssSignedPublicKey> = Vec::new();
        let mut i: usize = 0;
        while i + 1 < levels
            invariant
                i < levels,
                levels == private_key.private_key@.len(),
                private_key.public_key@.len() == levels,
                private_key.signatures@.len() == levels - 1,
                signed_public_keys@.len() == i,
                forall|j: int|
                    0 <= j < i ==> (#[trigger] signed_public_keys@[j])@ == (SignedPublicKeyView {
                        sig: private_key.signatures@[j]@,
                        public_key: private_key.public_key@[j + 1]@,
                    }),
            decreases levels - i,
        {
            signed_public_keys.push(
                HssSignedPublicKey {
                    sig: private_key.signatures[i].duplicate(),
                    public_key: private_key.public_key[i + 1],
                },
            );
            i = i + 1;
        }
        let result = HssSignature { signed_public_keys, signature };
        proof {
            assert forall|j: int| 0 <= j < result@.signed_keys.len() implies (
            #[trigger] result@.signed_keys[j]).wf() by {
                assert(result@.signed_keys[j] == signed_public_keys@[j]@);
                assert(private_key.signatures@[j].wf());
            }
            if ready {
                lemma_assembled::<H>(private_key, result@, c@, message@);
            }
        }
        Ok(result)
    }

    /// Signs `message` with the last level of the expanded key
    /// `private_key`, with the randomizer derived from that level's seed.
    pub fn sign<H: Hasher>(private_key: &HssPrivateKey, message: &[u8], nodes: &[u8]) -> (r: Result<
        HssSignature,
        ErrorKind,
    >)
        requires
            private_key.well_shaped(),
        ensures
            r matches Err(e) ==> e == ErrorKind::Exhausted,
            r matches Ok(sig) ==> sig.wf(),
            private_key.private_key@.last().used_leafs_index
                < private_key.private_key@.last().end_leaf() <==> r is Ok,
            r matches Ok(sig) ==> (private_key.expands::<H>(private_key.origin@)
                && private_key.origin@.wf() && cache_faithful::<H>(
                level_tree::<H>(private_key.origin@, 0),
                nodes@,
            ) ==> sig@ == signature::<H>(private_key.origin@, message@)),
    {
        proof {
            reveal(HssPrivateKey::well_shaped);
        }
        let levels = private_key.private_key.len();
        let bottom = &private_key.private_key[levels - 1];
        let c = derive_randomizer::<H>(
            &bottom.seed,
            &bottom.lms_tree_identifier,
            bottom.used_leafs_index,
        );
        let r = Self::sign_with_randomizer::<H>(private_key, &c, message, nodes);
        proof {
            let key = private_key.origin@;
            if private_key.expands::<H>(key) && key.wf() {
                reveal(HssPrivateKey::expands);
                private_key.lemma_bottom_tree::<H>();
                assert(c@ == derived_randomizer::<H>(key));
            }
        }
        r
    }

    /// The serialized form.
    pub fn to_binary_representation(&self) -> (bytes: Vec<u8>)
        requires
            self@.signed_keys.len() <= 7,
        ensures
            bytes@ == self@.encode(),
    {
        let n = self.signed_public_keys.len();
        let mut bytes: Vec<u8> = Vec::new();
        bytes.extend_from_slice(u32str(n as u32).as_slice());
        let mut i: usize = 0;
        while i < n
            invariant
                i <= n,
                n == self.signed_public_keys@.len(),
                n <= 7,
                bytes@ == be32(n as u32) + encode_keys(self@.signed_keys, i as nat),
            decreases n - i,
        {
            let ghost before = bytes@;
            let sig = self.signed_public_keys[i].sig.to_binary_representation();
            let key = self.signed_public_keys[i].public_key.to_binary_representation();
            bytes.extend_from_slice(sig.as_slice());
            bytes.extend_from_slice(key.as_slice());
            assert(bytes@ =~= before + (sig@ + key@));
            assert(self@.signed_keys[i as int] == self.signed_public_keys@[i as int]@);
            assert(bytes@ =~= be32(n as u32) + encode_keys(self@.signed_keys, (i + 1) as nat));
            i = i + 1;
        }
        let sig = self.signature.to_binary_representation();
        bytes.extend_from_slice(sig.as_slice());
        bytes
    }

    /// Reads a serialized signature.
    pub fn from_binary_representation(data: &[u8]) -> (r: Result<HssSignature, ErrorKind>)
        ensures
            match HssSignatureView::decode(data@) {
                Some(sig) => r matches Ok(s) && s@ == sig && s.wf(),
                None => r == Err::<HssSignature, ErrorKind>(ErrorKind::Parse),
            },
    {
        if data.len() < 4 {
            return Err(ErrorKind::Parse);
        }
        let n = str32u(data);
        if n > 7 {
            return Err(ErrorKind::Parse);
        }
        let mut signed_public_keys: Vec<HssSignedPublicKey> = Vec::new();
        let mut pos: usize = 4;
        let mut i: u32 = 0;
        while i < n
            invariant
                i <= n <= 7,
                n == from_be32(data@),
                4 <= pos <= data@.len(),
                signed_public_keys@.len() == i,
                decode_keys(data@, i as nat) == Some((keys_view(signed_public_keys@), pos as int)),
                forall|j: int| 0 <= j < i ==> (#[trigger] signed_public_keys@[j])@.wf(),
            decreases n - i,
        {
            let rest = &data[pos..data.len()];
            let ghost before = signed_public_keys@;
            let (key, used) = match HssSignedPublicKey::parse_prefix(rest) {
                Ok(parsed) => parsed,
                Err(e) => {
                    proof {
                        assert(decode_keys(data@, (i + 1) as nat) is None);
                        lemma_decode_keys_none(data@, (i + 1) as nat, n as nat);
                    }
                    return Err(ErrorKind::Parse);
                },
            };
            proof {
                SignedPublicKeyView::lemma_encode_decode(rest@);
            }
            signed_public_keys.push(key);
            proof {
                assert(keys_view(signed_public_keys@) =~= keys_view(before).push(key@));
            }
            pos = pos + used;
            i = i + 1;
        }
        let signature = match LmsSignature::from_binary_representation(&data[pos..data.len()]) {
            Ok(signature) => signature,
            Err(e) => {
                return Err(ErrorKind::Parse);
            },
        };
        let result = HssSignature { signed_public_keys, signature };
        proof {
            assert forall|j: int| 0 <= j < result@.signed_keys.len() implies (
            #[trigger] result@.signed_keys[j]).wf() by {
                assert(result@.signed_keys[j] == signed_public_keys@[j]@);
            }
        }
        Ok(result)
    }
}

} // verus!
