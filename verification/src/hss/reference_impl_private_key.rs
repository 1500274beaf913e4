//! The stored form of a private key: the used-leaves counter, the
//! parameter list, the master seed and, for a signing entity that owns only
//! a part of the top-level tree, the single-subtree extension.
//!
//! Everything else that signing needs is recomputed from these.

use crate::constants::{
    D_TOP_IDENTIFIER, D_TOP_SEED, MAX_ALLOWED_HSS_LEVELS, PARAMETER_SET_END,
    REFERENCE_IMPL_PRIVATE_KEY_SIZE,
};
use crate::error::ErrorKind;
use crate::hasher::{digest, hash, Hasher};
use crate::hss::parameter::{
    lemma_height_from, params_valid, sum_heights, total_height, total_lifetime, HssParameter,
};
use crate::lm_ots::parameter::{LmotsAlgorithm, LmotsParameter};
use crate::lms::parameter::LmsAlgorithm;
use crate::sst::parameters::SstExtension;
use crate::util::helper::{lemma_pow2_monotonic, pow2_u64, to_array16, to_array32};
use crate::util::ustr::{
    be16, be64, from_be64, lemma_be64_roundtrip, lemma_from_be64_roundtrip, str64u, u16str,
    u64str,
};
use vstd::arithmetic::power2::{lemma_pow2_adds, pow2};
use vstd::prelude::*;

verus! {

/// The byte that stands for one level in a stored key: the LMS type code
/// in the upper four bits, the LM-OTS type code in the lower four.
pub open spec fn compress_one(p: HssParameter) -> u8 {
    (p.lms().type_code() * 16 + p.ots().type_code()) as u8
}

/// The level that a byte of a stored key stands for, if it stands for one.
pub open spec fn decompress_one(b: u8) -> Option<HssParameter> {
    match (LmsAlgorithm::of_type((b / 16) as u32), LmotsAlgorithm::of_type((b % 16) as u32)) {
        (Some(lms), Some(ots)) => Some(HssParameter::of(ots, lms)),
        _ => None,
    }
}

/// The eight bytes that stand for a parameter list: one byte for each
/// level, then end markers.
pub open spec fn compress(params: Seq<HssParameter>) -> Seq<u8> {
    Seq::new(
        MAX_ALLOWED_HSS_LEVELS as nat,
        |i: int|
            if i < params.len() {
                compress_one(params[i])
            } else {
                PARAMETER_SET_END
            },
    )
}

/// The number of bytes from position `i` on that come before the first end
/// marker.
pub open spec fn leading(c: Seq<u8>, i: int) -> nat
    decreases c.len() - i,
{
    if i < 0 || i >= c.len() || c[i] == PARAMETER_SET_END {
        0
    } else {
        1 + leading(c, i + 1)
    }
}

/// The parameter list that eight bytes stand for, if they stand for one:
/// at least one level, every level a known pair of type codes, and nothing
/// but end markers after the last.
pub open spec fn decompress(c: Seq<u8>) -> Option<Seq<HssParameter>> {
    let levels = leading(c, 0);
    if levels >= 1 && (forall|i: int| 0 <= i < levels ==> (#[trigger] decompress_one(c[i])) is Some)
        && (forall|i: int| levels <= i < c.len() ==> #[trigger] c[i] == PARAMETER_SET_END) {
        Some(Seq::new(levels, |i: int| decompress_one(c[i])->0))
    } else {
        None
    }
}

/// The mathematical value of a stored private key.
pub struct PrivateKeyView {
    /// The number of signatures made so far, counted over the whole
    /// top-level tree.
    pub q: u64,
    pub params: Seq<HssParameter>,
    pub seed: Seq<u8>,
    pub sst: Option<SstExtension>,
}

impl PrivateKeyView {
    /// The number of signatures that the leaves below one subtree of the
    /// division stand for; the whole lifetime where there is no division.
    pub open spec fn share(self) -> nat {
        match self.sst {
            Some(ext) => pow2((total_height(self.params) - ext.top_div_height) as nat),
            None => total_lifetime(self.params),
        }
    }

    /// The counter of the first signature that this key may make.
    pub open spec fn start_count(self) -> nat {
        match self.sst {
            Some(ext) => ext.signing_entity_idx as nat * self.share(),
            None => 0,
        }
    }

    /// The counter at which this key is used up.
    pub open spec fn end_count(self) -> nat {
        match self.sst {
            Some(ext) => (ext.signing_entity_idx as nat + 1) * self.share(),
            None => total_lifetime(self.params),
        }
    }

    /// The parameter list is valid, the seed has 32 bytes, and a
    /// single-subtree extension fits the top-level tree and the counter is
    /// not before the entity's first leaf.
    pub open spec fn wf(self) -> bool {
        &&& params_valid(self.params)
        &&& self.seed.len() == 32
        &&& self.sst matches Some(ext) ==> ext.fits(self.params[0].lms().height()) && self.q
            >= self.start_count()
    }

    /// The number of signatures that this key can still make.
    pub open spec fn remaining(self) -> nat {
        if self.q >= self.end_count() {
            0
        } else {
            (self.end_count() - self.q) as nat
        }
    }

    /// The number of signatures that this key has made.
    pub open spec fn used(self) -> nat {
        if self.q >= self.end_count() {
            (self.end_count() - self.start_count()) as nat
        } else {
            (self.q - self.start_count()) as nat
        }
    }

    /// The key after one more signature: the counter moves on by one, and
    /// the seed is wiped when that uses the key up.
    pub open spec fn advanced(self) -> PrivateKeyView {
        PrivateKeyView {
            q: (self.q + 1) as u64,
            seed: if self.q + 1 == self.end_count() {
                Seq::new(32, |i: int| 0u8)
            } else {
                self.seed
            },
            ..self
        }
    }

    /// The stored form: `u64(q) ‖ levels ‖ seed`, followed by the index of
    /// the signing entity and the height of the division where the key has
    /// a single-subtree extension.
    pub open spec fn encode(self) -> Seq<u8> {
        let head = be64(self.q) + compress(self.params) + self.seed;
        match self.sst {
            Some(ext) => head + seq![ext.signing_entity_idx, ext.top_div_height],
            None => head,
        }
    }

    /// The key that `bytes` is the stored form of, if there is one.
    pub open spec fn decode(bytes: Seq<u8>) -> Option<PrivateKeyView> {
        if bytes.len() != 48 && bytes.len() != 50 {
            None
        } else {
            match decompress(bytes.subrange(8, 16)) {
                None => None,
                Some(params) => {
                    let key = PrivateKeyView {
                        q: from_be64(bytes),
                        params,
                        seed: bytes.subrange(16, 48),
                        sst: if bytes.len() == 50 {
                            Some(
                                SstExtension {
                                    signing_entity_idx: bytes[48],
                                    top_div_height: bytes[49],
                                },
                            )
                        } else {
                            None
                        },
                    };
                    if key.wf() {
                        Some(key)
                    } else {
                        None
                    }
                },
            }
        }
    }

    /// The counts of a key are in order and fit 63 bits, whatever its
    /// counter.
    pub proof fn lemma_counts(self)
        requires
            params_valid(self.params),
            self.sst matches Some(ext) ==> ext.fits(self.params[0].lms().height()),
        ensures
            self.start_count() < self.end_count() <= total_lifetime(self.params),
            total_lifetime(self.params) <= 0x8000_0000_0000_0000,
            self.share() >= 1,
            self.end_count() - self.start_count() == self.share(),
            self.q >= self.start_count() ==> self.remaining() + self.used() == self.share(),
    {
        let total = total_height(self.params);
        lemma_pow2_monotonic(total, 63);
        lemma_pow2_monotonic(0, total);
        vstd::arithmetic::power2::lemma2_to64_rest();
        match self.sst {
            Some(ext) => {
                let d = ext.top_div_height as nat;
                lemma_height_from(self.params, 0);
                lemma_pow2_adds(d, (total - d) as nat);
                lemma_pow2_monotonic(0, (total - d) as nat);
                let e = ext.signing_entity_idx as nat;
                let share = self.share();
                assert((e + 1) * share <= pow2(d) * share) by (nonlinear_arith)
                    requires
                        e + 1 <= pow2(d),
                        share >= 1,
                ;
                assert((e + 1) * share == e * share + share) by (nonlinear_arith);
            },
            None => {},
        }
    }

    /// At all times the signatures that a key has made and those that it
    /// can still make add up to its share of the lifetime: the total
    /// lifetime where the key owns the whole top-level tree.
    pub proof fn lemma_lifetime(self)
        requires
            self.wf(),
        ensures
            self.remaining() + self.used() == self.share(),
            self.sst is None ==> self.share() == total_lifetime(self.params) && (self.q
                <= total_lifetime(self.params) ==> self.remaining() + self.q == total_lifetime(
                self.params,
            )),
    {
        self.lemma_counts();
    }

    /// Advancing a key that is not used up keeps it well-formed, uses one
    /// signature more and leaves one less.
    pub proof fn lemma_advanced(self)
        requires
            self.wf(),
            self.q < self.end_count(),
        ensures
            self.advanced().wf(),
            self.advanced().q == self.q + 1,
            self.advanced().remaining() + 1 == self.remaining(),
            self.advanced().used() == self.used() + 1,
            self.advanced().params == self.params,
            self.advanced().sst == self.sst,
    {
        self.lemma_counts();
    }
}

/// A level and the byte that stands for it determine each other.
pub proof fn lemma_compress_one(p: HssParameter)
    ensures
        decompress_one(compress_one(p)) == Some(p),
        compress_one(p) != PARAMETER_SET_END,
{
    p.lms().lemma_of_type();
    p.ots().lemma_of_type();
}

/// A byte that stands for a level is the byte of that level.
pub proof fn lemma_decompress_one(b: u8)
    requires
        decompress_one(b) is Some,
    ensures
        compress_one(decompress_one(b)->0) == b,
        b != PARAMETER_SET_END,
{
}

/// The bytes of a parameter list have as many leading level bytes as the
/// list has levels.
pub proof fn lemma_leading_compress(params: Seq<HssParameter>, i: int)
    requires
        params.len() <= 8,
        0 <= i <= params.len(),
    ensures
        leading(compress(params), i) == params.len() - i,
    decreases params.len() - i,
{
    if i < params.len() {
        lemma_compress_one(params[i]);
        lemma_leading_compress(params, i + 1);
    }
}

/// The bytes of a parameter list stand for that list.
pub proof fn lemma_decompress_compress(params: Seq<HssParameter>)
    requires
        1 <= params.len() <= 8,
    ensures
        compress(params).len() == 8,
        decompress(compress(params)) == Some(params),
{
    let c = compress(params);
    lemma_leading_compress(params, 0);
    assert forall|i: int| 0 <= i < params.len() implies (#[trigger] decompress_one(c[i])) == Some(
        params[i],
    ) by {
        lemma_compress_one(params[i]);
    }
    assert(Seq::new(params.len(), |i: int| decompress_one(c[i])->0) =~= params);
}

/// There are no more leading level bytes than bytes, and the byte after
/// them, if there is one, is an end marker.
pub proof fn lemma_leading_bound(c: Seq<u8>, i: int)
    requires
        0 <= i <= c.len(),
    ensures
        i + leading(c, i) <= c.len(),
        i + leading(c, i) < c.len() ==> c[i + leading(c, i)] == PARAMETER_SET_END,
        forall|j: int| i <= j < i + leading(c, i) ==> c[j] != PARAMETER_SET_END,
    decreases c.len() - i,
{
    if i < c.len() && c[i] != PARAMETER_SET_END {
        lemma_leading_bound(c, i + 1);
    }
}

/// Eight bytes that stand for a parameter list are the bytes of that list.
pub proof fn lemma_compress_decompress(c: Seq<u8>)
    requires
        c.len() == 8,
        decompress(c) is Some,
    ensures
        1 <= decompress(c)->0.len() <= 8,
        compress(decompress(c)->0) == c,
{
    let params = decompress(c)->0;
    lemma_leading_bound(c, 0);
    assert forall|i: int| 0 <= i < 8 implies compress(params)[i] == c[i] by {
        if i < params.len() {
            assert(decompress_one(c[i]) is Some);
            lemma_decompress_one(c[i]);
        }
    }
    assert(compress(params) =~= c);
}

/// Reading the stored form of a well-formed key gives the key back.
pub proof fn lemma_decode_encode(key: PrivateKeyView)
    requires
        key.wf(),
    ensures
        key.encode().len() == 48 || key.encode().len() == 50,
        key.sst is None <==> key.encode().len() == REFERENCE_IMPL_PRIVATE_KEY_SIZE,
        PrivateKeyView::decode(key.encode()) == Some(key),
{
    let bytes = key.encode();
    lemma_be64_roundtrip(key.q);
    lemma_decompress_compress(key.params);
    assert(bytes.subrange(8, 16) =~= compress(key.params));
    assert(bytes.subrange(16, 48) =~= key.seed);
    assert(bytes.subrange(0, 8) =~= be64(key.q));
    assert(from_be64(bytes) == from_be64(bytes.subrange(0, 8))) by {
        assert(bytes.subrange(0, 8).subrange(4, 8) =~= bytes.subrange(4, 8));
    }
}

/// Whatever is read from a stored form is well-formed, and storing it gives
/// the bytes back.
pub proof fn lemma_encode_decode(bytes: Seq<u8>)
    requires
        PrivateKeyView::decode(bytes) is Some,
    ensures
        PrivateKeyView::decode(bytes)->0.wf(),
        PrivateKeyView::decode(bytes)->0.encode() == bytes,
{
    let key = PrivateKeyView::decode(bytes)->0;
    lemma_compress_decompress(bytes.subrange(8, 16));
    lemma_from_be64_roundtrip(bytes.subrange(0, 8));
    assert(from_be64(bytes) == from_be64(bytes.subrange(0, 8))) by {
        assert(bytes.subrange(0, 8).subrange(4, 8) =~= bytes.subrange(4, 8));
    }
    assert(key.encode() =~= bytes);
}

/// The seed of the top-level tree: the hash of `D_TOP_SEED ‖ master seed`.
pub open spec fn root_seed<H: Hasher>(master: Seq<u8>) -> Seq<u8> {
    hash::<H>(be16(D_TOP_SEED) + master)
}

/// The identifier of the top-level tree: the first 16 bytes of the hash of
/// `D_TOP_IDENTIFIER ‖ master seed`.
pub open spec fn root_identifier<H: Hasher>(master: Seq<u8>) -> Seq<u8> {
    hash::<H>(be16(D_TOP_IDENTIFIER) + master).subrange(0, 16)
}

/// The seed and the identifier of a tree.
pub struct SeedAndLmsTreeIdentifier {
    pub seed: [u8; 32],
    pub lms_tree_identifier: [u8; 16],
}

/// A private key as it is stored.
pub struct ReferenceImplPrivateKey {
    pub compressed_used_leafs_indexes: u64,
    pub parameters: Vec<HssParameter>,
    pub seed: [u8; 32],
    pub sst_option: Option<SstExtension>,
}

impl View for ReferenceImplPrivateKey {
    type V = PrivateKeyView;

    open spec fn view(&self) -> PrivateKeyView {
        PrivateKeyView {
            q: self.compressed_used_leafs_indexes,
            params: self.parameters@,
            seed: self.seed@,
            sst: self.sst_option,
        }
    }
}

/// The byte that stands for a level.
fn compress_parameter(p: &HssParameter) -> (b: u8)
    ensures
        b == compress_one(*p),
{
    proof {
        p.lms().lemma_of_type();
        p.ots().lemma_of_type();
    }
    (p.get_lms_parameter().get_type() * 16 + p.get_lmots_parameter().get_type()) as u8
}

/// The level that a byte stands for.
fn decompress_parameter(b: u8) -> (p: Option<HssParameter>)
    ensures
        p == decompress_one(b),
{
    let lms = LmsAlgorithm::from_type((b / 16) as u32);
    let ots = LmotsAlgorithm::from_type((b % 16) as u32);
    match (lms, ots) {
        (Some(lms), Some(ots)) => Some(HssParameter::new(ots, lms)),
        _ => None,
    }
}

/// The parameter list that the eight bytes `c` stand for.
fn decompress_parameters(c: &[u8]) -> (r: Option<Vec<HssParameter>>)
    requires
        c@.len() == 8,
    ensures
        match decompress(c@) {
            Some(params) => r matches Some(v) && v@ == params,
            None => r is None,
        },
{
    let mut parameters: Vec<HssParameter> = Vec::new();
    let mut i: usize = 0;
    while i < 8 && c[i] != PARAMETER_SET_END
        invariant
            i <= 8,
            c@.len() == 8,
            parameters@.len() == i,
            i + leading(c@, i as int) == leading(c@, 0),
            forall|j: int| 0 <= j < i ==> decompress_one(c@[j]) == Some(#[trigger] parameters@[j]),
        decreases 8 - i,
    {
        match decompress_parameter(c[i]) {
            Some(p) => {
                parameters.push(p);
            },
            None => {
                proof {
                    lemma_leading_bound(c@, 0);
                    assert(i < leading(c@, 0));
                    assert(decompress_one(c@[i as int]) is None);
                }
                return None;
            },
        }
        i = i + 1;
    }
    proof {
        lemma_leading_bound(c@, i as int);
        assert(leading(c@, i as int) == 0);
    }
    let levels = i;
    if levels == 0 {
        return None;
    }
    while i < 8
        invariant
            levels <= i <= 8,
            c@.len() == 8,
            levels == leading(c@, 0),
            forall|j: int| levels <= j < i ==> c@[j] == PARAMETER_SET_END,
        decreases 8 - i,
    {
        if c[i] != PARAMETER_SET_END {
            return None;
        }
        i = i + 1;
    }
    proof {
        assert forall|j: int| 0 <= j < levels implies (#[trigger] decompress_one(c@[j])) is Some by {
            assert(decompress_one(c@[j]) == Some(parameters@[j]));
        }
        assert(parameters@ =~= Seq::new(levels as nat, |j: int| decompress_one(c@[j])->0));
    }
    Some(parameters)
}

impl ReferenceImplPrivateKey {
    /// See [`PrivateKeyView::wf`].
    pub open spec fn wf(&self) -> bool {
        self@.wf()
    }

    /// A fresh key for the whole of the top-level tree.
    pub fn generate(parameters: &[HssParameter], seed: &[u8; 32]) -> (r: Result<
        ReferenceImplPrivateKey,
        ErrorKind,
    >)
        ensures
            !params_valid(parameters@) ==> r == Err::<ReferenceImplPrivateKey, ErrorKind>(
                ErrorKind::InvalidParameter,
            ),
            params_valid(parameters@) ==> (r matches Ok(key) && key.wf() && key@ == (PrivateKeyView {
                q: 0,
                params: parameters@,
                seed: seed@,
                sst: None,
            })),
    {
        match sum_heights(parameters) {
            None => Err(ErrorKind::InvalidParameter),
            Some(total) => {
                let mut list: Vec<HssParameter> = Vec::new();
                list.extend_from_slice(parameters);
                assert(list@ =~= parameters@);
                Ok(
                    ReferenceImplPrivateKey {
                        compressed_used_leafs_indexes: 0,
                        parameters: list,
                        seed: *seed,
                        sst_option: None,
                    },
                )
            },
        }
    }

    /// A fresh key for the signing entity `ext` of a divided top-level
    /// tree: its counter starts at the entity's first leaf.
    pub fn generate_for_entity(parameters: &[HssParameter], seed: &[u8; 32], ext: SstExtension) -> (r:
        Result<ReferenceImplPrivateKey, ErrorKind>)
        ensures
            !(params_valid(parameters@) && ext.fits(parameters@[0].lms().height())) ==> r == Err::<
                ReferenceImplPrivateKey,
                ErrorKind,
            >(ErrorKind::InvalidParameter),
            params_valid(parameters@) && ext.fits(parameters@[0].lms().height()) ==> (r matches Ok(key)
                && key.wf() && key@.params == parameters@ && key@.seed == seed@ && key@.sst == Some(
                ext,
            ) && key@.q == key@.start_count()),
    {
        match sum_heights(parameters) {
            None => Err(ErrorKind::InvalidParameter),
            Some(total) => {
                if !ext.check(parameters[0].get_lms_parameter()) {
                    return Err(ErrorKind::InvalidParameter);
                }
                let mut list: Vec<HssParameter> = Vec::new();
                list.extend_from_slice(parameters);
                assert(list@ =~= parameters@);
                let mut key = ReferenceImplPrivateKey {
                    compressed_used_leafs_indexes: 0,
                    parameters: list,
                    seed: *seed,
                    sst_option: Some(ext),
                };
                proof {
                    lemma_height_from(parameters@, 0);
                    lemma_pow2_monotonic((total - ext.top_div_height) as nat, 63);
                    vstd::arithmetic::power2::lemma2_to64_rest();
                    lemma_pow2_monotonic(ext.top_div_height as nat, 8);
                    vstd::arithmetic::power2::lemma2_to64();
                    let e = ext.signing_entity_idx as nat;
                    let share = key@.share();
                    assert(e * share <= 255 * share) by (nonlinear_arith)
                        requires
                            e <= 255,
                            share >= 0,
                    ;
                    key@.lemma_counts();
                }
                let share = pow2_u64(total - ext.top_div_height as u32);
                key.compressed_used_leafs_indexes = ext.signing_entity_idx as u64 * share;
                Ok(key)
            },
        }
    }

    /// Two to the sum of the tree heights minus `less`.
    fn pow2_total_less(&self, less: u8) -> (r: u64)
        requires
            params_valid(self@.params),
            less <= total_height(self@.params),
        ensures
            r == pow2((total_height(self@.params) - less) as nat),
    {
        let total = match sum_heights(self.parameters.as_slice()) {
            Some(total) => total,
            None => 0,
        };
        pow2_u64(total - less as u32)
    }

    /// The counter at which this key is used up.
    pub fn get_end_count(&self) -> (end: u64)
        requires
            self.wf(),
        ensures
            end == self@.end_count(),
    {
        proof {
            self@.lemma_counts();
            lemma_height_from(self@.params, 0);
        }
        match self.sst_option {
            Some(ext) => {
                let share = self.pow2_total_less(ext.top_div_height);
                (ext.signing_entity_idx as u64 + 1) * share
            },
            None => self.pow2_total_less(0),
        }
    }

    /// The number of signatures that this key can still make.
    pub fn get_lifetime(&self) -> (lifetime: u64)
        requires
            self.wf(),
        ensures
            lifetime == self@.remaining(),
    {
        let end = self.get_end_count();
        if self.compressed_used_leafs_indexes >= end {
            0
        } else {
            end - self.compressed_used_leafs_indexes
        }
    }

    /// Moves the key on by one signature, and wipes the seed when that uses
    /// the key up.
    pub fn increment(&mut self)
        requires
            old(self).wf(),
            old(self)@.q < old(self)@.end_count(),
        ensures
            final(self)@ == old(self)@.advanced(),
            final(self).wf(),
    {
        proof {
            self@.lemma_counts();
            self@.lemma_advanced();
        }
        let end = self.get_end_count();
        self.compressed_used_leafs_indexes = self.compressed_used_leafs_indexes + 1;
        if self.compressed_used_leafs_indexes == end {
            self.seed = [0u8; 32];
            assert(self.seed@ =~= Seq::new(32, |i: int| 0u8));
        }
    }

    /// The stored form.
    pub fn to_binary_representation(&self) -> (bytes: Vec<u8>)
        requires
            self.wf(),
        ensures
            bytes@ == self@.encode(),
            bytes@.len() == 48 || bytes@.len() == 50,
    {
        let mut bytes: Vec<u8> = Vec::new();
        bytes.extend_from_slice(u64str(self.compressed_used_leafs_indexes).as_slice());
        let mut i: usize = 0;
        while i < MAX_ALLOWED_HSS_LEVELS
            invariant
                i <= 8,
                self.parameters@.len() <= 8,
                bytes@.len() == 8 + i,
                bytes@.subrange(0, 8) == be64(self.compressed_used_leafs_indexes),
                forall|j: int| 0 <= j < i ==> bytes@[8 + j] == compress(self.parameters@)[j],
            decreases 8 - i,
        {
            let ghost before = bytes@;
            if i < self.parameters.len() {
                bytes.push(compress_parameter(&self.parameters[i]));
            } else {
                bytes.push(PARAMETER_SET_END);
            }
            assert(bytes@.subrange(0, 8) =~= before.subrange(0, 8));
            i = i + 1;
        }
        assert(bytes@ =~= be64(self.compressed_used_leafs_indexes) + compress(self.parameters@));
        bytes.extend_from_slice(self.seed.as_slice());
        match self.sst_option {
            Some(ext) => {
                bytes.push(ext.signing_entity_idx);
                bytes.push(ext.top_div_height);
                assert(bytes@ =~= be64(self.compressed_used_leafs_indexes) + compress(
                    self.parameters@,
                ) + self.seed@ + seq![ext.signing_entity_idx, ext.top_div_height]);
            },
            None => {},
        }
        bytes
    }

    /// Reads a stored key.
    pub fn from_binary_representation(data: &[u8]) -> (r: Result<ReferenceImplPrivateKey, ErrorKind>)
        ensures
            match PrivateKeyView::decode(data@) {
                Some(key) => r matches Ok(k) && k@ == key && k.wf(),
                None => r == Err::<ReferenceImplPrivateKey, ErrorKind>(ErrorKind::Parse),
            },
    {
        if data.len() != 48 && data.len() != 50 {
            return Err(ErrorKind::Parse);
        }
        let parameters = match decompress_parameters(&data[8..16]) {
            Some(parameters) => parameters,
            None => {
                return Err(ErrorKind::Parse);
            },
        };
        let total = match sum_heights(parameters.as_slice()) {
            Some(total) => total,
            None => {
                return Err(ErrorKind::Parse);
            },
        };
        let q = str64u(data);
        let sst_option = if data.len() == 50 {
            Some(SstExtension { signing_entity_idx: data[48], top_div_height: data[49] })
        } else {
            None
        };
        let lms = parameters[0].get_lms_parameter();
        let key = ReferenceImplPrivateKey {
            compressed_used_leafs_indexes: q,
            parameters,
            seed: to_array32(&data[16..48]),
            sst_option,
        };
        match sst_option {
            Some(ext) => {
                if !ext.check(lms) {
                    return Err(ErrorKind::Parse);
                }
                proof {
                    lemma_height_from(key@.params, 0);
                    key@.lemma_counts();
                }
                let share = key.pow2_total_less(ext.top_div_height);
                if q < ext.signing_entity_idx as u64 * share {
                    return Err(ErrorKind::Parse);
                }
            },
            None => {},
        }
        Ok(key)
    }

    /// The seed and the identifier of the top-level tree.
    pub fn generate_root_seed_and_lms_tree_identifier<H: Hasher>(&self) -> (r: SeedAndLmsTreeIdentifier)
        ensures
            r.seed@ == root_seed::<H>(self@.seed),
            r.lms_tree_identifier@ == root_identifier::<H>(self@.seed),
    {
        let mut preimage: Vec<u8> = Vec::new();
        preimage.extend_from_slice(u16str(D_TOP_SEED).as_slice());
        preimage.extend_from_slice(self.seed.as_slice());
        assert(preimage@ =~= be16(D_TOP_SEED) + self.seed@);
        let seed = digest::<H>(preimage.as_slice());
        let mut preimage: Vec<u8> = Vec::new();
        preimage.extend_from_slice(u16str(D_TOP_IDENTIFIER).as_slice());
        preimage.extend_from_slice(self.seed.as_slice());
        assert(preimage@ =~= be16(D_TOP_IDENTIFIER) + self.seed@);
        let long = digest::<H>(preimage.as_slice());
        let lms_tree_identifier = to_array16(&long.as_slice()[0..16]);
        SeedAndLmsTreeIdentifier { seed, lms_tree_identifier }
    }
}

} // verus!
