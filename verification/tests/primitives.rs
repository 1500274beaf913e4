use hbs_lms::error::ErrorKind;
use hbs_lms::hasher::sha256::Sha256Hasher;
use hbs_lms::hasher::shake256::Shake256Hasher;
use hbs_lms::hasher::{digest, Hasher};
use hbs_lms::lm_ots::definitions::{hash_chain, hash_chain_step};
use hbs_lms::lm_ots::parameter::{LmotsAlgorithm, LmotsParameter};
use hbs_lms::lm_ots::signing::{generate_public_key, LmotsSignature};
use hbs_lms::lm_ots::verify::{
    count_verification_steps, generate_public_key_candidate, verify_signature,
};
use hbs_lms::lms::definitions::{LmsPrivateKey, LmsPublicKey};
use hbs_lms::lms::helper::{get_tree_element, hash_inner, hash_leaf};
use hbs_lms::lms::parameter::LmsAlgorithm;
use hbs_lms::lms::signing::LmsSignature;
use hbs_lms::util::coef::coef;
use hbs_lms::util::helper::{bytes_eq, is_zero, pow2_u64};
use hbs_lms::util::ustr::{str32u, str64u, u16str, u32str, u64str};

fn hex(bytes: &[u8]) -> String {
    let mut text = String::new();
    for byte in bytes {
        text.push_str(&format!("{:02x}", byte));
    }
    text
}

const ALL: [LmotsAlgorithm; 4] = [
    LmotsAlgorithm::LmotsW1,
    LmotsAlgorithm::LmotsW2,
    LmotsAlgorithm::LmotsW4,
    LmotsAlgorithm::LmotsW8,
];

#[test]
fn sha256_of_known_inputs() {
    assert_eq!(
        hex(&digest::<Sha256Hasher>(b"abc")),
        "ba7816bf8f01cfea414140de5dae2223b00361a396177a9cb410ff61f20015ad"
    );
    assert_eq!(
        hex(&digest::<Sha256Hasher>(b"")),
        "e3b0c44298fc1c149afbf4c8996fb92427ae41e4649b934ca495991b7852b855"
    );
}

#[test]
fn shake256_of_known_inputs() {
    assert_eq!(
        hex(&digest::<Shake256Hasher>(b"")),
        "46b9dd2b0ba88d13233b3feb743eeb243fcd52ea62b81b82b50c27646ed5762f"
    );
    assert_ne!(
        digest::<Shake256Hasher>(b"abc"),
        digest::<Sha256Hasher>(b"abc")
    );
}

fn streaming_matches_one_shot<T: Hasher>() {
    let mut hasher = T::new();
    hasher.update(b"a");
    hasher.update(b"");
    hasher.update(b"bc");
    let first = hasher.finalize_reset();
    assert_eq!(first, digest::<T>(b"abc"));
    assert_eq!(hasher.finalize_reset(), digest::<T>(b""));
    hasher.update(b"abc");
    assert_eq!(hasher.finalize(), first);
    assert_eq!(T::new().chain(b"ab").chain(b"c").finalize(), first);
    assert_eq!(T::OUTPUT_SIZE, 32);
}

#[test]
fn streaming_sha256_matches_one_shot() {
    streaming_matches_one_shot::<Sha256Hasher>();
}

#[test]
fn streaming_shake256_matches_one_shot() {
    streaming_matches_one_shot::<Shake256Hasher>();
}

#[test]
fn big_endian_integers() {
    assert_eq!(u16str(0x8383), [0x83, 0x83]);
    assert_eq!(u16str(0x0102), [1, 2]);
    assert_eq!(u32str(0x01020304), [1, 2, 3, 4]);
    assert_eq!(u32str(u32::MAX), [255; 4]);
    assert_eq!(u64str(0x0102030405060708), [1, 2, 3, 4, 5, 6, 7, 8]);
    assert_eq!(u64str(1), [0, 0, 0, 0, 0, 0, 0, 1]);
    assert_eq!(str32u(&[1, 2, 3, 4, 9]), 0x01020304);
    assert_eq!(str64u(&[1, 2, 3, 4, 5, 6, 7, 8]), 0x0102030405060708);
    assert_eq!(str64u(&u64str(u64::MAX)), u64::MAX);
}

#[test]
fn digits_of_a_byte_string() {
    let s = [0x12u8, 0x34];
    assert_eq!(coef(&s, 7, 1), 0);
    assert_eq!(coef(&s, 3, 1), 1);
    assert_eq!(coef(&s, 0, 4), 1);
    assert_eq!(coef(&s, 1, 4), 2);
    assert_eq!(coef(&s, 2, 4), 3);
    assert_eq!(coef(&s, 3, 4), 4);
    assert_eq!(coef(&s, 0, 8), 0x12);
    assert_eq!(coef(&s, 1, 8), 0x34);
    assert_eq!(coef(&s, 3, 2), 2);
    assert_eq!(coef(&s, 5, 2), 3);
    assert_eq!(coef(&s, 6, 2), 1);
    assert_eq!(coef(&s, 7, 2), 0);
}

#[test]
fn small_helpers() {
    assert_eq!(pow2_u64(0), 1);
    assert_eq!(pow2_u64(10), 1024);
    assert_eq!(pow2_u64(63), 1 << 63);
    assert!(bytes_eq(&[1, 2], &[1, 2]));
    assert!(!bytes_eq(&[1, 2], &[1, 3]));
    assert!(!bytes_eq(&[1, 2], &[1, 2, 3]));
    assert!(bytes_eq(&[], &[]));
    assert!(is_zero(&[0, 0, 0]));
    assert!(is_zero(&[]));
    assert!(!is_zero(&[0, 0, 4]));
}

#[test]
fn derived_values_of_the_parameter_sets() {
    let expected = [(1u8, 1u32, 265u16, 7u8), (2, 2, 133, 6), (4, 3, 67, 4), (8, 4, 34, 0)];
    for (alg, (w, code, p, ls)) in ALL.iter().zip(expected) {
        assert_eq!(alg.get_n(), 32);
        assert_eq!(alg.get_w(), w);
        assert_eq!(alg.get_type(), code);
        assert_eq!(alg.get_p(), p);
        assert_eq!(alg.get_ls(), ls);
        assert!(alg.is_type_correct(code));
        assert!(!alg.is_type_correct(code + 1));
        assert_eq!(LmotsAlgorithm::from_type(code), Some(*alg));
        assert_eq!(alg.get_signature_length(), 36 + 32 * p as usize);
        assert_eq!(alg.get_max_digit() as u32, (1u32 << w) - 1);
    }
    assert_eq!(LmotsAlgorithm::from_type(0), None);
    assert_eq!(LmotsAlgorithm::from_type(5), None);
}

#[test]
fn checksums() {
    let zero = [0u8; 32];
    let full = [0xffu8; 32];
    let expected = [32768u16, 24576, 15360, 8160];
    for (alg, sum) in ALL.iter().zip(expected) {
        assert_eq!(alg.checksum(&zero), sum);
        assert_eq!(alg.checksum(&full), 0);
        let appended = alg.get_appended_with_checksum(&zero);
        assert_eq!(appended.len(), 34);
        assert_eq!(appended[..32], zero);
        assert_eq!(appended[32..], [(sum >> 8) as u8, (sum & 0xff) as u8]);
    }
    let mut one = [0xffu8; 32];
    one[31] = 0xfe;
    assert_eq!(LmotsAlgorithm::LmotsW8.checksum(&one), 1);
    assert_eq!(LmotsAlgorithm::LmotsW4.checksum(&one), 1 << 4);
    assert_eq!(LmotsAlgorithm::LmotsW2.checksum(&one), 1 << 6);
    assert_eq!(LmotsAlgorithm::LmotsW1.checksum(&one), 1 << 7);
}

#[test]
fn heights_and_type_codes_of_the_trees() {
    let expected = [
        (LmsAlgorithm::LmsH2, 2u8, 1u32),
        (LmsAlgorithm::LmsH5, 5, 5),
        (LmsAlgorithm::LmsH10, 10, 6),
        (LmsAlgorithm::LmsH15, 15, 7),
        (LmsAlgorithm::LmsH20, 20, 8),
        (LmsAlgorithm::LmsH25, 25, 9),
    ];
    for (alg, h, code) in expected {
        assert_eq!(alg.get_tree_height(), h);
        assert_eq!(alg.get_type(), code);
        assert_eq!(alg.number_of_lm_ots_keys(), 1 << h);
        assert_eq!(LmsAlgorithm::from_type(code), Some(alg));
    }
    for code in [0u32, 2, 3, 4, 10, 0x0100_0005] {
        assert_eq!(LmsAlgorithm::from_type(code), None);
    }
}

#[test]
fn a_chain_step_hashes_identifier_leaf_chain_position_and_value() {
    type H = Sha256Hasher;
    let id = [7u8; 16];
    let x = [9u8; 32];
    let mut preimage = Vec::new();
    preimage.extend_from_slice(&id);
    preimage.extend_from_slice(&[0, 0, 0, 5]);
    preimage.extend_from_slice(&[0, 3]);
    preimage.push(2);
    preimage.extend_from_slice(&x);
    assert_eq!(hash_chain_step::<H>(&id, 5, 3, 2, &x), digest::<H>(&preimage));

    assert_eq!(hash_chain::<H>(&id, 5, 3, 4, 4, &x), x);
    assert_eq!(hash_chain::<H>(&id, 5, 3, 4, 2, &x), x);
    let one = hash_chain::<H>(&id, 5, 3, 2, 3, &x);
    assert_eq!(one, hash_chain_step::<H>(&id, 5, 3, 2, &x));
    let two = hash_chain::<H>(&id, 5, 3, 2, 4, &x);
    assert_eq!(two, hash_chain_step::<H>(&id, 5, 3, 3, &one));
    assert_eq!(hash_chain::<H>(&id, 5, 3, 3, 4, &one), two);
}

#[test]
fn one_time_signature_leads_to_the_public_key() {
    type H = Sha256Hasher;
    let seed = [1u8; 32];
    let id = [2u8; 16];
    for alg in [LmotsAlgorithm::LmotsW1, LmotsAlgorithm::LmotsW2, LmotsAlgorithm::LmotsW4] {
        let key = generate_public_key::<H>(alg, &seed, &id, 3);
        let signature = LmotsSignature::sign::<H>(alg, &seed, &id, 3, b"message");
        assert_eq!(
            generate_public_key_candidate::<H>(&signature, &id, 3, b"message"),
            key
        );
        assert!(verify_signature::<H>(&signature, &key, &id, 3, b"message"));
        assert!(!verify_signature::<H>(&signature, &key, &id, 3, b"massage"));
        assert!(!verify_signature::<H>(&signature, &key, &id, 4, b"message"));
        assert_ne!(key, generate_public_key::<H>(alg, &seed, &id, 4));

        let other = LmotsSignature::sign_with_randomizer::<H>(alg, &seed, &id, 3, &[0u8; 32], b"message");
        assert_eq!(other.signature_randomizer, [0u8; 32]);
        assert_ne!(other.signature_data, signature.signature_data);
        assert!(verify_signature::<H>(&other, &key, &id, 3, b"message"));

        let bytes = signature.to_binary_representation();
        assert_eq!(bytes.len(), alg.get_signature_length());
        assert_eq!(bytes[..4], u32str(alg.get_type()));
        let parsed = LmotsSignature::from_binary_representation(&bytes).unwrap();
        assert_eq!(parsed.to_binary_representation(), bytes);
        assert_eq!(parsed.duplicate().to_binary_representation(), bytes);
        assert_eq!(
            LmotsSignature::from_binary_representation(&bytes[..bytes.len() - 1]).err(),
            Some(ErrorKind::Parse)
        );
        let steps = count_verification_steps::<H>(
            alg,
            &id,
            3,
            &signature.signature_randomizer,
            b"message",
        );
        assert!(steps <= alg.get_p() as u32 * alg.get_max_digit() as u32);
    }
    assert_eq!(
        LmotsSignature::from_binary_representation(&[0, 0, 0, 9]).err(),
        Some(ErrorKind::Parse)
    );
    assert_eq!(
        LmotsSignature::from_binary_representation(&[0, 0]).err(),
        Some(ErrorKind::Parse)
    );
}

fn key(q: u32) -> LmsPrivateKey {
    LmsPrivateKey::new(
        [1u8; 32],
        [2u8; 16],
        q,
        LmotsAlgorithm::LmotsW2,
        LmsAlgorithm::LmsH2,
        None,
    )
}

#[test]
fn tree_nodes_are_hashes_of_their_children() {
    type H = Sha256Hasher;
    let private_key = key(0);
    let id = [2u8; 16];
    let leaf = |r: u32| {
        let k = generate_public_key::<H>(LmotsAlgorithm::LmotsW2, &[1u8; 32], &id, r - 4);
        hash_leaf::<H>(&id, r, &k)
    };
    for r in 4..8 {
        assert_eq!(get_tree_element::<H>(&private_key, 0, r, &[]), leaf(r));
    }
    let left = hash_inner::<H>(&id, 2, &leaf(4), &leaf(5));
    let right = hash_inner::<H>(&id, 3, &leaf(6), &leaf(7));
    assert_eq!(get_tree_element::<H>(&private_key, 1, 2, &[]), left);
    assert_eq!(get_tree_element::<H>(&private_key, 1, 3, &[]), right);
    let root = hash_inner::<H>(&id, 1, &left, &right);
    assert_eq!(get_tree_element::<H>(&private_key, 2, 1, &[]), root);
    assert_eq!(private_key.generate_public_key::<H>(&[]).key, root);

    let mut preimage = Vec::new();
    preimage.extend_from_slice(&id);
    preimage.extend_from_slice(&[0, 0, 0, 1, 0x83, 0x83]);
    preimage.extend_from_slice(&left);
    preimage.extend_from_slice(&right);
    assert_eq!(root, digest::<H>(&preimage));

    let mut cache = Vec::new();
    cache.extend_from_slice(&root);
    cache.extend_from_slice(&[0x55u8; 32]);
    assert_eq!(get_tree_element::<H>(&private_key, 2, 1, &cache), root);
    assert_eq!(get_tree_element::<H>(&private_key, 1, 2, &cache), [0x55u8; 32]);
    assert_eq!(get_tree_element::<H>(&private_key, 1, 3, &cache), right);
}

#[test]
fn tree_signature_verifies_and_uses_up_a_leaf() {
    type H = Sha256Hasher;
    let mut private_key = key(2);
    let public_key = private_key.generate_public_key::<H>(&[]);
    let signature = LmsSignature::sign::<H>(&mut private_key, b"message", &[]).unwrap();
    assert_eq!(signature.lms_leaf_identifier, 2);
    assert_eq!(private_key.used_leafs_index, 3);
    assert_eq!(signature.authentication_path.len(), 64);
    assert_eq!(
        signature.authentication_path[..32],
        get_tree_element::<H>(&private_key, 0, 7, &[])
    );
    assert_eq!(
        signature.authentication_path[32..],
        get_tree_element::<H>(&private_key, 1, 2, &[])
    );
    assert_eq!(
        hbs_lms::lms::verify::verify::<H>(&signature, &public_key, b"message"),
        Ok(true)
    );
    assert_eq!(
        hbs_lms::lms::verify::verify::<H>(&signature, &public_key, b"other"),
        Ok(false)
    );

    let last = LmsSignature::sign::<H>(&mut private_key, b"message", &[]).unwrap();
    assert_eq!(last.lms_leaf_identifier, 3);
    assert_eq!(private_key.used_leafs_index, 4);
    assert_eq!(
        LmsSignature::sign::<H>(&mut private_key, b"message", &[]).err(),
        Some(ErrorKind::Exhausted)
    );
    assert_eq!(private_key.used_leafs_index, 4);

    let bytes = signature.to_binary_representation();
    assert_eq!(bytes.len(), 8 + 36 + 133 * 32 + 64);
    let parsed = LmsSignature::from_binary_representation(&bytes).unwrap();
    assert_eq!(parsed.to_binary_representation(), bytes);
    let mut longer = bytes.clone();
    longer.push(0);
    assert_eq!(
        LmsSignature::from_binary_representation(&longer).err(),
        Some(ErrorKind::Parse)
    );
    let (prefix, used) = LmsSignature::parse_prefix(&longer).unwrap();
    assert_eq!(used, bytes.len());
    assert_eq!(prefix.to_binary_representation(), bytes);

    let mut beyond = parsed.duplicate();
    beyond.lms_leaf_identifier = 4;
    assert_eq!(
        hbs_lms::lms::verify::verify::<H>(&beyond, &public_key, b"message"),
        Ok(false)
    );
}

#[test]
fn signature_of_other_parameter_sets_is_a_mismatch() {
    type H = Sha256Hasher;
    let mut private_key = key(0);
    let public_key = private_key.generate_public_key::<H>(&[]);
    let signature = LmsSignature::sign::<H>(&mut private_key, b"message", &[]).unwrap();

    let taller = LmsPublicKey {
        lms_parameter: LmsAlgorithm::LmsH5,
        ..public_key
    };
    assert_eq!(
        hbs_lms::lms::verify::verify::<H>(&signature, &taller, b"message"),
        Err(ErrorKind::ParamMismatch)
    );
    let wider = LmsPublicKey {
        lmots_parameter: LmotsAlgorithm::LmotsW4,
        ..public_key
    };
    assert_eq!(
        hbs_lms::lms::verify::verify::<H>(&signature, &wider, b"message"),
        Err(ErrorKind::ParamMismatch)
    );

    let bytes = public_key.to_binary_representation();
    assert_eq!(bytes.len(), 56);
    assert_eq!(bytes[..8], [0u8, 0, 0, 1, 0, 0, 0, 2]);
    assert_eq!(bytes[8..24], [2u8; 16]);
    assert_eq!(bytes[24..], public_key.key);
    let parsed = LmsPublicKey::from_binary_representation(&bytes).unwrap();
    assert_eq!(parsed.to_binary_representation(), bytes);
    assert_eq!(
        LmsPublicKey::from_binary_representation(&bytes[..55]).err(),
        Some(ErrorKind::Parse)
    );
    let mut unknown = bytes.clone();
    unknown[3] = 2;
    assert_eq!(
        LmsPublicKey::from_binary_representation(&unknown).err(),
        Some(ErrorKind::Parse)
    );
}
