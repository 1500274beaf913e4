use hbs_lms::error::ErrorKind;
use hbs_lms::hasher::sha256::Sha256Hasher;
use hbs_lms::hss::definitions::{HssPrivateKey, HssPublicKey};
use hbs_lms::hss::parameter::{sum_heights, HssParameter};
use hbs_lms::hss::reference_impl_private_key::ReferenceImplPrivateKey;
use hbs_lms::hss::signing::{HssSignature, HssSignedPublicKey};
use hbs_lms::hss::{generate_key_pair, sign_message};
use hbs_lms::lm_ots::parameter::LmotsAlgorithm;
use hbs_lms::lms::parameter::LmsAlgorithm;
use hbs_lms::sst::parameters::SstExtension;

type H = Sha256Hasher;

fn levels() -> [HssParameter; 3] {
    [
        HssParameter::new(LmotsAlgorithm::LmotsW1, LmsAlgorithm::LmsH2),
        HssParameter::new(LmotsAlgorithm::LmotsW2, LmsAlgorithm::LmsH2),
        HssParameter::new(LmotsAlgorithm::LmotsW4, LmsAlgorithm::LmsH2),
    ]
}

#[test]
fn signature_survives_parsing_and_writing() {
    let (public_key, private_key) = generate_key_pair::<H>(&levels(), &[1u8; 32], &mut []).unwrap();
    let (signature, _) = sign_message::<H>(b"message", &private_key, &mut []).unwrap();
    assert_eq!(signature[..4], [0u8, 0, 0, 2]);

    let parsed = HssSignature::from_binary_representation(&signature).unwrap();
    assert_eq!(parsed.signed_public_keys.len(), 2);
    assert_eq!(parsed.to_binary_representation(), signature);
    assert_eq!(
        parsed.signed_public_keys[0].sig.lmots_signature.lmots_parameter,
        LmotsAlgorithm::LmotsW1
    );
    assert_eq!(
        parsed.signed_public_keys[1].public_key.lmots_parameter,
        LmotsAlgorithm::LmotsW4
    );
    assert_eq!(
        parsed.signature.lmots_signature.lmots_parameter,
        LmotsAlgorithm::LmotsW4
    );

    let (first, used) = HssSignedPublicKey::parse_prefix(&signature[4..]).unwrap();
    assert_eq!(used, 8 + 36 + 265 * 32 + 64 + 56);
    assert_eq!(
        first.sig.to_binary_representation()[..],
        signature[4..4 + used - 56]
    );
    assert_eq!(
        first.public_key.to_binary_representation()[..],
        signature[4 + used - 56..4 + used]
    );

    let top = HssPublicKey::from_binary_representation(&public_key).unwrap();
    assert_eq!(top.level, 3);
    assert_eq!(top.to_binary_representation(), public_key);
    assert!(hbs_lms::hss::verify::verify::<H>(&parsed, &top, b"message"));
    assert!(!hbs_lms::hss::verify::verify::<H>(&parsed, &top, b"massage"));
}

#[test]
fn malformed_signatures_do_not_parse() {
    let (_, private_key) = generate_key_pair::<H>(&levels(), &[1u8; 32], &mut []).unwrap();
    let (signature, _) = sign_message::<H>(b"message", &private_key, &mut []).unwrap();
    let parse = |bytes: &[u8]| HssSignature::from_binary_representation(bytes).err();

    assert_eq!(parse(&[]), Some(ErrorKind::Parse));
    assert_eq!(parse(&signature[..3]), Some(ErrorKind::Parse));
    assert_eq!(parse(&signature[..signature.len() - 1]), Some(ErrorKind::Parse));
    let mut longer = signature.clone();
    longer.push(0);
    assert_eq!(parse(&longer), Some(ErrorKind::Parse));
    let mut fewer = signature.clone();
    fewer[3] = 1;
    assert_eq!(parse(&fewer), Some(ErrorKind::Parse));
    let mut more = signature.clone();
    more[3] = 8;
    assert_eq!(parse(&more), Some(ErrorKind::Parse));
    let mut unknown = signature.clone();
    unknown[11] = 9;
    assert_eq!(parse(&unknown), Some(ErrorKind::Parse));
    assert!(parse(&signature).is_none());
}

#[test]
fn malformed_public_keys_do_not_parse() {
    let (public_key, _) = generate_key_pair::<H>(&levels(), &[1u8; 32], &mut []).unwrap();
    let parse = |bytes: &[u8]| HssPublicKey::from_binary_representation(bytes).err();
    assert_eq!(parse(&public_key[..59]), Some(ErrorKind::Parse));
    let mut none = public_key.clone();
    none[3] = 0;
    assert_eq!(parse(&none), Some(ErrorKind::Parse));
    let mut many = public_key.clone();
    many[3] = 9;
    assert_eq!(parse(&many), Some(ErrorKind::Parse));
    let mut unknown = public_key.clone();
    unknown[7] = 3;
    assert_eq!(parse(&unknown), Some(ErrorKind::Parse));
    assert!(parse(&public_key).is_none());
}

#[test]
fn private_key_survives_parsing_and_writing() {
    let seed = [0xabu8; 32];
    let key = ReferenceImplPrivateKey::generate(&levels(), &seed).unwrap();
    let bytes = key.to_binary_representation();
    assert_eq!(bytes.len(), 48);
    assert_eq!(bytes[..8], [0u8; 8]);
    assert_eq!(bytes[8..16], [0x11u8, 0x12, 0x13, 0xff, 0xff, 0xff, 0xff, 0xff]);
    assert_eq!(bytes[16..], seed);

    let mut parsed = ReferenceImplPrivateKey::from_binary_representation(&bytes).unwrap();
    assert_eq!(parsed.compressed_used_leafs_indexes, 0);
    assert_eq!(parsed.parameters, levels().to_vec());
    assert_eq!(parsed.seed, seed);
    assert_eq!(parsed.sst_option, None);
    assert_eq!(parsed.to_binary_representation(), bytes);
    assert_eq!(parsed.get_lifetime(), 64);
    assert_eq!(parsed.get_end_count(), 64);

    parsed.increment();
    assert_eq!(parsed.compressed_used_leafs_indexes, 1);
    assert_eq!(parsed.get_lifetime(), 63);
    assert_eq!(parsed.seed, seed);
    parsed.compressed_used_leafs_indexes = 63;
    parsed.increment();
    assert_eq!(parsed.get_lifetime(), 0);
    assert_eq!(parsed.seed, [0u8; 32]);
}

#[test]
fn private_key_of_a_signing_entity_carries_its_extension() {
    let seed = [0xabu8; 32];
    let ext = SstExtension { signing_entity_idx: 3, top_div_height: 2 };
    let key = ReferenceImplPrivateKey::generate_for_entity(&levels(), &seed, ext).unwrap();
    assert_eq!(key.compressed_used_leafs_indexes, 48);
    assert_eq!(key.get_end_count(), 64);
    assert_eq!(key.get_lifetime(), 16);
    let bytes = key.to_binary_representation();
    assert_eq!(bytes.len(), 50);
    assert_eq!(bytes[..8], [0u8, 0, 0, 0, 0, 0, 0, 48]);
    assert_eq!(bytes[48..], [3u8, 2]);
    let parsed = ReferenceImplPrivateKey::from_binary_representation(&bytes).unwrap();
    assert_eq!(parsed.sst_option, Some(ext));
    assert_eq!(parsed.to_binary_representation(), bytes);

    let parse = |bytes: &[u8]| ReferenceImplPrivateKey::from_binary_representation(bytes).err();
    let mut before_range = bytes.clone();
    before_range[7] = 47;
    assert_eq!(parse(&before_range), Some(ErrorKind::Parse));
    let mut no_such_entity = bytes.clone();
    no_such_entity[48] = 4;
    assert_eq!(parse(&no_such_entity), Some(ErrorKind::Parse));
    let mut too_deep = bytes.clone();
    too_deep[49] = 3;
    assert_eq!(parse(&too_deep), Some(ErrorKind::Parse));
    let mut no_division = bytes.clone();
    no_division[49] = 0;
    assert_eq!(parse(&no_division), Some(ErrorKind::Parse));
    assert_eq!(parse(&bytes[..49]), Some(ErrorKind::Parse));

    for bad in [
        SstExtension { signing_entity_idx: 4, top_div_height: 2 },
        SstExtension { signing_entity_idx: 0, top_div_height: 3 },
        SstExtension { signing_entity_idx: 0, top_div_height: 0 },
    ] {
        assert_eq!(
            ReferenceImplPrivateKey::generate_for_entity(&levels(), &seed, bad).err(),
            Some(ErrorKind::InvalidParameter)
        );
    }
}

#[test]
fn heights_are_summed() {
    let h25 = HssParameter::new(LmotsAlgorithm::LmotsW8, LmsAlgorithm::LmsH25);
    let h10 = HssParameter::new(LmotsAlgorithm::LmotsW8, LmsAlgorithm::LmsH10);
    let h2 = HssParameter::new(LmotsAlgorithm::LmotsW8, LmsAlgorithm::LmsH2);
    assert_eq!(sum_heights(&levels()), Some(6));
    assert_eq!(sum_heights(&[h25, h25, h10, h2]), Some(62));
    assert_eq!(sum_heights(&[h25, h25, h10, h2, h2]), None);
    assert_eq!(sum_heights(&[]), None);
    assert_eq!(sum_heights(&[h2; 8]), Some(16));
    assert_eq!(sum_heights(&[h2; 9]), None);
    assert_eq!(
        HssParameter::construct_default_parameters(),
        HssParameter::new(LmotsAlgorithm::LmotsW1, LmsAlgorithm::LmsH5)
    );
    assert_eq!(h25.get_lmots_parameter(), LmotsAlgorithm::LmotsW8);
    assert_eq!(h25.get_lms_parameter(), LmsAlgorithm::LmsH25);
}

#[test]
fn expanded_key_holds_every_level() {
    let key = ReferenceImplPrivateKey::generate(&levels(), &[1u8; 32]).unwrap();
    let mut later = ReferenceImplPrivateKey::from_binary_representation(
        &key.to_binary_representation(),
    )
    .unwrap();
    later.compressed_used_leafs_indexes = 27;
    let expanded = HssPrivateKey::from::<H>(&later, &[]).unwrap();
    assert_eq!(expanded.private_key.len(), 3);
    assert_eq!(expanded.public_key.len(), 3);
    assert_eq!(expanded.signatures.len(), 2);
    assert_eq!(expanded.signatures[0].lms_leaf_identifier, 1);
    assert_eq!(expanded.signatures[1].lms_leaf_identifier, 2);
    assert_eq!(expanded.private_key[2].used_leafs_index, 3);
    assert_eq!(expanded.get_public_key::<H>().level, 3);
    for level in 0..2 {
        assert_eq!(
            hbs_lms::lms::verify::verify::<H>(
                &expanded.signatures[level],
                &expanded.public_key[level],
                &expanded.public_key[level + 1].to_binary_representation()
            ),
            Ok(true)
        );
    }
    let fresh = HssPrivateKey::from::<H>(&key, &[]).unwrap();
    assert_eq!(
        fresh.get_public_key::<H>().to_binary_representation(),
        expanded.get_public_key::<H>().to_binary_representation()
    );
    later.compressed_used_leafs_indexes = 64;
    assert_eq!(
        HssPrivateKey::from::<H>(&later, &[]).err(),
        Some(ErrorKind::Exhausted)
    );
}
