use hbs_lms::error::ErrorKind;
use hbs_lms::hasher::sha256::Sha256Hasher;
use hbs_lms::hss::parameter::HssParameter;
use hbs_lms::hss::{
    conclude_signing, generate_key_pair, hss_keygen, hss_lifetime, hss_sign, hss_sign_core,
    hss_sign_mut, hss_sign_mut_core, hss_verify, remaining_lifetime, sign_message, Signature,
    SigningKey, VerifyingKey,
};
use hbs_lms::lm_ots::parameter::LmotsAlgorithm;
use hbs_lms::lms::parameter::LmsAlgorithm;

type H = Sha256Hasher;

const MESSAGE: [u8; 17] = [
    32u8, 48, 2, 1, 48, 58, 20, 57, 9, 83, 99, 255, 0, 34, 2, 1, 0,
];

fn small() -> [HssParameter; 2] {
    let level = HssParameter::new(LmotsAlgorithm::LmotsW2, LmsAlgorithm::LmsH2);
    [level, level]
}

#[test]
fn first_signature_moves_the_counter_to_one() {
    let parameters = [HssParameter::new(LmotsAlgorithm::LmotsW4, LmsAlgorithm::LmsH5)];
    let seed = [0u8; 32];
    let keypair = hss_keygen::<H>(&parameters, Some(&seed), None).unwrap();
    let before = keypair.private_key.as_slice().to_vec();
    assert_eq!(before.len(), 48);
    assert_eq!(before[..8], [0u8; 8]);

    let mut stored: Vec<u8> = Vec::new();
    let mut store = |new_key: &[u8]| {
        stored = new_key.to_vec();
        Ok(())
    };
    let signature = hss_sign::<H>(&MESSAGE, &before, &mut store, None).unwrap();

    assert!(hss_verify::<H>(
        &MESSAGE,
        signature.as_slice(),
        keypair.public_key.as_slice()
    ));
    assert_eq!(stored[..8], [0u8, 0, 0, 0, 0, 0, 0, 1]);
    assert_eq!(stored[8..], before[8..]);
    assert_eq!(signature.len(), 4 + 8 + 36 + 67 * 32 + 5 * 32);
    assert_eq!(keypair.public_key.as_slice().len(), 60);
}

#[test]
fn seventeenth_signature_is_refused() {
    let seed = [0u8; 32];
    let keypair = hss_keygen::<H>(&small(), Some(&seed), None).unwrap();
    let mut key = keypair.private_key.as_slice().to_vec();
    assert_eq!(hss_lifetime::<H>(&key, None).unwrap(), 16);

    for index in 0..16u8 {
        let message = [index; 5];
        let (signature, next) = sign_message::<H>(&message, &key, &mut []).unwrap();
        assert!(hss_verify::<H>(
            &message,
            &signature,
            keypair.public_key.as_slice()
        ));
        key = next;
        assert_eq!(remaining_lifetime(&key), Ok(15 - index as u64));
    }

    assert_eq!(
        sign_message::<H>(&MESSAGE, &key, &mut []),
        Err(ErrorKind::Exhausted)
    );
    let mut never = |_: &[u8]| Ok(());
    assert_eq!(
        hss_sign_core::<H>(&MESSAGE, &key, &mut never, None),
        Err(ErrorKind::Exhausted)
    );
    assert!(hss_sign::<H>(&MESSAGE, &key, &mut never, None).is_err());
    assert_eq!(hss_lifetime::<H>(&key, None).unwrap(), 0);
    assert_eq!(key[..8], [0u8, 0, 0, 0, 0, 0, 0, 16]);
    assert_eq!(key[16..], [0u8; 32]);
}

#[test]
fn tampered_signature_is_rejected() {
    let parameters = [HssParameter::new(LmotsAlgorithm::LmotsW4, LmsAlgorithm::LmsH5)];
    let seed = [0u8; 32];
    let (public_key, private_key) = generate_key_pair::<H>(&parameters, &seed, &mut []).unwrap();
    let (mut signature, _) = sign_message::<H>(&MESSAGE, &private_key, &mut []).unwrap();
    assert!(hss_verify::<H>(&MESSAGE, &signature, &public_key));

    let last = signature.len() - 1;
    signature[last] ^= 0xff;
    assert!(!hss_verify::<H>(&MESSAGE, &signature, &public_key));
    signature[last] ^= 0xff;
    assert!(hss_verify::<H>(&MESSAGE, &signature, &public_key));

    for position in [0usize, 3, 4, 7, 8, 11, 12, 50, 2000, 2200] {
        signature[position] ^= 1;
        assert!(!hss_verify::<H>(&MESSAGE, &signature, &public_key));
        signature[position] ^= 1;
    }
    assert!(!hss_verify::<H>(&MESSAGE, &signature[..last], &public_key));
    assert!(!hss_verify::<H>(&MESSAGE, &[], &public_key));
    assert!(!hss_verify::<H>(&MESSAGE, &signature, &public_key[..59]));
}

#[test]
fn flipping_a_bit_of_the_message_is_noticed() {
    let seed = [3u8; 32];
    let (public_key, private_key) = generate_key_pair::<H>(&small(), &seed, &mut []).unwrap();
    let (signature, _) = sign_message::<H>(&MESSAGE, &private_key, &mut []).unwrap();
    for position in 0..MESSAGE.len() {
        for bit in 0..8 {
            let mut message = MESSAGE;
            message[position] ^= 1 << bit;
            assert!(!hss_verify::<H>(&message, &signature, &public_key));
        }
    }
    assert!(hss_verify::<H>(&MESSAGE, &signature, &public_key));
}

#[test]
fn signature_under_another_key_is_rejected() {
    let (public_a, private_a) = generate_key_pair::<H>(&small(), &[1u8; 32], &mut []).unwrap();
    let (public_b, _) = generate_key_pair::<H>(&small(), &[2u8; 32], &mut []).unwrap();
    let (signature, _) = sign_message::<H>(&MESSAGE, &private_a, &mut []).unwrap();
    assert!(hss_verify::<H>(&MESSAGE, &signature, &public_a));
    assert!(!hss_verify::<H>(&MESSAGE, &signature, &public_b));
}

#[test]
fn signatures_use_growing_leaves() {
    let seed = [9u8; 32];
    let (_, mut key) = generate_key_pair::<H>(&small(), &seed, &mut []).unwrap();
    let mut leaves: Vec<(u32, u32)> = Vec::new();
    for _ in 0..6 {
        let (signature, next) = sign_message::<H>(&MESSAGE, &key, &mut []).unwrap();
        let parsed =
            hbs_lms::hss::signing::HssSignature::from_binary_representation(&signature).unwrap();
        leaves.push((
            parsed.signed_public_keys[0].sig.lms_leaf_identifier,
            parsed.signature.lms_leaf_identifier,
        ));
        key = next;
    }
    assert_eq!(leaves, vec![(0, 0), (0, 1), (0, 2), (0, 3), (1, 0), (1, 1)]);
    for pair in leaves.windows(2) {
        assert!(pair[0] < pair[1]);
    }
}

#[test]
fn signing_is_a_function_of_key_and_message() {
    let seed = [5u8; 32];
    let (_, key) = generate_key_pair::<H>(&small(), &seed, &mut []).unwrap();
    let first = sign_message::<H>(&MESSAGE, &key, &mut []).unwrap();
    let second = sign_message::<H>(&MESSAGE, &key, &mut []).unwrap();
    assert_eq!(first, second);
    let other = sign_message::<H>(&MESSAGE[1..], &key, &mut []).unwrap();
    assert_ne!(first.0, other.0);
    assert_eq!(first.1, other.1);
}

#[test]
fn failing_callback_drops_the_signature_and_keeps_the_key() {
    let seed = [7u8; 32];
    let keypair = hss_keygen::<H>(&small(), Some(&seed), None).unwrap();
    let held = keypair.private_key.clone();
    let mut calls = 0;
    let mut refuse = |_: &[u8]| {
        calls += 1;
        Err(())
    };
    assert_eq!(
        hss_sign_core::<H>(&MESSAGE, keypair.private_key.as_slice(), &mut refuse, None),
        Err(ErrorKind::CallbackFailure)
    );
    assert!(hss_sign::<H>(&MESSAGE, keypair.private_key.as_slice(), &mut refuse, None).is_err());
    assert_eq!(calls, 2);
    assert_eq!(keypair.private_key.as_slice(), held.as_slice());
    assert_eq!(hss_lifetime::<H>(keypair.private_key.as_slice(), None).unwrap(), 16);

    assert_eq!(conclude_signing(vec![1, 2, 3], Ok(())), Ok(vec![1, 2, 3]));
    assert_eq!(
        conclude_signing(vec![1, 2, 3], Err(())),
        Err(ErrorKind::CallbackFailure)
    );
}

#[test]
fn callback_is_not_asked_where_signing_fails() {
    let mut calls = 0;
    let mut count = |_: &[u8]| {
        calls += 1;
        Ok(())
    };
    assert_eq!(
        hss_sign_core::<H>(&MESSAGE, &[0u8; 47], &mut count, None),
        Err(ErrorKind::Parse)
    );
    assert_eq!(calls, 0);
}

#[test]
fn malformed_private_keys_do_not_parse() {
    let seed = [1u8; 32];
    let (_, key) = generate_key_pair::<H>(&small(), &seed, &mut []).unwrap();
    assert_eq!(remaining_lifetime(&key), Ok(16));
    assert_eq!(remaining_lifetime(&key[..47]), Err(ErrorKind::Parse));
    assert_eq!(remaining_lifetime(&[]), Err(ErrorKind::Parse));
    assert!(hss_lifetime::<H>(&key[..47], None).is_err());

    let mut unknown_type = key.clone();
    unknown_type[8] = 0x2f;
    assert_eq!(remaining_lifetime(&unknown_type), Err(ErrorKind::Parse));

    let mut no_level = key.clone();
    no_level[8] = 0xff;
    no_level[9] = 0xff;
    assert_eq!(remaining_lifetime(&no_level), Err(ErrorKind::Parse));

    let mut gap = key.clone();
    gap[8] = 0xff;
    assert_eq!(remaining_lifetime(&gap), Err(ErrorKind::Parse));

    let mut beyond = key.clone();
    beyond[7] = 200;
    assert_eq!(remaining_lifetime(&beyond), Ok(0));
    assert_eq!(
        sign_message::<H>(&MESSAGE, &beyond, &mut []),
        Err(ErrorKind::Exhausted)
    );
}

#[test]
fn parameter_lists_are_checked() {
    let seed = [1u8; 32];
    let h25 = HssParameter::new(LmotsAlgorithm::LmotsW8, LmsAlgorithm::LmsH25);
    let h2 = HssParameter::new(LmotsAlgorithm::LmotsW1, LmsAlgorithm::LmsH2);
    assert_eq!(
        generate_key_pair::<H>(&[], &seed, &mut []),
        Err(ErrorKind::InvalidParameter)
    );
    assert_eq!(
        generate_key_pair::<H>(&[h2; 9], &seed, &mut []),
        Err(ErrorKind::InvalidParameter)
    );
    assert_eq!(
        generate_key_pair::<H>(&[h25, h25, h25], &seed, &mut []),
        Err(ErrorKind::InvalidParameter)
    );
    assert!(hss_keygen::<H>(&[], None, None).is_err());
    assert!(hss_keygen::<H>(&[h2], Some(&[0u8; 31]), None).is_err());
    assert!(hss_keygen::<H>(&[h2], Some(&[0u8; 33]), None).is_err());
    assert!(hss_keygen::<H>(&[h2; 8], Some(&[0u8; 32]), None).is_ok());
}

#[test]
fn lifetime_is_the_product_of_the_leaf_counts() {
    let seed = [1u8; 32];
    let h2 = HssParameter::new(LmotsAlgorithm::LmotsW1, LmsAlgorithm::LmsH2);
    let (_, key) = generate_key_pair::<H>(&[h2, h2, h2], &seed, &mut []).unwrap();
    assert_eq!(remaining_lifetime(&key), Ok(64));
    let mut later = key.clone();
    later[7] = 40;
    assert_eq!(remaining_lifetime(&later), Ok(24));
    assert_eq!(key[8..16], [0x11u8, 0x11, 0x11, 0xff, 0xff, 0xff, 0xff, 0xff]);
}

#[test]
fn fresh_seeds_differ() {
    let first = hss_keygen::<H>(&small(), None, None).unwrap();
    let second = hss_keygen::<H>(&small(), None, None).unwrap();
    assert_ne!(first.private_key.as_slice(), second.private_key.as_slice());
    assert_ne!(first.public_key.as_slice(), second.public_key.as_slice());
    assert_ne!(first.private_key.as_slice()[16..], [0u8; 32]);
}

#[test]
fn key_generation_is_a_function_of_the_seed() {
    let seed = [4u8; 32];
    let first = hss_keygen::<H>(&small(), Some(&seed), None).unwrap();
    let second = hss_keygen::<H>(&small(), Some(&seed), None).unwrap();
    assert_eq!(first.private_key.as_slice(), second.private_key.as_slice());
    assert_eq!(first.public_key.as_slice(), second.public_key.as_slice());
    assert_eq!(first.private_key.as_slice()[16..], seed);
    assert_eq!(first.public_key.as_slice()[..12], [0u8, 0, 0, 2, 0, 0, 0, 1, 0, 0, 0, 2]);
}

#[test]
fn signing_key_signs_and_moves_on() {
    let seed = [6u8; 32];
    let keypair = hss_keygen::<H>(&small(), Some(&seed), None).unwrap();
    let mut signing_key = keypair.private_key.clone();
    let signature = signing_key.try_sign::<H>(&MESSAGE).unwrap();
    assert!(keypair.public_key.verify::<H>(&MESSAGE, &signature).is_ok());
    assert!(keypair.public_key.verify::<H>(&MESSAGE[1..], &signature).is_err());
    assert_eq!(signing_key.as_slice()[..8], [0u8, 0, 0, 0, 0, 0, 0, 1]);
    assert_eq!(hss_lifetime::<H>(signing_key.as_slice(), None).unwrap(), 15);

    let expected = sign_message::<H>(&MESSAGE, keypair.private_key.as_slice(), &mut []).unwrap();
    assert_eq!(signature.as_slice(), &expected.0[..]);
    assert_eq!(signing_key.as_slice(), &expected.1[..]);
}

#[test]
fn used_up_signing_key_stays_as_it_is() {
    let seed = [6u8; 32];
    let keypair = hss_keygen::<H>(&small(), Some(&seed), None).unwrap();
    let mut bytes = keypair.private_key.as_slice().to_vec();
    bytes[7] = 16;
    let mut signing_key = SigningKey::from_bytes(&bytes).unwrap();
    assert!(signing_key.try_sign::<H>(&MESSAGE).is_err());
    assert_eq!(signing_key.as_slice(), &bytes[..]);
    let mut aux = vec![0u8; 500];
    let mut aux_slice: &mut [u8] = &mut aux;
    assert!(signing_key
        .try_sign_with_aux::<H>(&MESSAGE, Some(&mut aux_slice))
        .is_err());
    assert_eq!(signing_key.as_slice(), &bytes[..]);
    assert_eq!(aux, vec![0u8; 500]);
}

#[test]
fn byte_buffers_hold_what_they_are_given() {
    let bytes: Vec<u8> = (0..50u8).collect();
    let key = SigningKey::from_bytes(&bytes).unwrap();
    assert_eq!(key.as_slice(), &bytes[..]);
    assert_eq!(key.clone().as_slice(), &bytes[..]);
    assert!(SigningKey::from_bytes(&[0u8; 51]).is_err());

    let mut changed = key.clone();
    changed.as_mut_slice()[3] = 99;
    assert_eq!(changed.as_slice()[3], 99);
    assert_eq!(changed.as_slice().len(), 50);
    assert_eq!(key.as_slice()[3], 3);

    let public: Vec<u8> = (100..160u8).collect();
    let verifying_key = VerifyingKey::from_bytes(&public).unwrap();
    assert_eq!(verifying_key.as_slice(), &public[..]);
    assert_eq!(verifying_key.clone().as_slice(), &public[..]);
    assert!(VerifyingKey::from_bytes(&[0u8; 61]).is_err());

    let signature = Signature::from_bytes(&bytes[..7]).unwrap();
    assert_eq!(signature.as_slice(), &bytes[..7]);
    assert_eq!(signature.clone().as_slice(), &bytes[..7]);
    assert!(Signature::from_bytes(&vec![0u8; 80_000]).is_err());
}

#[test]
fn fast_verify_needs_a_free_tail() {
    let seed = [8u8; 32];
    let keypair = hss_keygen::<H>(&small(), Some(&seed), None).unwrap();
    let key = keypair.private_key.as_slice().to_vec();
    let mut stored: Vec<u8> = Vec::new();
    let mut store = |new_key: &[u8]| {
        stored = new_key.to_vec();
        Ok(())
    };

    let mut message = [0u8; 64 + 32];
    message[..MESSAGE.len()].copy_from_slice(&MESSAGE);
    let (signature, steps) = hss_sign_mut::<H>(&mut message, &key, &mut store, None).unwrap();
    assert_ne!(message[64..], [0u8; 32]);
    assert_eq!(message[..17], MESSAGE);
    assert_eq!(message[17..64], [0u8; 47]);
    assert!(hss_verify::<H>(
        &message,
        signature.as_slice(),
        keypair.public_key.as_slice()
    ));
    let steps = steps.unwrap();
    assert!(steps <= 2 * 133 * 3);
    assert_eq!(stored[7], 1);

    let mut keep = |_: &[u8]| Ok(());
    let again = message;
    assert_eq!(
        hss_sign_mut_core::<H>(&mut message, &stored, &mut keep, None),
        Err(ErrorKind::FastVerifyMisuse)
    );
    assert!(hss_sign_mut::<H>(&mut message, &stored, &mut keep, None).is_err());
    assert_eq!(message, again);

    let mut short = [0u8; 31];
    assert_eq!(
        hss_sign_mut_core::<H>(&mut short, &stored, &mut keep, None),
        Err(ErrorKind::FastVerifyMisuse)
    );
    assert_eq!(short, [0u8; 31]);
    let mut shortest = [0u8; 0];
    assert_eq!(
        hss_sign_mut_core::<H>(&mut shortest, &stored, &mut keep, None),
        Err(ErrorKind::FastVerifyMisuse)
    );
    let mut long_enough = [0u8; 33];
    assert!(hss_sign_mut_core::<H>(&mut long_enough, &key, &mut keep, None).is_ok());
}

#[test]
fn fast_verify_signs_what_the_buffer_holds_afterwards() {
    let seed = [8u8; 32];
    let keypair = hss_keygen::<H>(&small(), Some(&seed), None).unwrap();
    let key = keypair.private_key.as_slice().to_vec();
    let mut store = |_: &[u8]| Ok(());

    let mut message = [0u8; 40 + 32];
    message[0] = 1;
    let (signature, steps) = hss_sign_mut_core::<H>(&mut message, &key, &mut store, None).unwrap();
    let plain = sign_message::<H>(&message, &key, &mut []).unwrap();
    assert_eq!(signature, plain.0);

    let mut untouched = [0u8; 40 + 32];
    untouched[0] = 1;
    let unoptimized = sign_message::<H>(&untouched, &key, &mut []).unwrap();
    let parsed =
        hbs_lms::hss::signing::HssSignature::from_binary_representation(&unoptimized.0).unwrap();
    let top = hbs_lms::hss::definitions::HssPublicKey::from_binary_representation(
        keypair.public_key.as_slice(),
    )
    .unwrap();
    let before =
        hbs_lms::hss::verify::count_hash_iterations::<H>(&parsed, &top.public_key, &untouched);
    assert!(steps <= before);
}

#[test]
fn fast_verify_signs_a_buffer_that_is_all_tail() {
    let seed = [8u8; 32];
    let keypair = hss_keygen::<H>(&small(), Some(&seed), None).unwrap();
    let key = keypair.private_key.as_slice().to_vec();
    let mut stored: Vec<u8> = Vec::new();
    let mut store = |new_key: &[u8]| {
        stored = new_key.to_vec();
        Ok(())
    };

    let mut message = [0u8; 32];
    let (signature, steps) = hss_sign_mut::<H>(&mut message, &key, &mut store, None).unwrap();
    assert_ne!(message, [0u8; 32]);
    assert!(steps.is_some());
    assert!(hss_verify::<H>(
        &message,
        signature.as_slice(),
        keypair.public_key.as_slice()
    ));
    assert_eq!(stored[7], 1);
    let plain = sign_message::<H>(&message, &key, &mut []).unwrap();
    assert_eq!(signature.as_slice(), &plain.0[..]);

    let mut keep = |_: &[u8]| Ok(());
    assert_eq!(
        hss_sign_mut_core::<H>(&mut message, &key, &mut keep, None),
        Err(ErrorKind::FastVerifyMisuse)
    );
}
