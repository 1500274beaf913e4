use hbs_lms::constants::{
    LMS_LEAF_IDENTIFIERS_SIZE, MAX_HASH_SIZE, REFERENCE_IMPL_PRIVATE_KEY_SIZE, SEED_LEN,
};
use hbs_lms::hasher::sha256::Sha256Hasher;
use hbs_lms::hasher::shake256::Shake256Hasher;
use hbs_lms::hasher::Hasher;
use hbs_lms::hss::parameter::HssParameter;
use hbs_lms::hss::{hss_keygen, hss_lifetime, hss_sign, hss_sign_mut, hss_verify};
use hbs_lms::lm_ots::parameter::LmotsAlgorithm;
use hbs_lms::lms::parameter::LmsAlgorithm;
use hbs_lms::util::ustr::u64str;

#[test]
fn update_keypair() {
    let message = [
        32u8, 48, 2, 1, 48, 58, 20, 57, 9, 83, 99, 255, 0, 34, 2, 1, 0,
    ];
    type H = Sha256Hasher;

    let lmots = LmotsAlgorithm::LmotsW4;
    let lms = LmsAlgorithm::LmsH5;
    let parameters = [HssParameter::new(lmots, lms)];

    let mut keypair = hss_keygen::<H>(&parameters, None, None).expect("Should generate HSS keys");

    let private_key = keypair.private_key.clone();

    let mut update_private_key = |new_key: &[u8]| {
        keypair.private_key.as_mut_slice().copy_from_slice(new_key);
        Ok(())
    };

    let signature = hss_sign::<H>(
        &message,
        private_key.as_slice(),
        &mut update_private_key,
        None,
    )
    .expect("Signing should complete without error.");

    assert!(hss_verify::<H>(
        &message,
        signature.as_slice(),
        keypair.public_key.as_slice()
    ));

    assert_ne!(keypair.private_key.as_slice(), private_key.as_slice());
    assert_eq!(
        keypair.private_key.as_slice()[LMS_LEAF_IDENTIFIERS_SIZE..],
        private_key.as_slice()[LMS_LEAF_IDENTIFIERS_SIZE..]
    );
}

#[test]
fn exhaust_keypair() {
    let message = [
        32u8, 48, 2, 1, 48, 58, 20, 57, 9, 83, 99, 255, 0, 34, 2, 1, 0,
    ];
    type H = Sha256Hasher;

    let lmots = LmotsAlgorithm::LmotsW2;
    let lms = LmsAlgorithm::LmsH2;
    let parameters = [HssParameter::new(lmots, lms), HssParameter::new(lmots, lms)];

    let mut keypair = hss_keygen::<H>(&parameters, None, None).expect("Should generate HSS keys");
    let keypair_lifetime = hss_lifetime::<H>(keypair.private_key.as_slice(), None).unwrap();

    assert_ne!(
        keypair.private_key.as_slice()[(REFERENCE_IMPL_PRIVATE_KEY_SIZE - SEED_LEN)..],
        [0u8; SEED_LEN],
    );

    for index in 0..keypair_lifetime {
        assert_eq!(
            keypair.private_key.as_slice()[..LMS_LEAF_IDENTIFIERS_SIZE],
            u64str(index),
        );
        assert_eq!(
            keypair_lifetime - hss_lifetime::<H>(keypair.private_key.as_slice(), None).unwrap(),
            index
        );

        let private_key = keypair.private_key.clone();

        let mut update_private_key = |new_key: &[u8]| {
            keypair.private_key.as_mut_slice().copy_from_slice(new_key);
            Ok(())
        };

        let signature = hss_sign::<H>(
            &message,
            private_key.as_slice(),
            &mut update_private_key,
            None,
        )
        .expect("Signing should complete without error.");

        assert!(hss_verify::<H>(
            &message,
            signature.as_slice(),
            keypair.public_key.as_slice()
        ));
    }
    assert_eq!(
        keypair.private_key.as_slice()[(REFERENCE_IMPL_PRIVATE_KEY_SIZE - SEED_LEN)..],
        [0u8; SEED_LEN],
    );
}

#[test]
fn test_signing_sha256() {
    test_signing_core::<Sha256Hasher>();
}

#[test]
fn test_signing_shake256() {
    test_signing_core::<Shake256Hasher>();
}

fn test_signing_core<H: Hasher>() {
    let mut keypair = hss_keygen::<H>(
        &[
            HssParameter::construct_default_parameters(),
            HssParameter::construct_default_parameters(),
            HssParameter::construct_default_parameters(),
        ],
        None,
        None,
    )
    .expect("Should generate HSS keys");

    let message_values = [
        32u8, 48, 2, 1, 48, 58, 20, 57, 9, 83, 99, 255, 0, 34, 2, 1, 0,
    ];
    let mut message = [0u8; 64];
    message[..message_values.len()].copy_from_slice(&message_values);

    let private_key = keypair.private_key.clone();

    let mut update_private_key = |new_key: &[u8]| {
        keypair.private_key.as_mut_slice().copy_from_slice(new_key);
        Ok(())
    };

    let signature = hss_sign::<H>(
        &message,
        private_key.as_slice(),
        &mut update_private_key,
        None,
    )
    .expect("Signing should complete without error.");

    assert!(hss_verify::<H>(
        &message,
        signature.as_slice(),
        keypair.public_key.as_slice(),
    ));

    message[0] = 33;

    assert!(!hss_verify::<H>(
        &message,
        signature.as_slice(),
        keypair.public_key.as_slice(),
    ));
}

#[test]
fn test_signing_fast_verify() {
    type H = Sha256Hasher;

    let mut keypair = hss_keygen::<H>(
        &[
            HssParameter::construct_default_parameters(),
            HssParameter::construct_default_parameters(),
            HssParameter::construct_default_parameters(),
        ],
        None,
        None,
    )
    .expect("Should generate HSS keys");

    let message_values = [
        32u8, 48, 2, 1, 48, 58, 20, 57, 9, 83, 99, 255, 0, 34, 2, 1, 0,
    ];
    let mut message = [0u8; 64];
    message[..message_values.len()].copy_from_slice(&message_values);

    let private_key = keypair.private_key.clone();

    let mut update_private_key = |new_key: &[u8]| {
        keypair.private_key.as_mut_slice().copy_from_slice(new_key);
        Ok(())
    };

    let (signature, _) = hss_sign_mut::<H>(
        &mut message,
        private_key.as_slice(),
        &mut update_private_key,
        None,
    )
    .expect("Signing should complete without error.");

    assert!(H::OUTPUT_SIZE == MAX_HASH_SIZE as u16);
    assert_ne!(
        message[(message.len() - MAX_HASH_SIZE)..],
        [0u8; MAX_HASH_SIZE]
    );

    assert!(hss_verify::<H>(
        &message,
        signature.as_slice(),
        keypair.public_key.as_slice()
    ));
}
