use hbs_lms::error::ErrorKind;
use hbs_lms::hasher::sha256::Sha256Hasher;
use hbs_lms::hss::aux::{
    clear_bytes, compute_aux_tag, hss_aux_levels, hss_check_aux_data, hss_finalize_aux_data,
    hss_is_aux_data_used, write_bytes,
};
use hbs_lms::hss::parameter::HssParameter;
use hbs_lms::hss::{generate_key_pair, hss_keygen, hss_lifetime, hss_sign, hss_verify, sign_message};
use hbs_lms::lm_ots::parameter::LmotsAlgorithm;
use hbs_lms::lms::definitions::LmsPrivateKey;
use hbs_lms::lms::helper::get_tree_element;
use hbs_lms::lms::parameter::LmsAlgorithm;

type H = Sha256Hasher;

fn levels() -> [HssParameter; 2] {
    [
        HssParameter::new(LmotsAlgorithm::LmotsW4, LmsAlgorithm::LmsH5),
        HssParameter::new(LmotsAlgorithm::LmotsW1, LmsAlgorithm::LmsH5),
    ]
}

#[test]
fn room_decides_how_many_levels_are_stored() {
    assert_eq!(hss_aux_levels(0, 5), 0);
    assert_eq!(hss_aux_levels(64, 5), 0);
    assert_eq!(hss_aux_levels(65, 5), 1);
    assert_eq!(hss_aux_levels(1 + 3 * 32 + 32 - 1, 5), 1);
    assert_eq!(hss_aux_levels(1 + 3 * 32 + 32, 5), 2);
    assert_eq!(hss_aux_levels(10_000, 5), 6);
    assert_eq!(hss_aux_levels(10_000, 25), 8);
    assert_eq!(hss_aux_levels(1 + 63 * 32 + 32, 5), 6);
    assert_eq!(hss_aux_levels(1 + 63 * 32 + 31, 5), 5);
    assert_eq!(hss_aux_levels(usize::MAX, 2), 3);
}

#[test]
fn key_generation_fills_the_buffer() {
    let seed = [0u8; 32];
    let mut aux = vec![0u8; 10_000];
    assert!(!hss_is_aux_data_used(&aux));
    assert_eq!(hss_check_aux_data::<H>(&aux, &seed), Err(ErrorKind::AuxInvalid));

    let (public_key, _) = generate_key_pair::<H>(&levels(), &seed, &mut aux).unwrap();
    assert!(hss_is_aux_data_used(&aux));
    assert_eq!(aux[0], 0x80 + 6);
    let content = 1 + 63 * 32;
    assert_eq!(hss_check_aux_data::<H>(&aux, &seed), Ok(content));
    let sealed = 10_000 - 32;
    assert_eq!(aux[content..sealed], vec![0u8; sealed - content][..]);
    assert_eq!(aux[sealed..], compute_aux_tag::<H>(&seed, &aux[..sealed]));
    assert_eq!(aux[1..33], public_key[28..]);

    let (plain, _) = generate_key_pair::<H>(&levels(), &seed, &mut []).unwrap();
    assert_eq!(public_key, plain);
    assert_eq!(
        hss_check_aux_data::<H>(&aux, &[1u8; 32]),
        Err(ErrorKind::AuxInvalid)
    );
}

#[test]
fn stored_nodes_are_the_nodes_of_the_tree() {
    let seed = [0u8; 32];
    let mut aux = vec![0u8; 1 + 7 * 32 + 32];
    let (_, private_key) = generate_key_pair::<H>(&levels(), &seed, &mut aux).unwrap();
    assert_eq!(aux[0], 0x80 + 3);
    let key = hbs_lms::hss::reference_impl_private_key::ReferenceImplPrivateKey::from_binary_representation(
        &private_key,
    )
    .unwrap();
    let ident = key.generate_root_seed_and_lms_tree_identifier::<H>();
    let top = LmsPrivateKey::new(
        ident.seed,
        ident.lms_tree_identifier,
        0,
        LmotsAlgorithm::LmotsW4,
        LmsAlgorithm::LmsH5,
        None,
    );
    for (r, k) in [(1u32, 5u8), (2, 4), (3, 4), (4, 3), (5, 3), (6, 3), (7, 3)] {
        let start = 1 + 32 * (r as usize - 1);
        assert_eq!(
            aux[start..start + 32],
            get_tree_element::<H>(&top, k, r, &[])
        );
    }
}

#[test]
fn signatures_do_not_depend_on_the_buffer() {
    let seed = [0u8; 32];
    let mut aux = vec![0u8; 10_000];
    let (_, private_key) = generate_key_pair::<H>(&levels(), &seed, &mut aux).unwrap();
    let filled = aux.clone();

    let without = sign_message::<H>(b"message", &private_key, &mut []).unwrap();
    let with = sign_message::<H>(b"message", &private_key, &mut aux).unwrap();
    assert_eq!(with, without);
    assert_eq!(aux, filled);

    let mut fresh = vec![0u8; 10_000];
    let first = sign_message::<H>(b"message", &private_key, &mut fresh).unwrap();
    assert_eq!(first, without);
    assert_eq!(fresh, filled);

    let mut small = vec![0u8; 300];
    let partly = sign_message::<H>(b"message", &private_key, &mut small).unwrap();
    assert_eq!(partly, without);
    assert_eq!(small[0], 0x80 + 3);
    assert_eq!(small[..1 + 7 * 32][1..], filled[1..1 + 7 * 32]);

    let mut tiny = vec![0x33u8; 64];
    let none = sign_message::<H>(b"message", &private_key, &mut tiny).unwrap();
    assert_eq!(none, without);
    assert_eq!(tiny, vec![0x33u8; 64]);
}

#[test]
fn corrupted_buffer_is_rebuilt() {
    let seed = [0u8; 32];
    let mut aux = vec![0u8; 10_000];
    let (_, private_key) = generate_key_pair::<H>(&levels(), &seed, &mut aux).unwrap();
    let filled = aux.clone();
    let without = sign_message::<H>(b"message", &private_key, &mut []).unwrap();
    let content = 1 + 63 * 32;

    for position in [0usize, 1, 40, 1000, content - 1, content, 5000, 9967, 9968, 9999] {
        for bit in [0u8, 2, 7] {
            let mut corrupted = filled.clone();
            corrupted[position] ^= 1 << bit;
            assert_eq!(
                hss_check_aux_data::<H>(&corrupted, &seed),
                Err(ErrorKind::AuxInvalid)
            );
            let signed = sign_message::<H>(b"message", &private_key, &mut corrupted).unwrap();
            assert_eq!(signed, without);
            assert_eq!(corrupted, filled);
        }
    }
}

#[test]
fn second_signing_finds_the_buffer_filled() {
    let mut aux_data = vec![0u8; 10_000];
    let aux_slice: &mut &mut [u8] = &mut &mut aux_data[..];
    let mut keypair = hss_keygen::<H>(&levels(), Some(&[0u8; 32]), Some(aux_slice)).unwrap();
    assert!(hss_is_aux_data_used(aux_slice));
    let after_keygen = aux_slice.to_vec();

    for expected in [1u8, 2] {
        let private_key = keypair.private_key.clone();
        let mut update_private_key = |new_key: &[u8]| {
            keypair.private_key.as_mut_slice().copy_from_slice(new_key);
            Ok(())
        };
        let signature = hss_sign::<H>(
            b"message",
            private_key.as_slice(),
            &mut update_private_key,
            Some(aux_slice),
        )
        .unwrap();
        assert!(hss_verify::<H>(
            b"message",
            signature.as_slice(),
            keypair.public_key.as_slice()
        ));
        assert_eq!(keypair.private_key.as_slice()[7], expected);
        assert_eq!(aux_slice.to_vec(), after_keygen);
    }
    assert_eq!(
        hss_lifetime::<H>(keypair.private_key.as_slice(), Some(aux_slice)).unwrap(),
        1022
    );
    assert_eq!(aux_slice.to_vec(), after_keygen);
}

#[test]
fn bytes_are_written_where_they_belong() {
    let mut buffer = [0u8, 1, 2, 3, 4, 5];
    write_bytes(&mut buffer, 2, &[9, 8, 7]);
    assert_eq!(buffer, [0, 1, 9, 8, 7, 5]);
    write_bytes(&mut buffer, 6, &[]);
    write_bytes(&mut buffer, 0, &[6]);
    assert_eq!(buffer, [6, 1, 9, 8, 7, 5]);
}

#[test]
fn marker_changes_are_noticed() {
    let seed = [0u8; 32];
    let mut aux = vec![0u8; 10_000];
    let (_, private_key) = generate_key_pair::<H>(&levels(), &seed, &mut aux).unwrap();
    let filled = aux.clone();
    let without = sign_message::<H>(b"message", &private_key, &mut []).unwrap();
    assert_eq!(filled[0], 0x86);

    for marker in [0x00u8, 0x06, 0x80, 0x81, 0x85, 0x87, 0x88, 0x9a, 0x9b, 0xff] {
        let mut changed = filled.clone();
        changed[0] = marker;
        assert_eq!(
            hss_check_aux_data::<H>(&changed, &seed),
            Err(ErrorKind::AuxInvalid)
        );
        let signed = sign_message::<H>(b"message", &private_key, &mut changed).unwrap();
        assert_eq!(signed, without);
        assert_eq!(changed, filled);
    }
}

#[test]
fn buffer_of_another_length_is_filled_anew() {
    let seed = [0u8; 32];
    let mut aux = vec![0u8; 3_000];
    let (_, private_key) = generate_key_pair::<H>(&levels(), &seed, &mut aux).unwrap();
    let without = sign_message::<H>(b"message", &private_key, &mut []).unwrap();
    assert_eq!(hss_check_aux_data::<H>(&aux, &seed), Ok(1 + 63 * 32));
    assert_eq!(
        hss_check_aux_data::<H>(&aux[..2_999], &seed),
        Err(ErrorKind::AuxInvalid)
    );
    let mut shorter = aux[..2_500].to_vec();
    let signed = sign_message::<H>(b"message", &private_key, &mut shorter).unwrap();
    assert_eq!(signed, without);
    assert_eq!(hss_check_aux_data::<H>(&shorter, &seed), Ok(1 + 63 * 32));
    assert_eq!(shorter[..2_468], aux[..2_468]);
}

#[test]
fn sealing_and_clearing() {
    let seed = [7u8; 32];
    let mut buffer = vec![0x11u8; 40];
    hss_finalize_aux_data::<H>(&mut buffer, &seed);
    assert_eq!(buffer[..8], [0x11u8; 8]);
    assert_eq!(buffer[8..], compute_aux_tag::<H>(&seed, &[0x11u8; 8]));
    let mut only_tag = vec![0x22u8; 32];
    hss_finalize_aux_data::<H>(&mut only_tag, &seed);
    assert_eq!(only_tag[..], compute_aux_tag::<H>(&seed, &[]));

    let mut bytes = [1u8, 2, 3, 4, 5];
    clear_bytes(&mut bytes, 1, 3);
    assert_eq!(bytes, [1, 0, 0, 4, 5]);
    clear_bytes(&mut bytes, 4, 4);
    assert_eq!(bytes, [1, 0, 0, 4, 5]);
    clear_bytes(&mut bytes, 0, 5);
    assert_eq!(bytes, [0u8; 5]);
}
