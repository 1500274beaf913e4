use hbs_lms::error::ErrorKind;
use hbs_lms::hasher::sha256::Sha256Hasher;
use hbs_lms::hss::parameter::HssParameter;
use hbs_lms::hss::{hss_keygen, hss_lifetime, hss_verify, sign_message};
use hbs_lms::lm_ots::parameter::LmotsAlgorithm;
use hbs_lms::lms::parameter::LmsAlgorithm;
use hbs_lms::sst::gen_key::{
    entity_key_and_root, genkey1_sst, genkey2_sst, get_num_signing_entities,
};
use hbs_lms::sst::helper::{get_sst_first_leaf_idx, get_subtree_node_idx};
use hbs_lms::sst::parameters::{SstExtension, SstsParameter};
use tinyvec::ArrayVec;

type H = Sha256Hasher;
type Nodes = ArrayVec<[ArrayVec<[u8; 32]>; 256]>;

fn levels() -> [HssParameter; 1] {
    [HssParameter::new(LmotsAlgorithm::LmotsW2, LmsAlgorithm::LmsH5)]
}

#[test]
fn parts_of_the_tree() {
    assert_eq!(get_sst_first_leaf_idx(0, 5, 1), 0);
    assert_eq!(get_sst_first_leaf_idx(1, 5, 1), 16);
    assert_eq!(get_sst_first_leaf_idx(3, 5, 2), 24);
    assert_eq!(get_sst_first_leaf_idx(0, 5, 0), 0);
    assert_eq!(get_sst_first_leaf_idx(31, 5, 5), 31);
    assert_eq!(get_subtree_node_idx(0, 5, 1), 2);
    assert_eq!(get_subtree_node_idx(1, 5, 1), 3);
    assert_eq!(get_subtree_node_idx(3, 5, 2), 7);
    assert_eq!(get_subtree_node_idx(0, 5, 0), 1);

    let ext = SstExtension { signing_entity_idx: 1, top_div_height: 1 };
    assert!(ext.check(LmsAlgorithm::LmsH5));
    assert_eq!(ext.leaf_range(LmsAlgorithm::LmsH5), (16, 32));
    let first = SstExtension { signing_entity_idx: 0, top_div_height: 1 };
    assert_eq!(first.leaf_range(LmsAlgorithm::LmsH5), (0, 16));
    assert!(!SstExtension { signing_entity_idx: 2, top_div_height: 1 }.check(LmsAlgorithm::LmsH5));
    assert!(!SstExtension { signing_entity_idx: 0, top_div_height: 3 }.check(LmsAlgorithm::LmsH2));
    assert!(!SstExtension { signing_entity_idx: 0, top_div_height: 0 }.check(LmsAlgorithm::LmsH5));
    assert!(SstExtension { signing_entity_idx: 255, top_div_height: 8 }.check(LmsAlgorithm::LmsH10));
    assert!(!SstExtension { signing_entity_idx: 0, top_div_height: 9 }.check(LmsAlgorithm::LmsH10));
}

#[test]
fn ceremony_of_two_entities_gives_the_public_key_of_key_generation() {
    let seed = [0x5au8; 32];
    let mut keys = Vec::new();
    let mut nodes = Nodes::new();
    for entity in 0..2u8 {
        let parameter = SstsParameter::new(&levels(), 1, entity);
        assert_eq!(parameter.get_top_div_height(), 1);
        assert_eq!(parameter.get_signing_entity_idx(), entity);
        assert_eq!(parameter.get_hss_parameters()[..], levels());
        let (key, node) = genkey1_sst::<H>(&parameter, &seed, None).unwrap();
        assert_eq!(key.as_slice().len(), 50);
        assert_eq!(key.as_slice()[7], 16 * entity);
        assert_eq!(key.as_slice()[48..], [entity, 1]);
        assert_eq!(node.len(), 32);
        assert_eq!(get_num_signing_entities::<H>(key.as_slice()).unwrap(), 2);
        assert_eq!(hss_lifetime::<H>(key.as_slice(), None).unwrap(), 16);
        keys.push(key);
        nodes.push(node);
    }
    assert_ne!(nodes[0], nodes[1]);

    let monolithic = hss_keygen::<H>(&levels(), Some(&seed), None).unwrap();
    for key in &keys {
        let combined = genkey2_sst::<H>(key.as_slice(), &nodes, None).unwrap();
        assert_eq!(combined.as_slice(), monolithic.public_key.as_slice());
    }
    assert_eq!(
        get_num_signing_entities::<H>(monolithic.private_key.as_slice()).unwrap(),
        1
    );

    let mut swapped = Nodes::new();
    swapped.push(nodes[1]);
    swapped.push(nodes[0]);
    let other = genkey2_sst::<H>(keys[0].as_slice(), &swapped, None).unwrap();
    assert_ne!(other.as_slice(), monolithic.public_key.as_slice());

    let mut used = Vec::new();
    for (entity, key) in keys.iter().enumerate() {
        for offset in [0u8, 1, 15] {
            let mut bytes = key.as_slice().to_vec();
            bytes[7] = 16 * entity as u8 + offset;
            let message = [entity as u8, offset];
            let (signature, next) = sign_message::<H>(&message, &bytes, &mut []).unwrap();
            assert!(hss_verify::<H>(
                &message,
                &signature,
                monolithic.public_key.as_slice()
            ));
            assert_eq!(signature[4..8], [0, 0, 0, 16 * entity as u8 + offset]);
            assert_eq!(next[7], 16 * entity as u8 + offset + 1);
            assert!(!used.contains(&signature[7]));
            used.push(signature[7]);
            if offset == 15 {
                assert_eq!(
                    sign_message::<H>(&message, &next, &mut []),
                    Err(ErrorKind::Exhausted)
                );
                assert_eq!(hss_lifetime::<H>(&next, None).unwrap(), 0);
                assert_eq!(next[16..48], [0u8; 32]);
            }
        }
    }
    assert_eq!(used.len(), 6);
}

#[test]
fn ceremony_checks_its_inputs() {
    let seed = [0x5au8; 32];
    let (key, node) = genkey1_sst::<H>(&SstsParameter::new(&levels(), 2, 3), &seed, None).unwrap();
    assert_eq!(get_num_signing_entities::<H>(key.as_slice()).unwrap(), 4);
    assert!(get_num_signing_entities::<H>(&key.as_slice()[..49]).is_err());

    let mut nodes = Nodes::new();
    for _ in 0..3 {
        nodes.push(node);
    }
    assert!(genkey2_sst::<H>(key.as_slice(), &nodes, None).is_err());
    nodes.push(node);
    assert!(genkey2_sst::<H>(key.as_slice(), &nodes, None).is_ok());
    assert!(genkey2_sst::<H>(&key.as_slice()[..47], &nodes, None).is_err());
    nodes.push(node);
    assert!(genkey2_sst::<H>(key.as_slice(), &nodes, None).is_err());
    nodes.pop();
    let mut short = node;
    short.pop();
    nodes[2] = short;
    assert!(genkey2_sst::<H>(key.as_slice(), &nodes, None).is_err());

    for (height, entity) in [(1u8, 2u8), (6, 0), (0, 1), (9, 0)] {
        let parameter = SstsParameter::new(&levels(), height, entity);
        assert!(genkey1_sst::<H>(&parameter, &seed, None).is_err());
        assert_eq!(
            entity_key_and_root::<H>(&parameter, &seed, &mut []).err(),
            Some(ErrorKind::InvalidParameter)
        );
    }
    assert!(genkey1_sst::<H>(&SstsParameter::new(&[], 1, 0), &seed, None).is_err());
}

#[test]
fn undivided_tree_has_one_entity_that_owns_the_root() {
    let seed = [0x5au8; 32];
    let parameter = SstsParameter::new(&levels(), 0, 0);
    let (key, node) = genkey1_sst::<H>(&parameter, &seed, None).unwrap();
    let monolithic = hss_keygen::<H>(&levels(), Some(&seed), None).unwrap();
    assert_eq!(key.as_slice(), monolithic.private_key.as_slice());
    assert_eq!(node.as_slice(), &monolithic.public_key.as_slice()[28..]);
    let mut nodes = Nodes::new();
    nodes.push(node);
    let combined = genkey2_sst::<H>(key.as_slice(), &nodes, None).unwrap();
    assert_eq!(combined.as_slice(), monolithic.public_key.as_slice());
}

#[test]
fn ceremony_fills_and_uses_the_buffer() {
    let seed = [0x5au8; 32];
    let parameter = SstsParameter::new(&levels(), 2, 1);
    let (key_plain, node_plain) = genkey1_sst::<H>(&parameter, &seed, None).unwrap();

    let mut aux_data = vec![0u8; 2_000];
    let aux_slice: &mut &mut [u8] = &mut &mut aux_data[..];
    let (key, node) = genkey1_sst::<H>(&parameter, &seed, Some(aux_slice)).unwrap();
    assert_eq!(key.as_slice(), key_plain.as_slice());
    assert_eq!(node, node_plain);
    assert_eq!(aux_slice[0], 0x80 + 5);
    assert_eq!(aux_slice[1 + 32 * 4..1 + 32 * 5], node[..]);
    let filled = aux_slice.to_vec();

    let (_, again) = genkey1_sst::<H>(&parameter, &seed, Some(aux_slice)).unwrap();
    assert_eq!(again, node);
    assert_eq!(aux_slice.to_vec(), filled);

    let mut nodes = Nodes::new();
    for entity in 0..4u8 {
        let (_, node) =
            genkey1_sst::<H>(&SstsParameter::new(&levels(), 2, entity), &seed, Some(aux_slice))
                .unwrap();
        nodes.push(node);
    }
    let combined = genkey2_sst::<H>(key.as_slice(), &nodes, Some(aux_slice)).unwrap();
    assert_eq!(aux_slice.to_vec(), filled);
    assert_eq!(combined.as_slice()[28..], filled[1..33]);
}
