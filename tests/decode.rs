use echoes_of_eternity::packing::{
    artifact_element_unpack, artifact_w1_pack, shard_unpack, unpack_artifact_key,
    unpack_artifact_signature, unpack_hints, TransformationError, HINT_OFFSET,
};
use echoes_of_eternity::params::{ARTIFACTKEYBYTES, K, OMEGA, SIGNATUREBYTES};
use echoes_of_eternity::poly::Artifact;
use echoes_of_eternity::polyvec::{artifact_array_k_pack_w1, ArtifactArrayK, ArtifactArrayL};

fn signature_with_hints(indices: &[u8], counts: [u8; 6]) -> Vec<u8> {
    let mut sig = vec![0u8; SIGNATUREBYTES];
    for (i, b) in indices.iter().enumerate() {
        sig[HINT_OFFSET + i] = *b;
    }
    for i in 0..K {
        sig[HINT_OFFSET + OMEGA + i] = counts[i];
    }
    sig
}

#[test]
fn empty_hint_region_decodes_to_zero() {
    let sig = signature_with_hints(&[], [0; 6]);
    let rows = unpack_hints(&sig).unwrap();
    assert_eq!(rows.len(), K);
    assert!(rows.iter().all(|r| r.elements.iter().all(|&x| x == 0)));
}

#[test]
fn hints_land_in_their_rows() {
    let sig = signature_with_hints(&[3, 200, 0, 255, 7], [2, 2, 4, 4, 4, 5]);
    let rows = unpack_hints(&sig).unwrap();
    let ones: Vec<Vec<usize>> = rows
        .iter()
        .map(|r| (0..256).filter(|&c| r.elements[c] == 1).collect())
        .collect();
    assert_eq!(ones, vec![vec![3, 200], vec![], vec![0, 255], vec![], vec![], vec![7]]);
}

#[test]
fn hint_indices_must_increase_within_a_row() {
    let sig = signature_with_hints(&[5, 5], [2, 2, 2, 2, 2, 2]);
    assert_eq!(unpack_hints(&sig).err(), Some(TransformationError::InvalidInput));
    let sig = signature_with_hints(&[9, 4], [2, 2, 2, 2, 2, 2]);
    assert_eq!(unpack_hints(&sig).err(), Some(TransformationError::InvalidInput));
    // a fall between rows is allowed
    let sig = signature_with_hints(&[9, 4], [1, 2, 2, 2, 2, 2]);
    assert!(unpack_hints(&sig).is_ok());
}

#[test]
fn bytes_past_the_last_count_must_be_zero() {
    let mut indices = vec![0u8; OMEGA];
    indices[0] = 1;
    indices[OMEGA - 1] = 1;
    let sig = signature_with_hints(&indices, [1, 1, 1, 1, 1, 1]);
    assert_eq!(unpack_hints(&sig).err(), Some(TransformationError::InvalidInput));
    indices[OMEGA - 1] = 0;
    let sig = signature_with_hints(&indices, [1, 1, 1, 1, 1, 1]);
    assert!(unpack_hints(&sig).is_ok());
}

#[test]
fn counts_must_not_fall_or_pass_omega() {
    let sig = signature_with_hints(&[1, 2], [2, 1, 2, 2, 2, 2]);
    assert_eq!(unpack_hints(&sig).err(), Some(TransformationError::InvalidInput));
    let sig = signature_with_hints(&[], [0, 0, 0, 0, 0, 56]);
    assert_eq!(unpack_hints(&sig).err(), Some(TransformationError::InvalidInput));
    let all: Vec<u8> = (0..55u8).collect();
    let sig = signature_with_hints(&all, [55, 55, 55, 55, 55, 55]);
    assert!(unpack_hints(&sig).is_ok());
}

#[test]
fn t1_row_unpacks_ten_bit_fields() {
    let mut bytes = vec![0u8; 320];
    // fields 0..4 = 1, 1023, 512, 3 packed into 40 bits
    let w: u64 = 1 | (1023 << 10) | (512 << 20) | (3 << 30);
    for i in 0..5 {
        bytes[i] = (w >> (8 * i)) as u8;
    }
    bytes[319] = 0xff;
    let mut r = Artifact::default();
    artifact_element_unpack(&mut r, &bytes, 0);
    assert_eq!(&r.elements[..5], &[1, 1023, 512, 3, 0]);
    assert_eq!(r.elements[255], 0x3fc);
}

#[test]
fn response_row_unpacks_twenty_bit_fields() {
    let mut bytes = vec![0u8; 640];
    let w: u64 = 0 | (0xfffff << 20);
    for i in 0..5 {
        bytes[i] = (w >> (8 * i)) as u8;
    }
    let mut r = Artifact::default();
    shard_unpack(&mut r, &bytes, 0);
    assert_eq!(r.elements[0], 524288);
    assert_eq!(r.elements[1], 524288 - 0xfffff);
    assert_eq!(r.elements[2], 524288);
}

#[test]
fn high_bits_pack_two_per_byte() {
    let mut a = Artifact::default();
    a.elements[0] = 3;
    a.elements[1] = 15;
    a.elements[255] = 9;
    let mut out = vec![0xaau8; 130];
    artifact_w1_pack(&mut out, 1, &a);
    assert_eq!(out[0], 0xaa);
    assert_eq!(out[1], 0xf3);
    assert_eq!(out[128], 0x90);
    assert_eq!(out[129], 0xaa);
    let mut v = ArtifactArrayK::new(K);
    v.elements[5].elements[2] = 1;
    let mut buf = vec![0u8; K * 128];
    artifact_array_k_pack_w1(&mut buf, &v);
    assert_eq!(buf[5 * 128 + 1], 1);
    assert_eq!(buf.iter().filter(|&&b| b != 0).count(), 1);
}

#[test]
fn key_unpacks_seed_and_rows() {
    let key: Vec<u8> = (0..ARTIFACTKEYBYTES).map(|i| (i * 13) as u8).collect();
    let mut essence = vec![0u8; 32];
    let mut rows = ArtifactArrayK::default();
    unpack_artifact_key(&mut essence, &mut rows, &key);
    assert_eq!(&essence[..], &key[..32]);
    let mut row = Artifact::default();
    artifact_element_unpack(&mut row, &key, 32 + 3 * 320);
    assert_eq!(rows.elements[3].elements, row.elements);
}

#[test]
fn signature_unpacks_seal_and_rows() {
    let mut sig = signature_with_hints(&[10], [0, 1, 1, 1, 1, 1]);
    for i in 0..32 {
        sig[i] = i as u8;
    }
    let mut seal = vec![0u8; 32];
    let mut shards = ArtifactArrayL::default();
    let mut glyph = ArtifactArrayK::default();
    assert_eq!(unpack_artifact_signature(&mut seal, &mut shards, &mut glyph, &sig), Ok(()));
    assert_eq!(seal, (0..32u8).collect::<Vec<u8>>());
    assert!(shards.elements.iter().all(|r| r.elements.iter().all(|&x| x == 524288)));
    assert_eq!(glyph.elements[1].elements[10], 1);
    assert_eq!(glyph.elements[0].elements[10], 0);
}
