use weavatrix_stream::hash::{bucket, mix};

#[test]
fn hash_ids_offset_by_width_do_not_collide_in_every_replica() {
    let width = 64_usize;
    let left = 7_u64.to_le_bytes();
    let right = (7_u64 + width as u64).to_le_bytes();
    let collisions = (0..8)
        .filter(|replica| {
            let seed = 0xA5A5_A5A5_A5A5_A5A5 ^ (*replica * 0x1111_1111_1111_1111);
            bucket(mix(seed, &left), width) == bucket(mix(seed, &right), width)
        })
        .count();
    assert!(
        collisions < 8,
        "full-key hashes must not share the AnoGraph (u+b) collision"
    );
}
