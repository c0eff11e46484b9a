use vcx_enc::digest::{hash_bytes, SourceHasher};
use vcx_enc::pipeline::default_manifest_id;
use vcx_enc::sidecar::hash_label;

#[test]
fn hash_of_nothing() {
    let expected = "af1349b9f5f9a1a6a0404dea36dcc9499bcb25c9adc112b7cc9a93cae41f3262";
    assert_eq!(hex::encode(hash_bytes(&[])), expected);
    assert_eq!(hex::encode(SourceHasher::new().finalize()), expected);
}

#[test]
fn hash_agrees_with_blake3() {
    let data: Vec<u8> = (0..100_000u32).map(|i| (i * 7 + 3) as u8).collect();
    assert_eq!(hash_bytes(&data), *blake3::hash(&data).as_bytes());
    assert_eq!(hash_bytes(b"abc"), *blake3::hash(b"abc").as_bytes());
    assert_ne!(hash_bytes(b"abc"), hash_bytes(b"abd"));
}

#[test]
fn hash_in_pieces_is_the_hash_of_the_whole() {
    let data: Vec<u8> = (0..200_000u32).map(|i| (i ^ (i >> 8)) as u8).collect();
    let mut h = SourceHasher::new();
    for piece in data.chunks(64 * 1024) {
        h.update(piece);
    }
    assert_eq!(h.finalize(), hash_bytes(&data));
    let mut h = SourceHasher::new();
    h.update(&data[..1]);
    h.update(&[]);
    h.update(&data[1..]);
    assert_eq!(h.finalize(), hash_bytes(&data));
}

#[test]
fn finalize_leaves_the_hasher_usable() {
    let mut h = SourceHasher::new();
    h.update(b"foo");
    assert_eq!(h.finalize(), hash_bytes(b"foo"));
    assert_eq!(h.finalize(), hash_bytes(b"foo"));
    h.update(b"bar");
    assert_eq!(h.finalize(), hash_bytes(b"foobar"));
}

#[test]
fn hash_label_is_prefixed_lowercase_hex() {
    let mut hash = [0u8; 32];
    for (i, b) in hash.iter_mut().enumerate() {
        *b = (i * 8 + 7) as u8;
    }
    assert_eq!(
        hash_label(&hash),
        "b3:070f171f272f373f474f575f676f777f878f979fa7afb7bfc7cfd7dfe7eff7ff"
    );
    assert_eq!(hash_label(&[0xab; 32]), format!("b3:{}", "ab".repeat(32)));
}

#[test]
fn default_manifest_id_takes_twelve_bytes_of_the_hash() {
    let mut hash = [0u8; 32];
    for (i, b) in hash.iter_mut().enumerate() {
        *b = (0xf0 + i) as u8;
    }
    assert_eq!(default_manifest_id(&hash), "m:mp4:f0f1f2f3f4f5f6f7f8f9fafb");
    assert_eq!(default_manifest_id(&[0; 32]), "m:mp4:000000000000000000000000");
    let h = hash_bytes(b"source");
    assert_eq!(default_manifest_id(&h), format!("m:mp4:{}", &hex::encode(h)[..24]));
}
