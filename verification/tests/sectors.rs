use buckyos_backup::sector::SectorBuilder;

fn pseudo_random_bytes(n: usize, seed: u64) -> Vec<u8> {
    let mut x = seed;
    (0..n)
        .map(|_| {
            x = x.wrapping_mul(6364136223846793005).wrapping_add(1442695040888963407);
            (x >> 33) as u8
        })
        .collect()
}

fn chunk_id_of(data: &[u8]) -> Vec<u8> {
    // A 32-byte id derived from the data (the sector header keeps ids of this size).
    let mut id = vec![0u8; 32];
    for (i, b) in data.iter().enumerate() {
        id[i % 32] = id[i % 32].wrapping_add(*b).rotate_left(1);
    }
    id
}

#[test]
fn test_sector_encrypt_and_decrypt() {
    // one chunk without a key: the sector body holds the chunk as it is
    let chunk_length = 1024u64;
    let data = pseudo_random_bytes(chunk_length as usize, 7);
    let chunk_id = chunk_id_of(&data);
    let mut builder = SectorBuilder::new();
    builder.add_chunk(chunk_id.clone(), 0..chunk_length);
    let meta = builder.build();
    let image = meta.encrypt_sector(&vec![data.clone()]).ok().unwrap();
    assert_eq!(image.len() as u64, meta.sector_length());
    let body = &image[meta.header_length() as usize..];
    assert_eq!(body.len(), 1024);
    assert_eq!(body, &data[..]);
    let (range, bytes) = meta.decrypt_chunk(&image, &chunk_id).ok().unwrap();
    assert_eq!(range, 0..chunk_length);
    assert_eq!(bytes, data);

    // one chunk with a key: the body is ciphertext, and decrypting gives the chunk back
    let data = pseudo_random_bytes(chunk_length as usize, 11);
    let chunk_id = chunk_id_of(&data);
    let key = pseudo_random_bytes(32, 99);
    let mut builder = SectorBuilder::new().with_key(key);
    builder.add_chunk(chunk_id.clone(), 0..chunk_length);
    let meta = builder.build();
    let image = meta.encrypt_sector(&vec![data.clone()]).ok().unwrap();
    assert_ne!(&image[meta.header_length() as usize..], &data[..]);
    let (_, bytes) = meta.decrypt_chunk(&image, &chunk_id).ok().unwrap();
    assert_eq!(bytes, data);
}

#[test]
fn sector_with_two_chunks_and_small_blocks_round_trips() {
    let a = pseudo_random_bytes(100, 1);
    let b = pseudo_random_bytes(300, 2);
    let (ida, idb) = (chunk_id_of(&a), chunk_id_of(&b));
    let mut builder = SectorBuilder::new().with_key(pseudo_random_bytes(40, 5)).with_block_size(64);
    builder.add_chunk(ida.clone(), 0..100);
    builder.add_chunk(idb.clone(), 50..300);
    let meta = builder.build();
    let image = meta.encrypt_sector(&vec![a.clone(), b.clone()]).ok().unwrap();
    let (ra, ba) = meta.decrypt_chunk(&image, &ida).ok().unwrap();
    assert!(ra == (0..100) && ba == a, "first chunk differs");
    let (rb, bb) = meta.decrypt_chunk(&image, &idb).ok().unwrap();
    assert!(rb == (50..300), "second range {:?}", rb);
    assert!(bb == b[50..300].to_vec(), "second chunk differs");
    assert!(meta.decrypt_chunk(&image, &[0u8; 32]).is_err());

    // encrypting from a block boundary (block offsets count from the sector's
    // start) that the chunk lookup accepts gives the tail of the full image
    let hl = meta.header_length();
    let mut accepted = 0;
    let mut from = (hl / 64 + 1) * 64;
    while from < image.len() as u64 {
        if let Ok(tail) = meta.encrypt_sector_from(&vec![a.clone(), b.clone()], from) {
            assert!(tail[..] == image[from as usize..], "tail from {} differs", from);
            accepted += 1;
        }
        from += 64;
    }
    assert!(accepted > 0);
    // an offset inside a block past the header is refused
    assert!(meta.encrypt_sector_from(&vec![a.clone(), b.clone()], hl + 65 - (hl + 65) % 64 + 1).is_err());
    // decrypting from the start of a cipher chain (the body's start, or a block
    // boundary past it) gives the plain bytes of the body from there
    let whole = meta.decrypt_sector_from(&image, hl).ok().unwrap();
    let mut body = a.clone();
    body.extend_from_slice(&b[50..300]);
    assert!(whole[..body.len()] == body[..], "decrypted body differs");
    let skip = ((hl / 64 + 1) * 64 - hl) as usize;
    let plain = meta.decrypt_sector_from(&image, hl + skip as u64).ok().unwrap();
    assert_eq!(plain.len() as u64, meta.sector_length() - hl - skip as u64);
    assert!(plain[..body.len() - skip] == body[skip..], "decrypted tail differs");
    assert_eq!(meta.sector_id().len(), 32);
}

#[test]
fn sector_length_rounds_header_and_body_up_to_cipher_blocks() {
    let mut a = SectorBuilder::new();
    a.add_chunk(chunk_id_of(b"abc"), 0..5);
    a.add_chunk(chunk_id_of(b"def"), 10..13);
    let m = a.build();
    let mut b = SectorBuilder::new();
    b.add_chunk(chunk_id_of(b"abc"), 0..5);
    b.add_chunk(chunk_id_of(b"def"), 10..13);
    let n = b.build();
    assert_eq!(m.body_length(), 8);
    assert_eq!(m.header_length() % 16, 0);
    let raw = m.header_length() + m.body_length();
    assert_eq!(m.sector_length() % 16, 0);
    assert!(raw <= m.sector_length() && m.sector_length() < raw + 16);
    assert_eq!(m.sector_length(), raw + 8);
    assert_eq!(m.sector_id(), n.sector_id());
    assert_eq!(m.sector_length(), n.sector_length());
}
