use aes::block::Block;

#[test]
fn new_keeps_the_flat_order() {
    let bytes = [0, 1, 2, 3, 4, 5, 6, 7, 8, 9, 10, 11, 12, 13, 14, 15];
    assert_eq!(Block::new(bytes).to_bytes(), bytes);
}

#[test]
fn short_slice_is_zero_padded() {
    let block = Block::from_slice_single(&[1, 2, 3, 4, 5]);
    assert_eq!(
        block.to_bytes(),
        [1, 2, 3, 4, 5, 0, 0, 0, 0, 0, 0, 0, 0, 0, 0, 0]
    );
}

#[test]
fn long_slice_is_truncated() {
    let input: Vec<u8> = (1..=20).collect();
    let block = Block::from_slice_single(&input);
    assert_eq!(
        block.to_bytes(),
        [1, 2, 3, 4, 5, 6, 7, 8, 9, 10, 11, 12, 13, 14, 15, 16]
    );
}

#[test]
fn empty_slice_is_all_zero() {
    assert_eq!(Block::from_slice_single(&[]), Block::new([0; 16]));
}

#[test]
fn exact_slice_is_kept() {
    let input: Vec<u8> = (100..116).collect();
    let mut expected = [0u8; 16];
    expected.copy_from_slice(&input);
    assert_eq!(Block::from_slice_single(&input).to_bytes(), expected);
}

#[test]
fn thirty_three_bytes_make_three_blocks() {
    let input: Vec<u8> = (1..=33).collect();
    let blocks = Block::from_slice_multiple(&input);
    assert_eq!(blocks.len(), 3);
    assert_eq!(
        blocks[0].to_bytes(),
        [1, 2, 3, 4, 5, 6, 7, 8, 9, 10, 11, 12, 13, 14, 15, 16]
    );
    assert_eq!(
        blocks[1].to_bytes(),
        [17, 18, 19, 20, 21, 22, 23, 24, 25, 26, 27, 28, 29, 30, 31, 32]
    );
    assert_eq!(
        blocks[2].to_bytes(),
        [33, 0, 0, 0, 0, 0, 0, 0, 0, 0, 0, 0, 0, 0, 0, 0]
    );
}

#[test]
fn chunk_counts_at_the_edges() {
    assert_eq!(Block::from_slice_multiple(&[]).len(), 0);
    assert_eq!(Block::from_slice_multiple(&[7]).len(), 1);
    assert_eq!(Block::from_slice_multiple(&[7; 15]).len(), 1);
    assert_eq!(Block::from_slice_multiple(&[7; 16]).len(), 1);
    assert_eq!(Block::from_slice_multiple(&[7; 17]).len(), 2);
    assert_eq!(Block::from_slice_multiple(&[7; 32]).len(), 2);
}

#[test]
fn full_chunks_are_not_padded() {
    let blocks = Block::from_slice_multiple(&[9; 32]);
    assert_eq!(blocks, vec![Block::new([9; 16]), Block::new([9; 16])]);
}

#[test]
fn text_gives_its_bytes() {
    let block = Block::from_str_single("Thats my Kung Fu");
    assert_eq!(
        block.to_bytes(),
        [
            0x54, 0x68, 0x61, 0x74, 0x73, 0x20, 0x6d, 0x79, 0x20, 0x4b, 0x75, 0x6e, 0x67, 0x20,
            0x46, 0x75
        ]
    );
}

#[test]
fn short_text_is_zero_padded() {
    assert_eq!(
        Block::from_str_single("abc").to_bytes(),
        [0x61, 0x62, 0x63, 0, 0, 0, 0, 0, 0, 0, 0, 0, 0, 0, 0, 0]
    );
}

#[test]
fn text_beyond_one_byte_per_character_is_taken_by_its_encoding() {
    assert_eq!(
        Block::from_str_single("\u{e9}a").to_bytes(),
        [0xc3, 0xa9, 0x61, 0, 0, 0, 0, 0, 0, 0, 0, 0, 0, 0, 0, 0]
    );
}

#[test]
fn long_text_makes_several_blocks() {
    let blocks = Block::from_str_multiple("This is a long message 123456789");
    assert_eq!(blocks.len(), 2);
    assert_eq!(blocks[0], Block::from_str_single("This is a long m"));
    assert_eq!(blocks[1], Block::from_str_single("essage 123456789"));
    let blocks = Block::from_str_multiple("This is a long message 1234567890");
    assert_eq!(blocks.len(), 3);
    assert_eq!(blocks[2], Block::from_str_single("0"));
}

#[test]
fn parse_is_from_str_single() {
    let parsed: Block = "Two One Nine Two".parse().unwrap();
    assert_eq!(parsed, Block::from_str_single("Two One Nine Two"));
}

#[test]
fn xor_is_byte_by_byte() {
    let a = Block::new([
        0x00, 0xff, 0x0f, 0xf0, 0x55, 0xaa, 0x01, 0x80, 1, 2, 3, 4, 5, 6, 7, 8,
    ]);
    let b = Block::new([
        0xff, 0xff, 0xff, 0x0f, 0xaa, 0xaa, 0x01, 0x01, 8, 7, 6, 5, 4, 3, 2, 1,
    ]);
    assert_eq!(
        (a ^ b).to_bytes(),
        [0xff, 0x00, 0xf0, 0xff, 0xff, 0x00, 0x00, 0x81, 9, 5, 5, 1, 1, 5, 5, 9]
    );
}

#[test]
fn xor_twice_gives_the_block_back() {
    let a = Block::from_str_single("Two One Nine Two");
    let b = Block::from_str_single("Thats my Kung Fu");
    assert_eq!((a ^ b) ^ b, a);
    assert_eq!((b ^ a) ^ a, b);
}

#[test]
fn xor_with_itself_is_zero() {
    let a = Block::from_str_single("Two One Nine Two");
    assert_eq!(a ^ a, Block::new([0; 16]));
}

#[test]
fn xor_assign_is_xor() {
    let a = Block::from_str_single("Two One Nine Two");
    let b = Block::from_str_single("Thats my Kung Fu");
    let mut c = a;
    c ^= b;
    assert_eq!(c, a ^ b);
    assert_ne!(c, a);
}
