use aes::block::Block;
use aes::enc::{
    encrypt_block, encrypt_blocks_multiple, encrypt_with_round_keys, final_round, full_round,
    mix_columns, shift_rows, sub_bytes,
};
use aes::key_expansion::KeyExpander;

fn fips_key() -> Block {
    Block::new([
        0x2b, 0x7e, 0x15, 0x16, 0x28, 0xae, 0xd2, 0xa6, 0xab, 0xf7, 0x15, 0x88, 0x09, 0xcf, 0x4f,
        0x3c,
    ])
}

fn fips_plaintext() -> Block {
    Block::new([
        0x32, 0x43, 0xf6, 0xa8, 0x88, 0x5a, 0x30, 0x8d, 0x31, 0x31, 0x98, 0xa2, 0xe0, 0x37, 0x07,
        0x34,
    ])
}

#[test]
fn mix_columns_test() {
    let mut block = Block::new([
        0x63, 0x2f, 0xaf, 0xa2, 0xeb, 0x93, 0xc7, 0x20, 0x9f, 0x92, 0xab, 0xcb, 0xa0, 0xc0, 0x30,
        0x2b,
    ]);

    mix_columns(&mut block);

    assert_eq!(
        block,
        Block::new([
            0xba, 0x75, 0xf4, 0x7a, 0x84, 0xa4, 0x8d, 0x32, 0xe8, 0x8d, 0x06, 0x0e, 0x1b, 0x40,
            0x7d, 0x5d
        ])
    );

    block = Block::new([
        0xd4, 0xbf, 0x5d, 0x30, 0xe0, 0xb4, 0x52, 0xae, 0xb8, 0x41, 0x11, 0xf1, 0x1e, 0x27, 0x98,
        0xe5,
    ]);

    mix_columns(&mut block);

    assert_eq!(
        block,
        Block::new([
            0x04, 0x66, 0x81, 0xe5, 0xe0, 0xcb, 0x19, 0x9a, 0x48, 0xf8, 0xd3, 0x7a, 0x28, 0x06,
            0x26, 0x4c
        ])
    );
}

#[test]
fn encrypt_test() {
    let plaintext = Block::from_str_single("Two One Nine Two");
    let key = Block::from_str_single("Thats my Kung Fu");

    let block = encrypt_block(plaintext, key);

    assert_eq!(
        block,
        Block::new([
            0x29, 0xc3, 0x50, 0x5f, 0x57, 0x14, 0x20, 0xf6, 0x40, 0x22, 0x99, 0xb3, 0x1a, 0x2,
            0xd7, 0x3a
        ])
    );

    let plaintext = Block::new([
        0x32, 0x43, 0xf6, 0xa8, 0x88, 0x5a, 0x30, 0x8d, 0x31, 0x31, 0x98, 0xa2, 0xe0, 0x37, 0x07,
        0x34,
    ]);
    let key = Block::new([
        0x2b, 0x7e, 0x15, 0x16, 0x28, 0xae, 0xd2, 0xa6, 0xab, 0xf7, 0x15, 0x88, 0x09, 0xcf, 0x4f,
        0x3c,
    ]);

    let block = encrypt_block(plaintext, key);

    assert_eq!(
        block,
        Block::new([
            0x39, 0x25, 0x84, 0x1d, 0x02, 0xdc, 0x09, 0xfb, 0xdc, 0x11, 0x85, 0x97, 0x19, 0x6a,
            0x0b, 0x32
        ])
    );

    let test = [
        Block::new([
            0x80, 0xc1, 0x99, 0x5a, 0x44, 0xe2, 0xfa, 0xae, 0x3f, 0x8d, 0x6, 0x4c, 0x15, 0x82,
            0x60, 0xea,
        ]),
        Block::new([
            0x5a, 0x66, 0xb0, 0x48, 0x0d, 0x4f, 0x5c, 0xa3, 0x5d, 0xb2, 0xe5, 0x1e, 0x3a, 0xed,
            0x36, 0x25,
        ]),
    ];

    let blocks = Block::from_str_multiple("This is a long message 123456789");

    for (encrypted_block, test) in encrypt_blocks_multiple(blocks, key).into_iter().zip(test) {
        assert_eq!(encrypted_block, test);
    }
}

#[test]
fn bulk_output_has_one_block_per_input_block() {
    let key = fips_key();
    let blocks = Block::from_str_multiple("This is a long message 123456789");
    assert_eq!(blocks.len(), 2);
    let out = encrypt_blocks_multiple(blocks, key);
    assert_eq!(out.len(), 2);
    assert_eq!(
        out[0].to_bytes(),
        [
            0x80, 0xc1, 0x99, 0x5a, 0x44, 0xe2, 0xfa, 0xae, 0x3f, 0x8d, 0x6, 0x4c, 0x15, 0x82,
            0x60, 0xea
        ]
    );
    assert_eq!(
        out[1].to_bytes(),
        [
            0x5a, 0x66, 0xb0, 0x48, 0x0d, 0x4f, 0x5c, 0xa3, 0x5d, 0xb2, 0xe5, 0x1e, 0x3a, 0xed,
            0x36, 0x25
        ]
    );
}

#[test]
fn bulk_of_nothing_is_nothing() {
    let out = encrypt_blocks_multiple(Vec::new(), fips_key());
    assert!(out.is_empty());
}

#[test]
fn bulk_equals_block_by_block() {
    let key = Block::from_str_single("Thats my Kung Fu");
    let mut data = Vec::new();
    for i in 0..(16 * 7 + 5) {
        data.push((i * 37 + 11) as u8);
    }
    let blocks = Block::from_slice_multiple(&data);
    assert_eq!(blocks.len(), 8);
    let bulk = encrypt_blocks_multiple(blocks.clone(), key);
    assert_eq!(bulk.len(), blocks.len());
    for i in 0..blocks.len() {
        assert_eq!(bulk[i], encrypt_block(blocks[i], key));
    }
}

#[test]
fn equal_blocks_encrypt_alike_wherever_they_stand() {
    let key = fips_key();
    let p = fips_plaintext();
    let out = encrypt_blocks_multiple(vec![p, Block::new([0; 16]), p], key);
    assert_eq!(out[0], out[2]);
    assert_ne!(out[0], out[1]);
    assert_eq!(
        out[0].to_bytes(),
        [
            0x39, 0x25, 0x84, 0x1d, 0x02, 0xdc, 0x09, 0xfb, 0xdc, 0x11, 0x85, 0x97, 0x19, 0x6a,
            0x0b, 0x32
        ]
    );
}

#[test]
fn all_zero_key_and_block() {
    let zero = Block::new([0; 16]);
    assert_eq!(
        encrypt_block(zero, zero).to_bytes(),
        [
            0x66, 0xe9, 0x4b, 0xd4, 0xef, 0x8a, 0x2c, 0x3b, 0x88, 0x4c, 0xfa, 0x59, 0xca, 0x34,
            0x2b, 0x2e
        ]
    );
}

#[test]
fn sequential_key_vector() {
    let plaintext = Block::new([
        0x00, 0x11, 0x22, 0x33, 0x44, 0x55, 0x66, 0x77, 0x88, 0x99, 0xaa, 0xbb, 0xcc, 0xdd, 0xee,
        0xff,
    ]);
    let key = Block::new([
        0x00, 0x01, 0x02, 0x03, 0x04, 0x05, 0x06, 0x07, 0x08, 0x09, 0x0a, 0x0b, 0x0c, 0x0d, 0x0e,
        0x0f,
    ]);
    assert_eq!(
        encrypt_block(plaintext, key).to_bytes(),
        [
            0x69, 0xc4, 0xe0, 0xd8, 0x6a, 0x7b, 0x04, 0x30, 0xd8, 0xcd, 0xb7, 0x80, 0x70, 0xb4,
            0xc5, 0x5a
        ]
    );
}

#[test]
fn encrypt_with_precomputed_round_keys() {
    let key = fips_key();
    let keys = KeyExpander::all_round_keys(key);
    let out = encrypt_with_round_keys(fips_plaintext(), key, &keys);
    assert_eq!(out, encrypt_block(fips_plaintext(), key));
}

#[test]
fn first_round_of_the_standard_example() {
    let key = fips_key();
    let mut state = fips_plaintext() ^ key;
    assert_eq!(
        state.to_bytes(),
        [
            0x19, 0x3d, 0xe3, 0xbe, 0xa0, 0xf4, 0xe2, 0x2b, 0x9a, 0xc6, 0x8d, 0x2a, 0xe9, 0xf8,
            0x48, 0x08
        ]
    );
    sub_bytes(&mut state);
    assert_eq!(
        state.to_bytes(),
        [
            0xd4, 0x27, 0x11, 0xae, 0xe0, 0xbf, 0x98, 0xf1, 0xb8, 0xb4, 0x5d, 0xe5, 0x1e, 0x41,
            0x52, 0x30
        ]
    );
    shift_rows(&mut state);
    assert_eq!(
        state.to_bytes(),
        [
            0xd4, 0xbf, 0x5d, 0x30, 0xe0, 0xb4, 0x52, 0xae, 0xb8, 0x41, 0x11, 0xf1, 0x1e, 0x27,
            0x98, 0xe5
        ]
    );
    mix_columns(&mut state);
    assert_eq!(
        state.to_bytes(),
        [
            0x04, 0x66, 0x81, 0xe5, 0xe0, 0xcb, 0x19, 0x9a, 0x48, 0xf8, 0xd3, 0x7a, 0x28, 0x06,
            0x26, 0x4c
        ]
    );
}

#[test]
fn full_round_of_the_standard_example() {
    let key = fips_key();
    let mut expander = KeyExpander::new(key);
    let mut state = fips_plaintext() ^ key;
    full_round(&mut state, expander.next_key());
    assert_eq!(
        state.to_bytes(),
        [
            0xa4, 0x9c, 0x7f, 0xf2, 0x68, 0x9f, 0x35, 0x2b, 0x6b, 0x5b, 0xea, 0x43, 0x02, 0x6a,
            0x50, 0x49
        ]
    );
}

#[test]
fn final_round_of_the_standard_example() {
    let keys = KeyExpander::all_round_keys(fips_key());
    let mut state = Block::new([
        0xeb, 0x40, 0xf2, 0x1e, 0x59, 0x2e, 0x38, 0x84, 0x8b, 0xa1, 0x13, 0xe7, 0x1b, 0xc3, 0x42,
        0xd2,
    ]);
    final_round(&mut state, keys[9]);
    assert_eq!(
        state.to_bytes(),
        [
            0x39, 0x25, 0x84, 0x1d, 0x02, 0xdc, 0x09, 0xfb, 0xdc, 0x11, 0x85, 0x97, 0x19, 0x6a,
            0x0b, 0x32
        ]
    );
}

#[test]
fn shift_rows_moves_row_r_by_r_columns() {
    let mut state = Block::new([0, 1, 2, 3, 4, 5, 6, 7, 8, 9, 10, 11, 12, 13, 14, 15]);
    shift_rows(&mut state);
    assert_eq!(
        state.to_bytes(),
        [0, 5, 10, 15, 4, 9, 14, 3, 8, 13, 2, 7, 12, 1, 6, 11]
    );
}

#[test]
fn sub_bytes_maps_every_byte() {
    let mut state = Block::new([
        0x00, 0x01, 0x53, 0xff, 0x10, 0x20, 0x30, 0x40, 0x50, 0x60, 0x70, 0x80, 0x90, 0xa0, 0xb0,
        0xc0,
    ]);
    sub_bytes(&mut state);
    assert_eq!(
        state.to_bytes(),
        [
            0x63, 0x7c, 0xed, 0x16, 0xca, 0xb7, 0x04, 0x09, 0x53, 0xd0, 0x51, 0xcd, 0x60, 0xe0,
            0xe7, 0xba
        ]
    );
}

#[test]
fn mix_columns_known_columns() {
    let mut state = Block::new([
        0xdb, 0x13, 0x53, 0x45, 0xf2, 0x0a, 0x22, 0x5c, 0x01, 0x01, 0x01, 0x01, 0xc6, 0xc6, 0xc6,
        0xc6,
    ]);
    mix_columns(&mut state);
    assert_eq!(
        state.to_bytes(),
        [
            0x8e, 0x4d, 0xa1, 0xbc, 0x9f, 0xdc, 0x58, 0x9d, 0x01, 0x01, 0x01, 0x01, 0xc6, 0xc6,
            0xc6, 0xc6
        ]
    );
}
