use crossover_db::codec::{decode_id, encode_id, read_id, write_id, Key, ID_LEN, KEY_LEN};

#[test]
fn id_is_written_most_significant_byte_first() {
    assert_eq!(encode_id(0x0102_0304_0506_0708), vec![1, 2, 3, 4, 5, 6, 7, 8]);
    assert_eq!(encode_id(0), vec![0; 8]);
    assert_eq!(encode_id(u64::MAX), vec![255; 8]);
    assert_eq!(encode_id(256), vec![0, 0, 0, 0, 0, 0, 1, 0]);
}

#[test]
fn id_is_read_most_significant_byte_first() {
    assert_eq!(decode_id(&[1, 2, 3, 4, 5, 6, 7, 8]), Some(0x0102_0304_0506_0708));
    assert_eq!(decode_id(&[0; 8]), Some(0));
    assert_eq!(decode_id(&[255; 8]), Some(u64::MAX));
    assert_eq!(decode_id(&[0, 0, 0, 0, 0, 0, 1, 0]), Some(256));
}

#[test]
fn id_of_another_length_is_refused() {
    assert_eq!(decode_id(&[]), None);
    assert_eq!(decode_id(&[1, 2, 3, 4, 5, 6, 7]), None);
    assert_eq!(decode_id(&[1, 2, 3, 4, 5, 6, 7, 8, 9]), None);
}

#[test]
fn id_round_trips() {
    for x in [0u64, 1, 255, 256, 65_535, 65_536, 1 << 32, (1 << 56) - 1, 1 << 56, u64::MAX] {
        let bytes = encode_id(x);
        assert_eq!(bytes.len(), ID_LEN);
        assert_eq!(decode_id(&bytes), Some(x));
    }
}

#[test]
fn read_id_takes_eight_bytes_from_the_start_given() {
    let bytes = [9, 0, 0, 0, 0, 0, 0, 1, 2, 9, 9];
    assert_eq!(read_id(&bytes, 1), 0x0102);
    assert_eq!(read_id(&bytes, 0), 0x0900_0000_0000_0001);
    assert_eq!(read_id(&bytes, 3), 0x0000_0000_0102_0909);
}

#[test]
fn write_id_appends() {
    let mut out = vec![7u8];
    write_id(&mut out, 0x0A0B);
    assert_eq!(out, vec![7, 0, 0, 0, 0, 0, 0, 0x0A, 0x0B]);
}

#[test]
fn key_is_guild_then_source() {
    let key = Key { guild: 100, source: 1 };
    assert_eq!(
        key.encode(),
        vec![0, 0, 0, 0, 0, 0, 0, 100, 0, 0, 0, 0, 0, 0, 0, 1]
    );
    let key = Key { guild: 0x0102_0304_0506_0708, source: 0x1112_1314_1516_1718 };
    assert_eq!(
        key.encode(),
        vec![1, 2, 3, 4, 5, 6, 7, 8, 0x11, 0x12, 0x13, 0x14, 0x15, 0x16, 0x17, 0x18]
    );
}

#[test]
fn key_decodes_to_guild_and_source() {
    let bytes = [0, 0, 0, 0, 0, 0, 0, 100, 0, 0, 0, 0, 0, 0, 1, 0];
    assert_eq!(Key::decode(&bytes), Some(Key { guild: 100, source: 256 }));
}

#[test]
fn key_of_another_length_is_refused() {
    assert_eq!(Key::decode(&[]), None);
    assert_eq!(Key::decode(&[0; 8]), None);
    assert_eq!(Key::decode(&[0; 15]), None);
    assert_eq!(Key::decode(&[0; 17]), None);
}

#[test]
fn key_round_trips() {
    let ids = [0u64, 1, 255, 256, 1 << 40, u64::MAX];
    for guild in ids {
        for source in ids {
            let key = Key { guild, source };
            let bytes = key.encode();
            assert_eq!(bytes.len(), KEY_LEN);
            assert_eq!(Key::decode(&bytes), Some(key));
        }
    }
}

#[test]
fn distinct_keys_have_distinct_bytes() {
    assert_ne!(
        Key { guild: 1, source: 2 }.encode(),
        Key { guild: 2, source: 1 }.encode()
    );
    assert_ne!(
        Key { guild: 1, source: 256 }.encode(),
        Key { guild: 256, source: 1 }.encode()
    );
}

#[test]
fn keys_sort_by_guild_then_source() {
    let ids = [0u64, 1, 2, 255, 256, 257, 65_536, 1 << 56, u64::MAX];
    for g1 in ids {
        for s1 in ids {
            for g2 in ids {
                for s2 in ids {
                    let a = Key { guild: g1, source: s1 }.encode();
                    let b = Key { guild: g2, source: s2 }.encode();
                    assert_eq!(a < b, (g1, s1) < (g2, s2));
                }
            }
        }
    }
}
