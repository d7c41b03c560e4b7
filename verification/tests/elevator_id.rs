use std::hash::{Hash, Hasher};

use elevator_control::elevator_id::{fold_hash, generate_id_from_machine_id, id_from_argument};

#[test]
fn folding_xors_the_four_quarters() {
    assert_eq!(fold_hash(0), 0);
    assert_eq!(fold_hash(0x0001_0002_0004_0008), 0x000f);
    assert_eq!(fold_hash(u64::MAX), 0);
    assert_eq!(fold_hash(0x1234), 0x1234);
    assert_eq!(fold_hash(0xabcd_0000_0000_0000), 0xabcd);
}

#[test]
fn machine_id_is_hashed_then_folded() {
    for id in ["", "abc", "0123456789abcdef0123456789abcdef", " abc\n", "\n\t0123 \n"] {
        let mut hasher = std::collections::hash_map::DefaultHasher::new();
        id.trim().hash(&mut hasher);
        let h = hasher.finish();
        let expected = (h ^ (h >> 16) ^ (h >> 32) ^ (h >> 48)) as u16;
        assert_eq!(generate_id_from_machine_id(id), expected);
    }
}

#[test]
fn the_command_line_identifier_is_used_when_it_reads() {
    assert_eq!(id_from_argument(Some("12")), Some(12));
    assert_eq!(id_from_argument(Some("+65535")), Some(65535));
    assert_eq!(id_from_argument(Some("65536")), None);
    assert_eq!(id_from_argument(Some("x")), None);
    assert_eq!(id_from_argument(None), None);
}
