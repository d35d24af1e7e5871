use dc_generator::hash::fnv1a_bytes;
use dc_generator::hash::fnv1a_of_str;
use dc_generator::partition::get_partition;

#[test]
fn digest_matches_reference_values() {
    // Reference values of 64-bit FNV-1a.
    assert_eq!(fnv1a_bytes(&[]), 0xcbf29ce484222325);
    assert_eq!(fnv1a_bytes(b"a"), 0xaf63dc4c8601ec8c);
    assert_eq!(fnv1a_of_str("a"), 0xaf63dc4c8601ec8c);
}

#[test]
fn digest_folds_byte_by_byte() {
    // One round by hand: the digest of "ab" extends the digest of "a".
    let h1 = fnv1a_bytes(b"a");
    let expected = (h1 ^ (b'b' as u64)).wrapping_mul(0x100000001b3);
    assert_eq!(fnv1a_bytes(b"ab"), expected);
}

#[test]
fn assignment_is_deterministic() {
    // The same key and count give the same index on every call.
    let first = get_partition("zone-A-server-4", 7);
    let second = get_partition("zone-A-server-4", 7);
    assert_eq!(first, second);
}

#[test]
fn assignment_stays_in_range() {
    for p in 1..10u16 {
        for s in 0..20u16 {
            let key = format!("zone-A-server-{}", s);
            assert!(get_partition(&key, p) < p);
        }
    }
}

#[test]
fn single_partition_gets_everything() {
    assert_eq!(get_partition("zone-A-server-0", 1), 0);
    assert_eq!(get_partition("anything", 1), 0);
}

#[test]
fn assignment_is_stable_over_repeated_calls() {
    // Broker mode with three partitions: one hundred repeated assignments of
    // one host key all return the same index.
    let first = get_partition("zone-A-server-0", 3);
    for _ in 0..100 {
        assert_eq!(get_partition("zone-A-server-0", 3), first);
    }
}
