//! Partition routing: assigns each host key to a stable partition.
//!
//! All records for one host key land on the same partition, which preserves
//! per-host order at the broker while spreading hosts across partitions.
use vstd::prelude::*;

use crate::hash::fnv1a_of_str;
use crate::hash::fnv1a_str;

verus! {

/// The partition assigned to `key` among `partitions_num` partitions:
/// a fixed hash of the key reduced modulo the partition count.
pub open spec fn spec_assign(key: Seq<char>, partitions_num: u16) -> u16
    recommends
        partitions_num >= 1,
{
    (fnv1a_str(key) % (partitions_num as u64)) as u16
}

/// Routes `key` to its partition.
pub fn get_partition(key: &str, partitions_num: u16) -> (p: u16)
    requires
        partitions_num >= 1,
    ensures
        p == spec_assign(key@, partitions_num),
        p < partitions_num,
{
    let h = fnv1a_of_str(key);
    (h % (partitions_num as u64)) as u16
}

/// Partition assignment never leaves the declared range: for every key and
/// every partition count of at least one, the assigned index is below the count.
pub proof fn lemma_assign_range(key: Seq<char>, partitions_num: u16)
    requires
        partitions_num >= 1,
    ensures
        spec_assign(key, partitions_num) < partitions_num,
{
}

/// Partition assignment is deterministic: two assignments of the same key with
/// the same partition count are equal.
pub proof fn lemma_assign_deterministic(key: Seq<char>, partitions_num: u16, r1: u16, r2: u16)
    requires
        partitions_num >= 1,
        r1 == spec_assign(key, partitions_num),
        r2 == spec_assign(key, partitions_num),
    ensures
        r1 == r2,
{
}

} // verus!
