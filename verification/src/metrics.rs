//! Per-zone metric generation: an infinite, total, round-robin stream of
//! synthetic server readings.
//!
//! A zone owns one [`MetricStream`]. Each call to [`MetricStream::produce_next`]
//! reads the current server slot, renders one record for it, and advances the
//! cursor with wraparound, so the stream visits the slots `0, 1, ...,
//! server_count - 1, 0, ...` forever and never fails.
use vstd::arithmetic::div_mod::lemma_small_mod;
use vstd::prelude::*;

use crate::digits::dec_digits;
use crate::digits::lemma_dec_digits_injective;
use crate::digits::render_u64;
use crate::hash::fnv1a_of_str;
use crate::hash::fnv1a_str;

verus! {

/// Multiplier of the linear congruential generator behind the synthetic values.
pub const LCG_MUL: u64 = 6364136223846793005;

/// Increment of the linear congruential generator behind the synthetic values.
pub const LCG_INC: u64 = 1442695040888963407;

/// One step of the linear congruential generator.
pub open spec fn lcg_next(s: u64) -> u64 {
    vstd::wrapping::u64_specs::wrapping_add(
        vstd::wrapping::u64_specs::wrapping_mul(s, LCG_MUL),
        LCG_INC,
    )
}

/// A bounded percentage reading, between 0 and 100, drawn from one generator state.
pub open spec fn pct_of(s: u64) -> u64 {
    (s >> 33) % 101
}

/// The generator state after the three draws one record makes.
pub open spec fn rng_after(s: u64) -> u64 {
    lcg_next(lcg_next(lcg_next(s)))
}

/// The separator between a zone identifier and a slot index in a host identifier.
pub open spec fn server_sep() -> Seq<char> {
    seq!['-', 's', 'e', 'r', 'v', 'e', 'r', '-']
}

/// The host identifier of one server slot: the zone identifier, `-server-`,
/// and the slot index in decimal.
pub open spec fn host_id_of(zone: Seq<char>, slot: nat) -> Seq<char> {
    zone + server_sep() + dec_digits(slot)
}

/// The label before the CPU reading.
pub open spec fn cpu_sep() -> Seq<char> {
    seq![' ', 'c', 'p', 'u', '=']
}

/// The label between the CPU and memory readings.
pub open spec fn mem_sep() -> Seq<char> {
    seq!['%', ' ', 'm', 'e', 'm', '=']
}

/// The label between the memory and disk readings.
pub open spec fn disk_sep() -> Seq<char> {
    seq!['%', ' ', 'd', 'i', 's', 'k', '=']
}

/// The sign that closes the last reading.
pub open spec fn pct_sign() -> Seq<char> {
    seq!['%']
}

/// The rendered payload of one record: the host identifier followed by three
/// bounded readings drawn from the generator state `rng`.
pub open spec fn message_of(zone: Seq<char>, slot: nat, rng: u64) -> Seq<char> {
    host_id_of(zone, slot) + cpu_sep() + dec_digits(pct_of(lcg_next(rng)) as nat) + mem_sep()
        + dec_digits(pct_of(lcg_next(lcg_next(rng))) as nat) + disk_sep() + dec_digits(
        pct_of(lcg_next(lcg_next(lcg_next(rng)))) as nat,
    ) + pct_sign()
}

/// One generated reading: a stable host identifier and a rendered payload.
#[derive(Debug, Clone)]
pub struct MetricRecord {
    pub host_id: String,
    pub message: String,
}

/// The per-zone generator: a cursor over the zone's server slots, advancing
/// with wraparound, plus the state of the synthetic-value generator.
pub struct MetricStream {
    zone_id: String,
    server_count: u16,
    cursor: u16,
    rng: u64,
}

impl MetricStream {
    /// The zone identifier this stream generates for.
    pub closed spec fn zone(self) -> Seq<char> {
        self.zone_id@
    }

    /// The number of server slots in the zone.
    pub closed spec fn count(self) -> nat {
        self.server_count as nat
    }

    /// The slot the next call will read.
    pub closed spec fn cursor(self) -> nat {
        self.cursor as nat
    }

    /// The state of the synthetic-value generator.
    pub closed spec fn rng(self) -> u64 {
        self.rng
    }

    /// Well-formedness: at least one slot, and the cursor inside the range.
    pub open spec fn wf(self) -> bool {
        self.count() >= 1 && self.cursor() < self.count()
    }

    /// Builds the stream for one zone, starting at slot zero. The generator
    /// state is seeded from the zone identifier, so distinct zones draw
    /// distinct sequences of readings.
    pub fn new(zone_id: String, server_count: u16) -> (s: Self)
        requires
            server_count >= 1,
        ensures
            s.wf(),
            s.zone() == zone_id@,
            s.count() == server_count as nat,
            s.cursor() == 0,
            s.rng() == fnv1a_str(zone_id@),
    {
        let rng = fnv1a_of_str(zone_id.as_str());
        MetricStream { zone_id, server_count, cursor: 0, rng }
    }

    /// Produces the record for the current slot and advances the cursor by one
    /// with wraparound. Total: it never fails and the stream is never exhausted.
    pub fn produce_next(&mut self) -> (rec: MetricRecord)
        requires
            old(self).wf(),
        ensures
            final(self).wf(),
            final(self).zone() == old(self).zone(),
            final(self).count() == old(self).count(),
            final(self).cursor() == (old(self).cursor() + 1) % old(self).count(),
            final(self).rng() == rng_after(old(self).rng()),
            rec.host_id@ == host_id_of(old(self).zone(), old(self).cursor()),
            rec.message@ == message_of(old(self).zone(), old(self).cursor(), old(self).rng()),
    {
        proof {
            reveal_strlit("-server-");
            reveal_strlit(" cpu=");
            reveal_strlit("% mem=");
            reveal_strlit("% disk=");
            reveal_strlit("%");
        }
        let slot = self.cursor;
        let mut host = self.zone_id.clone();
        host.append("-server-");
        let slot_digits = render_u64(slot as u64);
        host.append(slot_digits.as_str());
        proof {
            assert(host@ =~= host_id_of(self.zone(), self.cursor()));
        }

        let r1 = self.rng.wrapping_mul(LCG_MUL).wrapping_add(LCG_INC);
        let r2 = r1.wrapping_mul(LCG_MUL).wrapping_add(LCG_INC);
        let r3 = r2.wrapping_mul(LCG_MUL).wrapping_add(LCG_INC);
        let cpu = (r1 >> 33) % 101;
        let mem = (r2 >> 33) % 101;
        let disk = (r3 >> 33) % 101;

        let mut message = host.clone();
        message.append(" cpu=");
        message.append(render_u64(cpu).as_str());
        message.append("% mem=");
        message.append(render_u64(mem).as_str());
        message.append("% disk=");
        message.append(render_u64(disk).as_str());
        message.append("%");
        proof {
            assert(message@ =~= message_of(self.zone(), self.cursor(), self.rng()));
        }

        self.rng = r3;
        let next = if slot + 1 == self.server_count {
            0
        } else {
            slot + 1
        };
        proof {
            if slot + 1 == self.server_count {
                assert((slot + 1) as nat % self.server_count as nat == 0)
                    by (nonlinear_arith)
                    requires
                        slot + 1 == self.server_count,
                        self.server_count >= 1,
                ;
            } else {
                lemma_small_mod((slot + 1) as nat, self.server_count as nat);
            }
        }
        self.cursor = next;
        MetricRecord { host_id: host, message }
    }
}

/// The slot a fresh-started cursor reads on its `n`-th call (counted from
/// zero), for a zone of `count` slots: round-robin with wraparound.
pub open spec fn slot_on_call(n: nat, count: nat) -> nat
    recommends
        count >= 1,
{
    n % count
}

/// Round-robin period: the slot read on the first call equals the slot read
/// on call `count + 1`, so the identifier returned then is the same.
pub proof fn lemma_round_robin_period(count: nat)
    requires
        count >= 1,
    ensures
        slot_on_call(0, count) == slot_on_call(count, count),
{
    lemma_small_mod(0, count);
    assert(count % count == 0) by (nonlinear_arith)
        requires
            count >= 1,
    ;
}

/// Within one cycle the slots do not repeat: the first `count` calls read
/// `count` pairwise distinct slots.
pub proof fn lemma_first_cycle_distinct(n1: nat, n2: nat, count: nat)
    requires
        n1 < count,
        n2 < count,
        n1 != n2,
    ensures
        slot_on_call(n1, count) != slot_on_call(n2, count),
{
    lemma_small_mod(n1, count);
    lemma_small_mod(n2, count);
}

/// The letter naming one zone, by its ordinal index.
pub open spec fn zone_letter(i: nat) -> char {
    if i == 0 {
        'A'
    } else if i == 1 {
        'B'
    } else if i == 2 {
        'C'
    } else if i == 3 {
        'D'
    } else if i == 4 {
        'E'
    } else if i == 5 {
        'F'
    } else if i == 6 {
        'G'
    } else if i == 7 {
        'H'
    } else if i == 8 {
        'I'
    } else if i == 9 {
        'J'
    } else if i == 10 {
        'K'
    } else if i == 11 {
        'L'
    } else if i == 12 {
        'M'
    } else if i == 13 {
        'N'
    } else if i == 14 {
        'O'
    } else if i == 15 {
        'P'
    } else if i == 16 {
        'Q'
    } else if i == 17 {
        'R'
    } else if i == 18 {
        'S'
    } else if i == 19 {
        'T'
    } else if i == 20 {
        'U'
    } else if i == 21 {
        'V'
    } else if i == 22 {
        'W'
    } else if i == 23 {
        'X'
    } else if i == 24 {
        'Y'
    } else {
        'Z'
    }
}

/// The identifier of one zone: `zone-` followed by its letter.
pub open spec fn zone_name_of(i: nat) -> Seq<char> {
    seq!['z', 'o', 'n', 'e', '-'].push(zone_letter(i))
}

/// The string of one zone letter.
fn zone_letter_str(i: u8) -> (r: &'static str)
    requires
        i < 26,
    ensures
        r@ == seq![zone_letter(i as nat)],
{
    proof {
        reveal_strlit("A");
        reveal_strlit("B");
        reveal_strlit("C");
        reveal_strlit("D");
        reveal_strlit("E");
        reveal_strlit("F");
        reveal_strlit("G");
        reveal_strlit("H");
        reveal_strlit("I");
        reveal_strlit("J");
        reveal_strlit("K");
        reveal_strlit("L");
        reveal_strlit("M");
        reveal_strlit("N");
        reveal_strlit("O");
        reveal_strlit("P");
        reveal_strlit("Q");
        reveal_strlit("R");
        reveal_strlit("S");
        reveal_strlit("T");
        reveal_strlit("U");
        reveal_strlit("V");
        reveal_strlit("W");
        reveal_strlit("X");
        reveal_strlit("Y");
        reveal_strlit("Z");
    }
    let r = if i == 0 {
        "A"
    } else if i == 1 {
        "B"
    } else if i == 2 {
        "C"
    } else if i == 3 {
        "D"
    } else if i == 4 {
        "E"
    } else if i == 5 {
        "F"
    } else if i == 6 {
        "G"
    } else if i == 7 {
        "H"
    } else if i == 8 {
        "I"
    } else if i == 9 {
        "J"
    } else if i == 10 {
        "K"
    } else if i == 11 {
        "L"
    } else if i == 12 {
        "M"
    } else if i == 13 {
        "N"
    } else if i == 14 {
        "O"
    } else if i == 15 {
        "P"
    } else if i == 16 {
        "Q"
    } else if i == 17 {
        "R"
    } else if i == 18 {
        "S"
    } else if i == 19 {
        "T"
    } else if i == 20 {
        "U"
    } else if i == 21 {
        "V"
    } else if i == 22 {
        "W"
    } else if i == 23 {
        "X"
    } else if i == 24 {
        "Y"
    } else {
        "Z"
    };
    proof {
        assert(r@ =~= seq![zone_letter(i as nat)]);
    }
    r
}

/// Renders the identifier of the zone with ordinal index `zone_index`.
pub fn zone_name(zone_index: u8) -> (s: String)
    requires
        zone_index < 26,
    ensures
        s@ == zone_name_of(zone_index as nat),
{
    proof {
        reveal_strlit("zone-");
    }
    let mut s = String::from_str("zone-");
    s.append(zone_letter_str(zone_index));
    proof {
        assert(s@ =~= zone_name_of(zone_index as nat));
    }
    s
}

/// Distinct zone indices get distinct letters.
proof fn lemma_zone_letter_injective(a: nat, b: nat)
    requires
        a < 26,
        b < 26,
        a != b,
    ensures
        zone_letter(a) != zone_letter(b),
{
}

/// Distinct zone indices get distinct zone identifiers, all of one length.
pub proof fn lemma_zone_names_distinct(a: nat, b: nat)
    requires
        a < 26,
        b < 26,
        a != b,
    ensures
        zone_name_of(a) != zone_name_of(b),
        zone_name_of(a).len() == zone_name_of(b).len(),
{
    lemma_zone_letter_injective(a, b);
    assert(zone_name_of(a)[5] == zone_letter(a));
    assert(zone_name_of(b)[5] == zone_letter(b));
}

/// Across a whole run, the host identifiers of all zones and slots are
/// pairwise distinct: two coincide only when both the zone index and the
/// slot index coincide.
pub proof fn lemma_run_host_ids_distinct(z1: nat, s1: nat, z2: nat, s2: nat)
    requires
        z1 < 26,
        z2 < 26,
        z1 != z2 || s1 != s2,
    ensures
        host_id_of(zone_name_of(z1), s1) != host_id_of(zone_name_of(z2), s2),
{
    if z1 != z2 {
        lemma_zone_names_distinct(z1, z2);
    }
    lemma_host_ids_distinct(zone_name_of(z1), s1, zone_name_of(z2), s2);
}

/// Within one zone, no host identifier repeats before the whole cycle is
/// done: the identifiers of the first `count` calls of a fresh stream are
/// pairwise distinct.
pub proof fn lemma_no_repeat_within_cycle(zone: Seq<char>, n1: nat, n2: nat, count: nat)
    requires
        n1 < count,
        n2 < count,
        n1 != n2,
    ensures
        host_id_of(zone, slot_on_call(n1, count)) != host_id_of(zone, slot_on_call(n2, count)),
{
    lemma_first_cycle_distinct(n1, n2, count);
    lemma_host_ids_distinct(zone, slot_on_call(n1, count), zone, slot_on_call(n2, count));
}

/// After one full cycle the identifiers repeat: the identifier of the first
/// call of a fresh stream equals the identifier of call `count + 1`.
pub proof fn lemma_identifier_period(zone: Seq<char>, count: nat)
    requires
        count >= 1,
    ensures
        host_id_of(zone, slot_on_call(0, count)) == host_id_of(zone, slot_on_call(count, count)),
{
    lemma_round_robin_period(count);
}

/// Host identifiers are collision-free: for zone identifiers of equal length,
/// two host identifiers coincide only when both the zone and the slot do.
pub proof fn lemma_host_ids_distinct(z1: Seq<char>, s1: nat, z2: Seq<char>, s2: nat)
    requires
        z1.len() == z2.len(),
        z1 != z2 || s1 != s2,
    ensures
        host_id_of(z1, s1) != host_id_of(z2, s2),
{
    let h1 = host_id_of(z1, s1);
    let h2 = host_id_of(z2, s2);
    if z1 != z2 {
        assert(exists|k: int| 0 <= k < z1.len() && z1[k] != z2[k]) by {
            if forall|k: int| 0 <= k < z1.len() ==> z1[k] == z2[k] {
                assert(z1 =~= z2);
            }
        }
        let k = choose|k: int| 0 <= k < z1.len() && z1[k] != z2[k];
        crate::digits::lemma_dec_digits_nonempty(s1);
        crate::digits::lemma_dec_digits_nonempty(s2);
        if h1 == h2 {
            assert(h1[k] == z1[k]);
            assert(h2[k] == z2[k]);
            assert(false);
        }
    } else {
        if h1 == h2 {
            let zlen = z1.len() as int;
            let plen = zlen + 8;
            assert(h1.len() == plen + dec_digits(s1).len());
            assert(h2.len() == plen + dec_digits(s2).len());
            assert(dec_digits(s1) =~= h1.subrange(plen, h1.len() as int));
            assert(dec_digits(s2) =~= h2.subrange(plen, h2.len() as int));
            lemma_dec_digits_injective(s1, s2);
            assert(false);
        }
    }
}

} // verus!
