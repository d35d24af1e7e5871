//! The dispatch engine's verified core.
//!
//! One [`ZoneScheduler`] per zone turns each tick into a fully formed send
//! request: it pulls the zone's next record, routes it to its partition, and
//! hands back what the delivery client needs. The caller owns the cadence and
//! the wire; no scheduler starts before all of them could be built.
//! [`Fleet`] is the sequential engine of local-output mode.
use vstd::prelude::*;

use crate::metrics::host_id_of;
use crate::metrics::message_of;
use crate::metrics::rng_after;
use crate::metrics::zone_name;
use crate::metrics::zone_name_of;
use crate::metrics::MetricRecord;
use crate::metrics::MetricStream;
use crate::partition::get_partition;
use crate::partition::spec_assign;

verus! {

/// The generation parameters of a run.
///
/// Zones are named by single letters, `zone-A` through `zone-Z`, so a run
/// holds at most 26 of them — a deliberate cap that keeps every zone
/// identifier one letter and every host identifier collision-free.
#[derive(Debug, Clone, Copy)]
pub struct GenParams {
    /// Milliseconds between two records of one zone.
    pub timeout: u64,
    /// Number of zones in the data center, at most 26.
    pub zones: u8,
    /// Number of servers per zone.
    pub servers_per_zone: u16,
}

/// Why generation parameters were rejected.
#[derive(Debug, Clone, Copy, PartialEq, Eq, Structural)]
pub enum ParamError {
    /// A run needs at least one zone.
    NoZones,
    /// Zones are named by single letters, so at most 26 fit in one run.
    TooManyZones,
    /// A zone needs at least one server.
    NoServers,
}

impl GenParams {
    /// Well-formedness: at least one zone, zones nameable by letters, and at
    /// least one server per zone.
    pub open spec fn wf(self) -> bool {
        1 <= self.zones <= 26 && self.servers_per_zone >= 1
    }

    /// Builds generation parameters, rejecting shapes no run can have.
    pub fn new(timeout: u64, zones: u8, servers_per_zone: u16) -> (r: Result<Self, ParamError>)
        ensures
            r is Ok <==> 1 <= zones <= 26 && servers_per_zone >= 1,
            r is Ok ==> r->Ok_0.wf() && r->Ok_0.timeout == timeout && r->Ok_0.zones == zones
                && r->Ok_0.servers_per_zone == servers_per_zone,
            r is Err ==> r->Err_0 == (if zones < 1 {
                ParamError::NoZones
            } else if zones > 26 {
                ParamError::TooManyZones
            } else {
                ParamError::NoServers
            }),
    {
        if zones < 1 {
            Err(ParamError::NoZones)
        } else if zones > 26 {
            Err(ParamError::TooManyZones)
        } else if servers_per_zone < 1 {
            Err(ParamError::NoServers)
        } else {
            Ok(GenParams { timeout, zones, servers_per_zone })
        }
    }
}

/// Everything the delivery client needs for one best-effort send.
#[derive(Debug, Clone)]
pub struct SendRequest {
    pub topic: String,
    pub partition: u16,
    pub key: String,
    pub value: String,
}

/// The per-zone scheduling unit: owns the zone's stream, routes each record,
/// and shares nothing mutable with the other zones.
pub struct ZoneScheduler {
    stream: MetricStream,
    partitions: u16,
    topic: String,
}

impl ZoneScheduler {
    /// The zone's stream.
    pub closed spec fn stream(self) -> MetricStream {
        self.stream
    }

    /// The partition count records are routed into.
    pub closed spec fn partitions(self) -> u16 {
        self.partitions
    }

    /// The destination topic.
    pub closed spec fn topic(self) -> Seq<char> {
        self.topic@
    }

    /// Well-formedness: a working stream and at least one partition.
    pub open spec fn wf(self) -> bool {
        self.stream().wf() && self.partitions() >= 1
    }

    /// Builds the scheduler of one zone, its stream starting at slot zero.
    pub fn new(zone_index: u8, servers_per_zone: u16, partitions: u16, topic: String) -> (s: Self)
        requires
            zone_index < 26,
            servers_per_zone >= 1,
            partitions >= 1,
        ensures
            s.wf(),
            s.topic() == topic@,
            s.partitions() == partitions,
            s.stream().zone() == zone_name_of(zone_index as nat),
            s.stream().count() == servers_per_zone as nat,
            s.stream().cursor() == 0,
    {
        let zone_id = zone_name(zone_index);
        let stream = MetricStream::new(zone_id, servers_per_zone);
        ZoneScheduler { stream, partitions, topic }
    }

    /// One tick's work: produce the zone's next record and route it. The
    /// request's key is the record's host identifier, its value the rendered
    /// payload, and its partition the stable assignment of that key.
    pub fn next_request(&mut self) -> (req: SendRequest)
        requires
            old(self).wf(),
        ensures
            final(self).wf(),
            final(self).topic() == old(self).topic(),
            final(self).partitions() == old(self).partitions(),
            final(self).stream().zone() == old(self).stream().zone(),
            final(self).stream().count() == old(self).stream().count(),
            final(self).stream().cursor()
                == (old(self).stream().cursor() + 1) % old(self).stream().count(),
            final(self).stream().rng() == rng_after(old(self).stream().rng()),
            req.topic@ == old(self).topic(),
            req.key@ == host_id_of(old(self).stream().zone(), old(self).stream().cursor()),
            req.value@ == message_of(
                old(self).stream().zone(),
                old(self).stream().cursor(),
                old(self).stream().rng(),
            ),
            req.partition == spec_assign(req.key@, old(self).partitions()),
            req.partition < old(self).partitions(),
    {
        let rec = self.stream.produce_next();
        let partition = get_partition(rec.host_id.as_str(), self.partitions);
        SendRequest { topic: self.topic.clone(), partition, key: rec.host_id, value: rec.message }
    }
}

/// Builds the scheduler of every zone, or none: the fan-out of broker mode is
/// all-or-nothing, and no zone unit exists before this returns.
#[verifier::loop_isolation(false)]
pub fn build_schedulers(params: GenParams, partitions: u16, topic: &str) -> (v: Vec<ZoneScheduler>)
    requires
        params.wf(),
        partitions >= 1,
    ensures
        v@.len() == params.zones as nat,
        forall|i: int|
            0 <= i < v@.len() ==> (#[trigger] v@[i]).wf() && v@[i].topic() == topic@
                && v@[i].partitions() == partitions && v@[i].stream().zone() == zone_name_of(
                i as nat,
            ) && v@[i].stream().count() == params.servers_per_zone as nat && v@[i].stream().cursor()
                == 0,
{
    let mut v: Vec<ZoneScheduler> = Vec::new();
    let mut z: u8 = 0;
    while z < params.zones
        invariant
            z <= params.zones,
            v@.len() == z as nat,
            forall|i: int|
                0 <= i < v@.len() ==> (#[trigger] v@[i]).wf() && v@[i].topic() == topic@
                    && v@[i].partitions() == partitions && v@[i].stream().zone() == zone_name_of(
                    i as nat,
                ) && v@[i].stream().count() == params.servers_per_zone as nat
                    && v@[i].stream().cursor() == 0,
        decreases params.zones - z,
    {
        let s = ZoneScheduler::new(z, params.servers_per_zone, partitions, topic.to_owned());
        v.push(s);
        z = z + 1;
    }
    v
}

/// The sequential engine of local-output mode: every zone's stream, stepped
/// round-robin across zones, one record per step.
pub struct Fleet {
    streams: Vec<MetricStream>,
    next_zone: usize,
}

impl Fleet {
    /// The per-zone streams.
    pub closed spec fn streams(self) -> Seq<MetricStream> {
        self.streams@
    }

    /// The zone the next step reads from.
    pub closed spec fn next_zone(self) -> nat {
        self.next_zone as nat
    }

    /// Well-formedness: at least one zone, the zone cursor in range, and
    /// every stream working.
    pub open spec fn wf(self) -> bool {
        self.streams().len() >= 1 && self.next_zone() < self.streams().len() && (forall|i: int|
            0 <= i < self.streams().len() ==> (#[trigger] self.streams()[i]).wf())
    }

    /// Builds one stream per zone, all starting at slot zero.
    pub fn new(params: GenParams) -> (f: Self)
        requires
            params.wf(),
        ensures
            f.wf(),
            f.streams().len() == params.zones as nat,
            f.next_zone() == 0,
            forall|i: int|
                0 <= i < f.streams().len() ==> (#[trigger] f.streams()[i]).zone() == zone_name_of(
                    i as nat,
                ) && f.streams()[i].count() == params.servers_per_zone as nat
                    && f.streams()[i].cursor() == 0,
    {
        let mut streams: Vec<MetricStream> = Vec::new();
        let mut z: u8 = 0;
        while z < params.zones
            invariant
                params.wf(),
                z <= params.zones,
                streams@.len() == z as nat,
                forall|i: int|
                    0 <= i < streams@.len() ==> (#[trigger] streams@[i]).wf()
                        && streams@[i].zone() == zone_name_of(i as nat) && streams@[i].count()
                        == params.servers_per_zone as nat && streams@[i].cursor() == 0,
            decreases params.zones - z,
        {
            let zone_id = zone_name(z);
            streams.push(MetricStream::new(zone_id, params.servers_per_zone));
            z = z + 1;
        }
        Fleet { streams, next_zone: 0 }
    }

    /// One step: produce the next record of the current zone, then move to
    /// the following zone with wraparound. Only the stepped stream changes.
    pub fn next_record(&mut self) -> (rec: MetricRecord)
        requires
            old(self).wf(),
        ensures
            final(self).wf(),
            final(self).streams().len() == old(self).streams().len(),
            final(self).next_zone() == (old(self).next_zone() + 1) % old(self).streams().len(),
            forall|i: int|
                0 <= i < old(self).streams().len() && i != old(self).next_zone()
                    ==> final(self).streams()[i] == old(self).streams()[i],
            final(self).streams()[old(self).next_zone() as int].zone()
                == old(self).streams()[old(self).next_zone() as int].zone(),
            final(self).streams()[old(self).next_zone() as int].count()
                == old(self).streams()[old(self).next_zone() as int].count(),
            final(self).streams()[old(self).next_zone() as int].cursor()
                == (old(self).streams()[old(self).next_zone() as int].cursor() + 1)
                    % old(self).streams()[old(self).next_zone() as int].count(),
            final(self).streams()[old(self).next_zone() as int].rng() == rng_after(
                old(self).streams()[old(self).next_zone() as int].rng(),
            ),
            rec.host_id@ == host_id_of(
                old(self).streams()[old(self).next_zone() as int].zone(),
                old(self).streams()[old(self).next_zone() as int].cursor(),
            ),
            rec.message@ == message_of(
                old(self).streams()[old(self).next_zone() as int].zone(),
                old(self).streams()[old(self).next_zone() as int].cursor(),
                old(self).streams()[old(self).next_zone() as int].rng(),
            ),
    {
        let z = self.next_zone;
        let mut stream = self.streams.remove(z);
        let rec = stream.produce_next();
        self.streams.insert(z, stream);
        proof {
            assert(self.streams@ =~= old(self).streams@.update(z as int, stream));
        }
        let len = self.streams.len();
        self.next_zone = if z + 1 == len {
            0
        } else {
            z + 1
        };
        proof {
            if z + 1 == len {
                assert((z + 1) as nat % len as nat == 0) by (nonlinear_arith)
                    requires
                        z + 1 == len,
                        len >= 1,
                ;
            } else {
                vstd::arithmetic::div_mod::lemma_small_mod((z + 1) as nat, len as nat);
            }
        }
        rec
    }
}

} // verus!
