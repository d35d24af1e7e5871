use dc_generator::digits::render_u64;
use dc_generator::metrics::zone_name;
use dc_generator::metrics::MetricStream;
use dc_generator::scheduler::Fleet;
use dc_generator::scheduler::GenParams;

#[test]
fn renders_decimal_digits() {
    assert_eq!(render_u64(0), "0");
    assert_eq!(render_u64(7), "7");
    assert_eq!(render_u64(10), "10");
    assert_eq!(render_u64(65535), "65535");
    assert_eq!(render_u64(u64::MAX), "18446744073709551615");
}

#[test]
fn names_zones_by_letter() {
    assert_eq!(zone_name(0), "zone-A");
    assert_eq!(zone_name(1), "zone-B");
    assert_eq!(zone_name(25), "zone-Z");
}

#[test]
fn stream_visits_every_slot_before_repeating() {
    let mut stream = MetricStream::new(zone_name(0), 3);
    let mut ids = Vec::new();
    for _ in 0..3 {
        ids.push(stream.produce_next().host_id);
    }
    assert_eq!(ids[0], "zone-A-server-0");
    assert_eq!(ids[1], "zone-A-server-1");
    assert_eq!(ids[2], "zone-A-server-2");
    for a in 0..3 {
        for b in 0..3 {
            if a != b {
                assert_ne!(ids[a], ids[b]);
            }
        }
    }
}

#[test]
fn stream_returns_to_first_slot_after_one_cycle() {
    // Round-robin: with S slots, call 1 and call S + 1 name the same host.
    let s: usize = 5;
    let mut stream = MetricStream::new(zone_name(2), s as u16);
    let first = stream.produce_next().host_id;
    for _ in 0..s - 1 {
        stream.produce_next();
    }
    let again = stream.produce_next().host_id;
    assert_eq!(first, again);
    assert_eq!(first, "zone-C-server-0");
}

#[test]
fn host_ids_are_distinct_across_zones() {
    // Two zones of three servers: all six identifiers pairwise distinct.
    let mut ids = Vec::new();
    for z in 0..2 {
        let mut stream = MetricStream::new(zone_name(z), 3);
        for _ in 0..3 {
            ids.push(stream.produce_next().host_id);
        }
    }
    assert_eq!(ids.len(), 6);
    for a in 0..ids.len() {
        for b in 0..ids.len() {
            if a != b {
                assert_ne!(ids[a], ids[b]);
            }
        }
    }
}

#[test]
fn host_id_is_stable_per_slot_while_message_varies() {
    let mut stream = MetricStream::new(zone_name(0), 1);
    let first = stream.produce_next();
    let second = stream.produce_next();
    assert_eq!(first.host_id, second.host_id);
    assert_ne!(first.message, second.message);
}

#[test]
fn message_carries_host_id_and_readings() {
    let mut stream = MetricStream::new(zone_name(1), 2);
    let rec = stream.produce_next();
    assert!(rec.message.starts_with(&rec.host_id));
    assert!(rec.message.contains(" cpu="));
    assert!(rec.message.contains("% mem="));
    assert!(rec.message.contains("% disk="));
    assert!(rec.message.ends_with('%'));
}

#[test]
fn fleet_alternates_zones_round_robin() {
    // Two zones of three servers, stepped sequentially: the zones alternate
    // and each zone's slots advance in order.
    let params = GenParams::new(10, 2, 3).unwrap();
    let mut fleet = Fleet::new(params);
    let expected = [
        "zone-A-server-0",
        "zone-B-server-0",
        "zone-A-server-1",
        "zone-B-server-1",
        "zone-A-server-2",
        "zone-B-server-2",
        "zone-A-server-0",
    ];
    for want in expected {
        let rec = fleet.next_record();
        assert_eq!(rec.host_id, want);
        assert!(rec.message.starts_with(want));
    }
}

#[test]
fn fleet_host_ids_match_the_run_shape() {
    // Every identifier a 2-zone, 3-server fleet prints names one of those
    // zones and one of those slots.
    let params = GenParams::new(10, 2, 3).unwrap();
    let mut fleet = Fleet::new(params);
    for _ in 0..12 {
        let rec = fleet.next_record();
        let mut matched = false;
        for z in ["A", "B"] {
            for s in ["0", "1", "2"] {
                if rec.host_id == format!("zone-{}-server-{}", z, s) {
                    matched = true;
                }
            }
        }
        assert!(matched, "unexpected host id {}", rec.host_id);
    }
}

#[test]
fn identical_streams_generate_identically() {
    // The stream is deterministic: same zone and shape, same records.
    let mut a = MetricStream::new(zone_name(0), 4);
    let mut b = MetricStream::new(zone_name(0), 4);
    for _ in 0..10 {
        let ra = a.produce_next();
        let rb = b.produce_next();
        assert_eq!(ra.host_id, rb.host_id);
        assert_eq!(ra.message, rb.message);
    }
}
