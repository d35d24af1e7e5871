use dc_generator::partition::get_partition;
use dc_generator::scheduler::build_schedulers;
use dc_generator::scheduler::GenParams;
use dc_generator::scheduler::ParamError;
use dc_generator::scheduler::ZoneScheduler;

#[test]
fn gen_params_validate_the_run_shape() {
    assert!(GenParams::new(500, 4, 80).is_ok());
    assert_eq!(GenParams::new(500, 0, 80).unwrap_err(), ParamError::NoZones);
    assert_eq!(GenParams::new(500, 27, 80).unwrap_err(), ParamError::TooManyZones);
    assert_eq!(GenParams::new(500, 4, 0).unwrap_err(), ParamError::NoServers);
}

#[test]
fn scheduler_routes_each_record_by_its_key() {
    let mut sched = ZoneScheduler::new(0, 2, 3, String::from("dc_metrics"));
    let req = sched.next_request();
    assert_eq!(req.topic, "dc_metrics");
    assert_eq!(req.key, "zone-A-server-0");
    assert!(req.value.starts_with("zone-A-server-0"));
    assert_eq!(req.partition, get_partition(&req.key, 3));
    assert!(req.partition < 3);
}

#[test]
fn scheduler_walks_its_zone_round_robin() {
    let mut sched = ZoneScheduler::new(1, 2, 1, String::from("dc_metrics"));
    assert_eq!(sched.next_request().key, "zone-B-server-0");
    assert_eq!(sched.next_request().key, "zone-B-server-1");
    assert_eq!(sched.next_request().key, "zone-B-server-0");
}

#[test]
fn same_host_always_lands_on_the_same_partition() {
    // Two requests for one slot, a full cycle apart, carry the same key and
    // therefore the same partition.
    let mut sched = ZoneScheduler::new(0, 3, 5, String::from("dc_metrics"));
    let first = sched.next_request();
    sched.next_request();
    sched.next_request();
    let again = sched.next_request();
    assert_eq!(first.key, again.key);
    assert_eq!(first.partition, again.partition);
}

#[test]
fn build_schedulers_makes_one_unit_per_zone() {
    let params = GenParams::new(500, 3, 2).unwrap();
    let mut scheds = build_schedulers(params, 3, "dc_metrics");
    assert_eq!(scheds.len(), 3);
    let keys: Vec<String> = scheds.iter_mut().map(|s| s.next_request().key).collect();
    assert_eq!(keys, vec!["zone-A-server-0", "zone-B-server-0", "zone-C-server-0"]);
}
