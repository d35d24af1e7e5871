use dc_generator::provision::evaluate_create_topics_response;
use dc_generator::provision::provision_verdict;
use dc_generator::provision::ProvisionError;
use dc_generator::provision::TopicSpec;
use samsa::prelude::bytes::Bytes;
use samsa::prelude::protocol::create_topics::response::Topic;
use samsa::prelude::protocol::CreateTopicsResponse;
use samsa::prelude::protocol::HeaderResponse;
use samsa::prelude::KafkaCode;

#[test]
fn verdict_accepts_created_topics() {
    assert_eq!(provision_verdict(&vec![]), Ok(()));
    assert_eq!(provision_verdict(&vec![0, 0]), Ok(()));
}

#[test]
fn verdict_tolerates_already_existing_topic() {
    // Provisioning a topic that already exists does not abort the run.
    assert_eq!(provision_verdict(&vec![36]), Ok(()));
    assert_eq!(provision_verdict(&vec![0, 36, 0]), Ok(()));
}

#[test]
fn verdict_rejects_other_errors() {
    assert_eq!(provision_verdict(&vec![41]), Err(ProvisionError::Rejected(41)));
    assert_eq!(provision_verdict(&vec![36, 3, 5]), Err(ProvisionError::Rejected(3)));
}

fn response_with(codes: Vec<KafkaCode>) -> CreateTopicsResponse {
    CreateTopicsResponse {
        header: HeaderResponse { correlation_id: 1 },
        throttle_time_ms: 0,
        topics: codes
            .into_iter()
            .map(|code| Topic {
                name: Bytes::from_static(b"dc_metrics"),
                error_code: code,
                error_message: None,
            })
            .collect(),
    }
}

#[test]
fn response_with_existing_topic_lets_the_run_go_on() {
    let resp = response_with(vec![KafkaCode::TopicAlreadyExists]);
    assert_eq!(evaluate_create_topics_response(&resp), Ok(()));
}

#[test]
fn response_with_created_topic_lets_the_run_go_on() {
    let resp = response_with(vec![KafkaCode::None]);
    assert_eq!(evaluate_create_topics_response(&resp), Ok(()));
}

#[test]
fn response_with_rejected_topic_aborts() {
    let resp = response_with(vec![KafkaCode::InvalidTopic]);
    assert_eq!(
        evaluate_create_topics_response(&resp),
        Err(ProvisionError::Rejected(KafkaCode::InvalidTopic as i16))
    );
}

#[test]
fn topic_spec_requires_partitions_and_replicas() {
    let ok = TopicSpec::new(String::from("dc_metrics"), 3, 3).unwrap();
    assert_eq!(ok.name, "dc_metrics");
    assert_eq!(ok.partitions, 3);
    assert_eq!(ok.replication, 3);
    assert_eq!(
        TopicSpec::new(String::from("dc_metrics"), 0, 3).unwrap_err(),
        ProvisionError::NoPartitions
    );
    assert_eq!(
        TopicSpec::new(String::from("dc_metrics"), 3, 0).unwrap_err(),
        ProvisionError::NoReplication
    );
}
