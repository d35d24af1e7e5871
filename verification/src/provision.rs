//! Topic provisioning: the one-shot setup step that must precede streaming.
//!
//! The request is sent by the caller; this module holds the requested shape
//! of the topic and the verified interpretation of the broker's structured
//! per-topic result. A topic that already exists is not a failure — the run
//! goes on — while every other per-topic error aborts it.
use vstd::prelude::*;

verus! {

/// The broker's code for a per-topic result without error.
pub const CODE_NONE: i16 = 0;

/// The broker's code for a topic that already exists.
pub const CODE_TOPIC_ALREADY_EXISTS: i16 = 36;

/// A per-topic result code that lets the run go on: the topic was created,
/// or it already existed.
pub open spec fn code_acceptable(code: i16) -> bool {
    code == CODE_NONE || code == CODE_TOPIC_ALREADY_EXISTS
}

/// The shape requested for the destination topic.
#[derive(Debug, Clone)]
pub struct TopicSpec {
    pub name: String,
    pub partitions: u16,
    pub replication: u8,
}

impl TopicSpec {
    /// Well-formedness: a topic has at least one partition and one replica.
    pub open spec fn wf(self) -> bool {
        self.partitions >= 1 && self.replication >= 1
    }

    /// Builds a topic shape, rejecting a partition or replica count of zero.
    pub fn new(name: String, partitions: u16, replication: u8) -> (r: Result<Self, ProvisionError>)
        ensures
            r is Ok <==> partitions >= 1 && replication >= 1,
            r is Ok ==> r->Ok_0.wf() && r->Ok_0.name@ == name@ && r->Ok_0.partitions == partitions
                && r->Ok_0.replication == replication,
            r is Err ==> r->Err_0 == (if partitions < 1 {
                ProvisionError::NoPartitions
            } else {
                ProvisionError::NoReplication
            }),
    {
        if partitions < 1 {
            Err(ProvisionError::NoPartitions)
        } else if replication < 1 {
            Err(ProvisionError::NoReplication)
        } else {
            Ok(TopicSpec { name, partitions, replication })
        }
    }
}

/// Why provisioning failed.
#[derive(Debug, Clone, Copy, PartialEq, Eq, Structural)]
pub enum ProvisionError {
    /// The requested shape had no partitions.
    NoPartitions,
    /// The requested shape had no replicas.
    NoReplication,
    /// The broker rejected a topic with this per-topic error code.
    Rejected(i16),
}

/// The verdict over a sequence of per-topic result codes: the run goes on
/// when every code is acceptable, and aborts on the first one that is not.
pub open spec fn spec_verdict(codes: Seq<i16>) -> Result<(), ProvisionError>
    decreases codes.len(),
{
    if codes.len() == 0 {
        Ok(())
    } else if !code_acceptable(codes[0]) {
        Err(ProvisionError::Rejected(codes[0]))
    } else {
        spec_verdict(codes.skip(1))
    }
}

/// The verdict is `Ok` exactly when every code is acceptable.
pub proof fn lemma_verdict_ok(codes: Seq<i16>)
    ensures
        spec_verdict(codes) is Ok <==> (forall|i: int|
            0 <= i < codes.len() ==> code_acceptable(codes[i])),
    decreases codes.len(),
{
    if codes.len() > 0 && code_acceptable(codes[0]) {
        lemma_verdict_ok(codes.skip(1));
        if spec_verdict(codes.skip(1)) is Ok {
            assert forall|i: int| 0 <= i < codes.len() implies code_acceptable(codes[i]) by {
                if i > 0 {
                    assert(codes.skip(1)[i - 1] == codes[i]);
                }
            }
        } else {
            let i = choose|i: int|
                0 <= i < codes.skip(1).len() && !code_acceptable(codes.skip(1)[i]);
            assert(codes[i + 1] == codes.skip(1)[i]);
        }
    }
}

/// A failed verdict always carries an unacceptable code.
pub proof fn lemma_verdict_err(codes: Seq<i16>)
    ensures
        spec_verdict(codes) is Err ==> (spec_verdict(codes) matches Err(
            ProvisionError::Rejected(c),
        ) && !code_acceptable(c)),
    decreases codes.len(),
{
    if codes.len() > 0 && code_acceptable(codes[0]) {
        lemma_verdict_err(codes.skip(1));
    }
}

/// Topic provisioning is idempotent with respect to an existing topic: when
/// every per-topic code reports success or an already existing topic, the
/// verdict lets the run go on.
pub proof fn lemma_already_exists_tolerated(codes: Seq<i16>)
    requires
        forall|i: int| 0 <= i < codes.len() ==> code_acceptable(codes[i]),
    ensures
        spec_verdict(codes) is Ok,
{
    lemma_verdict_ok(codes);
}

#[verifier::external_type_specification]
#[verifier::external_body]
pub struct ExCreateTopicsResponse(samsa::prelude::protocol::CreateTopicsResponse);

/// The per-topic error codes a provisioning response carries, in order.
pub uninterp spec fn codes_of(resp: samsa::prelude::protocol::CreateTopicsResponse) -> Seq<i16>;

/// Relies on samsa's `CreateTopicsResponse`: its `topics` field lists one
/// entry per requested topic, each carrying the broker's per-topic error code
/// (`KafkaCode`, zero meaning no error). Returns those codes in order; they
/// are a function of the response value alone.
#[verifier::external_body]
fn response_topic_codes(resp: &samsa::prelude::protocol::CreateTopicsResponse) -> (codes: Vec<
    i16,
>)
    ensures
        codes@ == codes_of(*resp),
{
    resp.topics.iter().map(|t| t.error_code as i16).collect()
}

/// Decides whether the run goes on from the broker's parsed provisioning
/// response: exactly the verdict over the response's per-topic codes, so the
/// result is `Ok` when all of them are acceptable, and a failure names the
/// first unacceptable code.
pub fn evaluate_create_topics_response(
    resp: &samsa::prelude::protocol::CreateTopicsResponse,
) -> (r: Result<(), ProvisionError>)
    ensures
        r == spec_verdict(codes_of(*resp)),
        r is Err ==> (r->Err_0 matches ProvisionError::Rejected(c) && !code_acceptable(c)),
{
    let codes = response_topic_codes(resp);
    let r = provision_verdict(&codes);
    proof {
        lemma_verdict_err(codes@);
    }
    r
}

/// Decides whether the run goes on from the broker's per-topic result codes.
#[verifier::loop_isolation(false)]
pub fn provision_verdict(codes: &Vec<i16>) -> (r: Result<(), ProvisionError>)
    ensures
        r == spec_verdict(codes@),
{
    let n = codes.len();
    let mut i: usize = 0;
    proof {
        assert(codes@.skip(0) =~= codes@);
    }
    while i < n
        invariant
            i <= n,
            spec_verdict(codes@) == spec_verdict(codes@.skip(i as int)),
        decreases n - i,
    {
        let code = codes[i];
        if !(code == CODE_NONE || code == CODE_TOPIC_ALREADY_EXISTS) {
            proof {
                assert(codes@.skip(i as int)[0] == code);
            }
            return Err(ProvisionError::Rejected(code));
        }
        proof {
            assert(codes@.skip(i as int)[0] == code);
            assert(codes@.skip(i as int).skip(1) =~= codes@.skip(i + 1));
        }
        i = i + 1;
    }
    proof {
        assert(codes@.skip(n as int) =~= Seq::<i16>::empty());
    }
    Ok(())
}

} // verus!
