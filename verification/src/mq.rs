//! Message-queue publishers.
//!
//! A producer either talks to a real broker or is the no-op used when no
//! brokers are configured.  The runtime serializes the records of a
//! collection and performs the per-message sends; the producer here owns
//! the decisions: which variant a broker list selects, and how the
//! per-message delivery acknowledgements join into one publish outcome.
//! The no-op producer acknowledges everything itself, without I/O.

use vstd::prelude::*;

verus! {

use vstd::string::StringExecFns;

/// A publisher capability: construction from a broker list and one
/// logical send per record collection.
///
/// `delivery` carries the broker's acknowledgement for each message the
/// runtime sent; a producer that performs no I/O ignores it.  The send
/// succeeds exactly when every delivery succeeded, and a failed send
/// reports the first failed delivery.
pub trait CustomProducer: Sized {
    /// Whether this producer performs no broker I/O.
    spec fn spec_is_noop(&self) -> bool;

    /// Whether `new` on a given broker list yields a no-op producer.
    spec fn spec_new_is_noop(brokers: Seq<char>) -> bool;

    /// The broker list the producer talks to; empty for the no-op.
    spec fn spec_brokers(&self) -> Seq<char>;

    fn new(brokers: &str) -> (r: Self)
        ensures
            r.spec_is_noop() == Self::spec_new_is_noop(brokers@),
            !r.spec_is_noop() ==> r.spec_brokers() == brokers@,
    ;

    fn send_to_mq(&self, topic: &str, n_items: usize, delivery: &Vec<Result<(), String>>) -> (r:
        Result<(), String>)
        requires
            !self.spec_is_noop() ==> delivery@.len() == n_items,
        ensures
            self.spec_is_noop() ==> r is Ok,
            !self.spec_is_noop() ==> ((r is Ok) <==> (forall|i: int|
                0 <= i < delivery@.len() ==> (#[trigger] delivery@[i]) is Ok)),
            !self.spec_is_noop() && r is Err ==> exists|i: int|
                0 <= i < delivery@.len() && (#[trigger] delivery@[i]) is Err && r->Err_0
                    == delivery@[i]->Err_0 && (forall|j: int|
                    0 <= j < i ==> (#[trigger] delivery@[j]) is Ok),
    ;
}

/// The configuration of a real broker client.  The client itself lives
/// with the runtime; the pipeline's decisions only need the broker list.
#[derive(Clone, Debug)]
pub struct KafkaProducer {
    pub brokers: String,
}

/// The settings a real broker client is created with, beside the broker
/// list.  They are compatibility-sensitive: message timeout 5000 ms,
/// queue buffering 2000 ms, snappy compression, acknowledgement from all
/// replicas, and the message and batch size ceilings.
pub fn kafka_client_settings() -> (r: Vec<(&'static str, &'static str)>)
    ensures
        r@.len() == 6,
        r@[0].0@ == "message.timeout.ms"@ && r@[0].1@ == "5000"@,
        r@[1].0@ == "queue.buffering.max.ms"@ && r@[1].1@ == "2000"@,
        r@[2].0@ == "compression.codec"@ && r@[2].1@ == "snappy"@,
        r@[3].0@ == "request.required.acks"@ && r@[3].1@ == "all"@,
        r@[4].0@ == "message.max.bytes"@ && r@[4].1@ == "10000000"@,
        r@[5].0@ == "batch.size"@ && r@[5].1@ == "50000000"@,
{
    vec![
        ("message.timeout.ms", "5000"),
        ("queue.buffering.max.ms", "2000"),
        ("compression.codec", "snappy"),
        ("request.required.acks", "all"),
        ("message.max.bytes", "10000000"),
        ("batch.size", "50000000"),
    ]
}

/// The publisher used when no brokers are configured: every send succeeds
/// immediately and nothing is sent anywhere.
#[derive(Clone, Debug)]
pub struct NoopProducer;

#[derive(Clone, Debug)]
pub enum CustomProducerEnum {
    Kafka(KafkaProducer),
    Noop(NoopProducer),
}

/// Joins a list of send results into one publish outcome: success
/// exactly when all succeeded, otherwise the first failure.  This is the
/// join for the per-message delivery acknowledgements of one record
/// class, and equally for the per-class results of one batch: any
/// single-class failure fails the whole publish.
pub fn join_send_results(delivery: &Vec<Result<(), String>>) -> (r: Result<(), String>)
    ensures
        (r is Ok) <==> (forall|i: int|
            0 <= i < delivery@.len() ==> (#[trigger] delivery@[i]) is Ok),
        r is Err ==> exists|i: int|
            0 <= i < delivery@.len() && (#[trigger] delivery@[i]) is Err && r->Err_0
                == delivery@[i]->Err_0 && (forall|j: int|
                0 <= j < i ==> (#[trigger] delivery@[j]) is Ok),
{
    let mut i: usize = 0;
    while i < delivery.len()
        invariant
            i <= delivery@.len(),
            forall|j: int| 0 <= j < i ==> (#[trigger] delivery@[j]) is Ok,
        decreases delivery@.len() - i,
    {
        match &delivery[i] {
            Ok(_) => {
            },
            Err(e) => {
                return Err(e.clone());
            },
        }
        i = i + 1;
    }
    Ok(())
}

impl CustomProducer for NoopProducer {
    open spec fn spec_is_noop(&self) -> bool {
        true
    }

    open spec fn spec_new_is_noop(brokers: Seq<char>) -> bool {
        true
    }

    open spec fn spec_brokers(&self) -> Seq<char> {
        Seq::empty()
    }

    fn new(_brokers: &str) -> NoopProducer {
        NoopProducer
    }

    fn send_to_mq(&self, _topic: &str, _n_items: usize, _delivery: &Vec<Result<(), String>>) -> (r:
        Result<(), String>) {
        Ok(())
    }
}

impl CustomProducer for KafkaProducer {
    open spec fn spec_is_noop(&self) -> bool {
        false
    }

    open spec fn spec_new_is_noop(brokers: Seq<char>) -> bool {
        false
    }

    open spec fn spec_brokers(&self) -> Seq<char> {
        self.brokers@
    }

    fn new(brokers: &str) -> KafkaProducer {
        KafkaProducer { brokers: String::from_str(brokers) }
    }

    fn send_to_mq(&self, _topic: &str, _n_items: usize, delivery: &Vec<Result<(), String>>) -> (r:
        Result<(), String>) {
        join_send_results(delivery)
    }
}

impl CustomProducer for CustomProducerEnum {
    open spec fn spec_is_noop(&self) -> bool {
        self is Noop
    }

    open spec fn spec_new_is_noop(brokers: Seq<char>) -> bool {
        brokers.len() == 0
    }

    open spec fn spec_brokers(&self) -> Seq<char> {
        match self {
            CustomProducerEnum::Kafka(p) => p.brokers@,
            CustomProducerEnum::Noop(_) => Seq::empty(),
        }
    }

    /// An empty broker list selects the no-op publisher; anything else a
    /// real broker client.
    fn new(brokers: &str) -> CustomProducerEnum {
        if brokers.is_empty() {
            CustomProducerEnum::Noop(NoopProducer::new(brokers))
        } else {
            CustomProducerEnum::Kafka(KafkaProducer::new(brokers))
        }
    }

    fn send_to_mq(&self, topic: &str, n_items: usize, delivery: &Vec<Result<(), String>>) -> (r:
        Result<(), String>) {
        match self {
            CustomProducerEnum::Kafka(p) => p.send_to_mq(topic, n_items, delivery),
            CustomProducerEnum::Noop(p) => p.send_to_mq(topic, n_items, delivery),
        }
    }
}

} // verus!
