use kafka_relay::consumer::Drain;
use kafka_relay::consumer::RawMessage;
use kafka_relay::decode::DecodeError;
use kafka_relay::encode::encode_record;
use kafka_relay::pipeline::PipelineRun;
use kafka_relay::pipeline::RunAction;
use kafka_relay::record::DomainRecord;

fn record(id: &str, age: i32) -> DomainRecord {
    DomainRecord {
        id: id.to_string(),
        crm_id: "crm".to_string(),
        is_active: true,
        age,
        name: "n".to_string(),
        company: "o".to_string(),
        gender: "g".to_string(),
        email: "e".to_string(),
    }
}

fn raw(key: &str, rec: &DomainRecord) -> RawMessage {
    RawMessage {
        key: key.as_bytes().to_vec(),
        value: encode_record(rec).into_bytes(),
    }
}

/// Drives one run to its end, forwarding with the given sink outcome and
/// publishing with the broker outcomes in order; yields the published keys.
fn drive(mut run: PipelineRun, sink_ok: bool, broker: &[bool]) -> (Vec<String>, bool) {
    let mut published: Vec<String> = Vec::new();
    let mut acks = broker.iter().copied();
    loop {
        match run.next_action() {
            RunAction::Forward { body: _ } => run.forward_done(sink_ok),
            RunAction::Publish { key, body: _ } => {
                let acked = acks.next().unwrap_or(true);
                if acked {
                    published.push(key);
                }
                run.publish_done(acked);
            }
            RunAction::Finished => return (published, true),
            RunAction::Halted => return (published, false),
        }
    }
}

#[test]
fn run_publishes_every_record_in_order() {
    let records = vec![record("a", 1), record("b", 2), record("c", 3)];
    let run = PipelineRun::new(records, "p".to_string());
    let (published, complete) = drive(run, true, &[true, true, true]);
    assert!(complete);
    assert_eq!(published, vec!["p-0".to_string(), "p-1".to_string(), "p-2".to_string()]);
}

#[test]
fn unreachable_sink_does_not_stop_publishing() {
    let records = vec![record("a", 1), record("b", 2), record("c", 3)];
    let run = PipelineRun::new(records, "p".to_string());
    let (published, complete) = drive(run, false, &[true, true, true]);
    assert!(complete);
    assert_eq!(published, vec!["p-0".to_string(), "p-1".to_string(), "p-2".to_string()]);
}

#[test]
fn failed_publish_stops_the_run_after_durable_prefix() {
    let records = vec![record("a", 1), record("b", 2), record("c", 3)];
    let run = PipelineRun::new(records, "p".to_string());
    let (published, complete) = drive(run, true, &[true, false]);
    assert!(!complete);
    assert_eq!(published, vec!["p-0".to_string()]);
}

#[test]
fn empty_run_finishes_without_error() {
    let run = PipelineRun::new(Vec::new(), "p".to_string());
    let (published, complete) = drive(run, true, &[]);
    assert!(complete);
    assert_eq!(published.len(), 0);
}

#[test]
fn example_record_gets_key_zero_and_identical_value() {
    let rec = DomainRecord {
        id: "63c184fcdbc7219b330870d7".to_string(),
        crm_id: "355e0213-4ce5-4c74-8a8c-e96558f576a1".to_string(),
        is_active: true,
        age: 55,
        name: "Hurley Meyer".to_string(),
        company: "ONTAGENE".to_string(),
        gender: "male".to_string(),
        email: "hurleymeyer@ontagene.com".to_string(),
    };
    let expected = encode_record(&rec);
    let mut run = PipelineRun::new(vec![rec], "test-key".to_string());
    match run.next_action() {
        RunAction::Forward { body } => assert_eq!(body, expected),
        _ => panic!("expected a forward"),
    }
    run.forward_done(true);
    match run.next_action() {
        RunAction::Publish { key, body } => {
            assert_eq!(key, "test-key-0");
            assert_eq!(body, expected);
            assert_eq!(
                body,
                "{\"_id\":\"63c184fcdbc7219b330870d7\",\"crmId\":\"355e0213-4ce5-4c74-8a8c-e96558f576a1\",\"isActive\":true,\"age\":55,\"name\":\"Hurley Meyer\",\"company\":\"ONTAGENE\",\"gender\":\"male\",\"email\":\"hurleymeyer@ontagene.com\"}"
            );
        }
        _ => panic!("expected a publish"),
    }
}

#[test]
fn relay_end_to_end_republishes_consumed_records() {
    let recs = vec![record("a", 1), record("b", 2), record("c", 3)];
    let batch: Vec<RawMessage> = recs
        .iter()
        .enumerate()
        .map(|(i, r)| raw(&format!("k{}", i), r))
        .collect();
    let mut drain = Drain::new(true);
    assert!(drain.drain_group(&batch).unwrap());
    let mut run = PipelineRun::new(drain.finish(), "out".to_string());
    let mut published: Vec<(String, String)> = Vec::new();
    loop {
        match run.next_action() {
            RunAction::Forward { body: _ } => run.forward_done(true),
            RunAction::Publish { key, body } => {
                published.push((key, body));
                run.publish_done(true);
            }
            RunAction::Finished => break,
            RunAction::Halted => panic!("run should complete"),
        }
    }
    assert_eq!(published.len(), 3);
    for (i, r) in recs.iter().enumerate() {
        assert_eq!(published[i].0, format!("out-{}", i));
        assert_eq!(published[i].1, encode_record(r));
    }
}

#[test]
fn drain_collects_records_in_order_and_reports_commit() {
    let mut drain = Drain::new(true);
    let batch = vec![raw("k0", &record("a", 1)), raw("k1", &record("b", 2))];
    let commit = drain.drain_group(&batch).unwrap();
    assert!(commit);
    let records = drain.finish();
    assert_eq!(records.len(), 2);
    assert_eq!(records[0].id, "a");
    assert_eq!(records[1].id, "b");
}

#[test]
fn drain_without_auto_commit_never_commits() {
    let mut drain = Drain::new(false);
    let batch = vec![raw("k0", &record("a", 1))];
    let commit = drain.drain_group(&batch).unwrap();
    assert!(!commit);
}

#[test]
fn drain_fails_fast_naming_the_offending_key() {
    let mut drain = Drain::new(true);
    let good = raw("k0", &record("a", 1));
    let bad = RawMessage {
        key: "bad-key".as_bytes().to_vec(),
        value: "{\"not\":\"a record\"}".as_bytes().to_vec(),
    };
    let batch = vec![good, bad];
    let err = drain.drain_group(&batch).unwrap_err();
    assert_eq!(err.key, "bad-key".as_bytes().to_vec());
    assert_eq!(err.kind, DecodeError::Schema);
    assert_eq!(drain.finish().len(), 0);
}

#[test]
fn drain_reports_utf8_failures() {
    let mut drain = Drain::new(true);
    let bad = RawMessage {
        key: "k".as_bytes().to_vec(),
        value: vec![0xc0, 0x20],
    };
    let err = drain.drain_group(&vec![bad]).unwrap_err();
    assert_eq!(err.kind, DecodeError::Utf8);
}
