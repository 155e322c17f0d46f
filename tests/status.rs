use sqs_status::gather::{start_run, Gatherer, RunStart, MAX_IN_FLIGHT};
use sqs_status::record::{build_record, requested_attributes, AttributeKind, QueueAttributes, QueueRecord};
use sqs_status::redrive::{decode, short_name_from_fields};
use sqs_status::report::{names_dead_letter_target, record_less, report, report_rows, sort_records, ReportRow};
use sqs_status::text::{last_segment_of, text_less};

fn s(x: &str) -> String {
    x.to_string()
}

fn rec(id: &str, a: &str, d: &str, n: &str, dlq: &str) -> QueueRecord {
    QueueRecord {
        identifier: s(id),
        available: s(a),
        delayed: s(d),
        not_visible: s(n),
        dead_letter_short_name: s(dlq),
    }
}

fn attrs(a: Option<&str>, d: Option<&str>, n: Option<&str>, policy: Option<&str>) -> QueueAttributes {
    QueueAttributes {
        available: a.map(s),
        delayed: d.map(s),
        not_visible: n.map(s),
        redrive_policy: policy.map(s),
    }
}

/// Drives a gatherer to its end, answering each launch with `fetch`, and
/// returns the result and the largest number of fetches seen outstanding.
fn drive(ids: Vec<String>, fetch: &dyn Fn(&str) -> Result<QueueAttributes, String>) -> (Result<Vec<QueueRecord>, String>, usize, usize) {
    let mut g = Gatherer::new(ids);
    let mut outstanding: Vec<(usize, String)> = Vec::new();
    let mut peak = 0;
    let mut launches = 0;
    while !g.is_done() {
        while let Some(job) = g.next_launch() {
            outstanding.push(job);
            launches += 1;
        }
        peak = peak.max(outstanding.len());
        // Complete in an order other than launch order.
        let (i, id) = if outstanding.len() % 2 == 0 { outstanding.remove(0) } else { outstanding.pop().unwrap() };
        assert!(g.is_awaiting(i));
        g.complete(i, fetch(&id));
    }
    (g.outcome(), peak, launches)
}

#[test]
fn decode_takes_last_segment_of_target() {
    let raw = s(r#"{"deadLetterTargetArn":"arn:aws:sqs:us-east-1:123:my-dlq"}"#);
    assert_eq!(decode(Some(raw)), "my-dlq");
}

#[test]
fn decode_accepts_canonical_field_name() {
    let raw = s(r#"{"dead_letter_target_arn":"arn:aws:sqs:eu-west-1:9:other","maxReceiveCount":5}"#);
    assert_eq!(decode(Some(raw)), "other");
}

#[test]
fn decode_without_colon_keeps_value() {
    assert_eq!(decode(Some(s(r#"{"deadLetterTargetArn":"plain"}"#))), "plain");
}

#[test]
fn decode_empty_value_is_empty() {
    assert_eq!(decode(Some(s(r#"{"deadLetterTargetArn":""}"#))), "");
}

#[test]
fn decode_absent_is_empty() {
    assert_eq!(decode(None), "");
}

#[test]
fn decode_malformed_is_empty() {
    assert_eq!(decode(Some(s("not json"))), "");
    assert_eq!(decode(Some(s(r#"{"maxReceiveCount":5}"#))), "");
    assert_eq!(decode(Some(s(r#"{"deadLetterTargetArn":5}"#))), "");
    assert_eq!(decode(Some(s(r#"["a:b"]"#))), "");
}

#[test]
fn short_name_prefers_field_over_alias() {
    assert_eq!(short_name_from_fields(Some(s("a:b")), Some(s("c:d"))), "b");
    assert_eq!(short_name_from_fields(None, Some(s("c:d"))), "d");
    assert_eq!(short_name_from_fields(None, None), "");
}

#[test]
fn last_segment_splits_on_delimiter() {
    assert_eq!(last_segment_of("https://sqs.us-east-1.amazonaws.com/123/main-queue", '/'), "main-queue");
    assert_eq!(last_segment_of("no-slash", '/'), "no-slash");
    assert_eq!(last_segment_of("ends/", '/'), "");
    assert_eq!(last_segment_of("", ':'), "");
}

#[test]
fn text_order_is_lexicographic() {
    assert!(text_less("a", "b"));
    assert!(text_less("ab", "abc"));
    assert!(!text_less("abc", "ab"));
    assert!(!text_less("same", "same"));
    assert!(text_less("10", "9"));
    assert!(text_less("", "x"));
}

#[test]
fn requested_attributes_are_five() {
    let kinds = requested_attributes();
    assert_eq!(kinds.len(), 5);
    assert_eq!(kinds[0], AttributeKind::ApproximateNumberOfMessages);
    assert_eq!(kinds[4], AttributeKind::RedrivePolicy);
}

#[test]
fn build_record_defaults_missing_counters() {
    let r = build_record(s("q/url"), attrs(None, Some("4"), None, None));
    assert_eq!(r, rec("q/url", "0", "4", "0", ""));
}

#[test]
fn build_record_decodes_policy() {
    let r = build_record(s("u/main"), attrs(Some("1"), Some("2"), Some("3"), Some(r#"{"deadLetterTargetArn":"arn:x:dlq-1"}"#)));
    assert_eq!(r, rec("u/main", "1", "2", "3", "dlq-1"));
}

#[test]
fn build_record_absorbs_bad_policy() {
    let r = build_record(s("u/main"), attrs(Some("1"), None, None, Some("{")));
    assert_eq!(r.dead_letter_short_name, "");
}

#[test]
fn gather_over_no_identifiers() {
    let mut g = Gatherer::new(vec![]);
    assert!(g.is_done());
    assert!(g.next_launch().is_none());
    assert_eq!(g.outcome(), Ok(vec![]));
}

#[test]
fn gather_all_succeed_gives_one_record_each() {
    let ids: Vec<String> = (0..10).map(|i| format!("https://host/1/q{}", i)).collect();
    let (result, _, launches) = drive(ids.clone(), &|_| Ok(attrs(Some("1"), None, None, None)));
    let records = result.unwrap();
    assert_eq!(launches, 10);
    assert_eq!(records.len(), 10);
    for (r, id) in records.iter().zip(ids.iter()) {
        assert_eq!(&r.identifier, id);
        assert_eq!(r.available, "1");
    }
}

#[test]
fn gather_one_failure_fails_all() {
    for bad in 0..5 {
        let ids: Vec<String> = (0..5).map(|i| format!("q{}", i)).collect();
        let target = format!("q{}", bad);
        let (result, _, _) = drive(ids, &|id| if id == target { Err(format!("denied {}", id)) } else { Ok(attrs(None, None, None, None)) });
        assert_eq!(result, Err(format!("denied q{}", bad)));
    }
}

#[test]
fn gather_keeps_first_failure() {
    let mut g = Gatherer::new(vec![s("a"), s("b")]);
    let first = g.next_launch().unwrap();
    let second = g.next_launch().unwrap();
    g.complete(second.0, Err(s("second")));
    assert!(g.is_done());
    g.complete(first.0, Err(s("first")));
    assert_eq!(g.outcome(), Err(s("second")));
}

#[test]
fn gather_respects_ceiling() {
    let ids: Vec<String> = (0..700).map(|i| format!("q{}", i)).collect();
    let (result, peak, launches) = drive(ids, &|_| Ok(attrs(None, None, None, None)));
    assert_eq!(result.unwrap().len(), 700);
    assert_eq!(launches, 700);
    assert_eq!(MAX_IN_FLIGHT, 256);
    assert_eq!(peak, 256);
}

#[test]
fn gather_launch_stops_at_ceiling() {
    let ids: Vec<String> = (0..300).map(|i| format!("q{}", i)).collect();
    let mut g = Gatherer::new(ids);
    let mut n = 0;
    while g.next_launch().is_some() {
        n += 1;
    }
    assert_eq!(n, 256);
    g.complete(7, Ok(attrs(None, None, None, None)));
    assert_eq!(g.next_launch(), Some((256, s("q256"))));
    assert!(g.next_launch().is_none());
}

#[test]
fn report_filters_empty_queues() {
    let records = vec![rec("u/a", "0", "0", "0", ""), rec("u/b", "3", "0", "0", ""), rec("u/c", "0", "0", "0", "")];
    let rows = report(records.clone(), false);
    assert_eq!(rows.len(), 1);
    assert_eq!(rows[0].name, "b");
    assert_eq!(rows[0].available, "3");
    let rows = report(records, true);
    assert_eq!(rows.len(), 3);
}

#[test]
fn report_nothing_in_flight_is_empty() {
    let records = vec![rec("u/a", "0", "0", "0", ""), rec("u/c", "0", "0", "0", "")];
    assert!(report(records, false).is_empty());
}

#[test]
fn report_emphasizes_dead_letter_targets() {
    let records = vec![
        rec("https://h/1/main-queue", "1", "0", "0", "dlq-1"),
        rec("https://h/1/dlq-1", "2", "0", "0", ""),
    ];
    let rows = report(records, false);
    assert_eq!(rows.len(), 2);
    let dlq = rows.iter().find(|r| r.name == "dlq-1").unwrap();
    let main = rows.iter().find(|r| r.name == "main-queue").unwrap();
    assert!(dlq.emphasized);
    assert!(!main.emphasized);
}

#[test]
fn report_sorts_by_identifier() {
    let records = vec![
        rec("u/c", "1", "0", "0", ""),
        rec("u/a", "9", "0", "0", ""),
        rec("u/b", "1", "5", "0", ""),
    ];
    let rows = report(records, false);
    let names: Vec<&str> = rows.iter().map(|r| r.name.as_str()).collect();
    assert_eq!(names, vec!["a", "b", "c"]);
}

#[test]
fn report_rows_keep_given_order() {
    let records = vec![rec("u/z", "1", "0", "0", ""), rec("u/y", "0", "2", "0", "")];
    let rows = report_rows(&records, false);
    assert_eq!(
        rows,
        vec![
            ReportRow { available: s("1"), delayed: s("0"), not_visible: s("0"), name: s("z"), emphasized: false },
            ReportRow { available: s("0"), delayed: s("2"), not_visible: s("0"), name: s("y"), emphasized: false },
        ]
    );
}

#[test]
fn sort_breaks_ties_on_later_fields() {
    let sorted = sort_records(vec![
        rec("u/q", "2", "0", "0", ""),
        rec("u/q", "10", "0", "0", ""),
        rec("u/a", "5", "0", "0", ""),
        rec("u/q", "2", "0", "0", "d"),
    ]);
    assert_eq!(
        sorted,
        vec![
            rec("u/a", "5", "0", "0", ""),
            rec("u/q", "10", "0", "0", ""),
            rec("u/q", "2", "0", "0", ""),
            rec("u/q", "2", "0", "0", "d"),
        ]
    );
}

#[test]
fn record_order_compares_fields_in_turn() {
    assert!(record_less(&rec("a", "9", "0", "0", ""), &rec("b", "1", "0", "0", "")));
    assert!(record_less(&rec("a", "1", "0", "0", ""), &rec("a", "1", "0", "1", "")));
    assert!(!record_less(&rec("a", "1", "0", "0", ""), &rec("a", "1", "0", "0", "")));
}

#[test]
fn dead_letter_target_lookup() {
    let records = vec![rec("u/a", "0", "0", "0", "x"), rec("u/b", "0", "0", "0", "")];
    assert!(names_dead_letter_target(&records, &s("x")));
    assert!(!names_dead_letter_target(&records, &s("a")));
}

#[test]
fn empty_listing_short_circuits() {
    assert!(matches!(start_run(vec![]), RunStart::NoQueues));
    assert!(matches!(start_run(vec![s("u/a")]), RunStart::Gather(_)));
}
