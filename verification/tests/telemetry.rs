use edgeless::telemetry::{metric_update, performance_outcome, process_in_chain, MetricUpdate, TelemetryProcessingResult};
use edgeless::telemetry::{
    classify_event, SampleKind, api_to_telemetry, get_index_name, level_from_i32, merge_tags, telemetry_to_api, FunctionExitStatus, FunctionTime, IndexType,
    TelemetryEvent, TelemetryHandle, TelemetryHandleAPI, TelemetryLogLevel,
};
use edgeless::tracer::{decimal_string, escape_quotes, format_trace_line, signed_string, ControlPlaneTracer, TraceEvent};

fn tags(pairs: &[(&str, &str)]) -> Vec<(String, String)> {
    pairs.iter().map(|(k, v)| (k.to_string(), v.to_string())).collect()
}

fn as_map(v: &[(String, String)]) -> std::collections::BTreeMap<String, String> {
    v.iter().cloned().collect()
}

#[test]
fn test_control_plane_api() {
    let mut handle = ControlPlaneTracer::new(String::new()).ok().unwrap();

    let mut span = handle.start_span("request");
    span.log(&mut handle, "info", "processing request");

    {
        let mut child = span.child(&mut handle, "database_query");
        child.log(&mut handle, "debug", "executing query");
        child.end(&mut handle);
    }

    {
        let mut child = span.child(&mut handle, "cache_lookup");
        child.log(&mut handle, "debug", "checking cache");
        child.end(&mut handle);
    }

    span.log(&mut handle, "info", "request completed");
    span.end(&mut handle);

    handle.log("warn", "global log message");
}

#[test]
fn test_csv_events() {
    let mut target = ControlPlaneTracer::new(String::new()).ok().unwrap();

    let correlation_id = uuid::Uuid::new_v4().as_u128();
    let child_id = uuid::Uuid::new_v4().as_u128();

    target.record(&TraceEvent::SpanStart { correlation_id, parent_id: None, name: "test_span".to_string() });

    target.record(&TraceEvent::SpanStart { correlation_id: child_id, parent_id: Some(correlation_id), name: "child_span".to_string() });

    target.record(&TraceEvent::Log { correlation_id: Some(child_id), level: "info".to_string(), message: "test message".to_string() });

    target.record(&TraceEvent::SpanEnd { correlation_id: child_id });

    target.record(&TraceEvent::SpanEnd { correlation_id: correlation_id });

    target.record(&TraceEvent::Log { correlation_id: None, level: "warn".to_string(), message: "uncorrelated log".to_string() });
}

#[test]
fn trace_lines_follow_the_csv_layout() {
    let id = uuid::Uuid::new_v4();
    let parent = uuid::Uuid::new_v4();
    let start = TraceEvent::SpanStart { correlation_id: id.as_u128(), parent_id: Some(parent.as_u128()), name: "work".to_string() };
    assert_eq!(format!("12,34,span_start,{},{},work,,", id, parent), format_trace_line(&start, 12, 34));
    let end = TraceEvent::SpanEnd { correlation_id: id.as_u128() };
    assert_eq!(format!("-5,0,span_end,{},,,,", id), format_trace_line(&end, -5, 0));
    let log = TraceEvent::Log { correlation_id: None, level: "warn".to_string(), message: "say \"hi\"".to_string() };
    assert_eq!("1,2,log,,,,,warn,\"say \"\"hi\"\"\"", format_trace_line(&log, 1, 2));
}

#[test]
fn tracer_starts_with_the_header_and_ends_spans_once() {
    let mut tracer = ControlPlaneTracer::new("trace.csv".to_string()).ok().unwrap();
    assert_eq!("trace.csv", tracer.output_path().as_str());
    let mut span = tracer.start_span("s");
    span.end(&mut tracer);
    span.end(&mut tracer);
    let lines = tracer.take_lines();
    assert_eq!(3, lines.len());
    assert_eq!("timestamp_sec,timestamp_ns,event_type,correlation_id,parent_id,name,level,message", lines[0]);
    assert!(lines[1].contains(",span_start,"));
    assert!(lines[1].contains(&uuid::Uuid::from_u128(span.id()).to_string()));
    assert!(lines[2].contains(",span_end,"));
    assert!(tracer.take_lines().is_empty());
}

#[test]
fn numbers_and_quotes() {
    assert_eq!("0", decimal_string(0));
    assert_eq!("18446744073709551615", decimal_string(u64::MAX));
    assert_eq!("-9223372036854775808", signed_string(i64::MIN));
    assert_eq!("42", signed_string(42));
    assert_eq!("a\"\"b", escape_quotes("a\"b"));
    assert_eq!("plain", escape_quotes("plain"));
}

#[test]
fn log_levels_in_the_api() {
    assert_eq!(TelemetryLogLevel::Trace, api_to_telemetry("Trace".to_string()));
    assert_eq!(TelemetryLogLevel::Debug, api_to_telemetry("Debug".to_string()));
    assert_eq!(TelemetryLogLevel::Info, api_to_telemetry("Info".to_string()));
    assert_eq!(TelemetryLogLevel::Warn, api_to_telemetry("Warn".to_string()));
    assert_eq!(TelemetryLogLevel::Error, api_to_telemetry("Error".to_string()));
    assert_eq!(TelemetryLogLevel::Error, api_to_telemetry("info".to_string()));
    for level in [
        TelemetryLogLevel::Error,
        TelemetryLogLevel::Warn,
        TelemetryLogLevel::Info,
        TelemetryLogLevel::Debug,
        TelemetryLogLevel::Trace,
    ] {
        assert_eq!(level, api_to_telemetry(telemetry_to_api(level)));
    }
    assert_eq!("Warn", telemetry_to_api(TelemetryLogLevel::Warn));
}

#[test]
fn log_levels_of_function_codes() {
    assert_eq!(TelemetryLogLevel::Error, level_from_i32(1));
    assert_eq!(TelemetryLogLevel::Warn, level_from_i32(2));
    assert_eq!(TelemetryLogLevel::Info, level_from_i32(3));
    assert_eq!(TelemetryLogLevel::Debug, level_from_i32(4));
    assert_eq!(TelemetryLogLevel::Trace, level_from_i32(5));
    assert_eq!(TelemetryLogLevel::Error, level_from_i32(0));
    assert_eq!(TelemetryLogLevel::Error, level_from_i32(-7));
}

#[test]
fn index_names_and_time_slots() {
    assert_eq!("edgeless_runtime", get_index_name(IndexType::Runtime));
    assert_eq!("edgeless_resources", get_index_name(IndexType::Resources));
    assert_eq!(0, FunctionTime::Instantiate.index());
    assert_eq!(1, FunctionTime::Init.index());
    assert_eq!(2, FunctionTime::Execution.index());
    assert_eq!(3, FunctionTime::Stop.index());
    assert_eq!(4, FunctionTime::Transfer.index());
}

#[test]
fn event_tags_override_handle_tags() {
    let merged = merge_tags(&tags(&[("node", "n1"), ("function", "f")]), &tags(&[("function", "g"), ("extra", "x")]));
    let expected = as_map(&tags(&[("node", "n1"), ("function", "g"), ("extra", "x")]));
    assert_eq!(expected, as_map(&merged));
    assert_eq!(3, merged.len());
}

#[test]
fn handles_merge_their_tags() {
    let mut handle = TelemetryHandle::new(tags(&[("node", "n1")]));
    handle.observe(TelemetryEvent::FunctionExit(FunctionExitStatus::Success), tags(&[("function", "f")]));
    let mut child = handle.fork(tags(&[("function", "g")]));
    child.observe(TelemetryEvent::FunctionInit(1000), tags(&[("node", "n2")]));
    let raised = handle.take_raised();
    assert_eq!(1, raised.len());
    assert_eq!(as_map(&tags(&[("node", "n1"), ("function", "f")])), as_map(&raised[0].1));
    assert!(handle.take_raised().is_empty());
    let raised = child.take_raised();
    assert_eq!(as_map(&tags(&[("node", "n2"), ("function", "g")])), as_map(&raised[0].1));
}

#[test]
fn performance_samples_belong_to_the_tagged_function() {
    let fid = uuid::Uuid::new_v4();
    let tagged = tags(&[("FUNCTION_ID", &fid.to_string())]);
    assert_eq!(
        Some((SampleKind::Time(FunctionTime::Execution), fid.as_u128())),
        classify_event(&TelemetryEvent::FunctionInvocationCompleted(5), &tagged)
    );
    assert_eq!(
        Some((SampleKind::LogEntry, fid.as_u128())),
        classify_event(&TelemetryEvent::FunctionLogEntry(TelemetryLogLevel::Info, "t".to_string(), "m".to_string()), &tagged)
    );
    assert_eq!(None, classify_event(&TelemetryEvent::FunctionExit(FunctionExitStatus::CodeError), &tagged));
    assert_eq!(None, classify_event(&TelemetryEvent::FunctionInit(5), &tags(&[("FUNCTION_ID", "not-a-uuid")])));
    assert_eq!(None, classify_event(&TelemetryEvent::FunctionStop(5), &tags(&[("OTHER", "x")])));
}

#[test]
fn metric_updates_of_events() {
    let all = tags(&[("NODE_ID", "n1"), ("FUNCTION_TYPE", "RUST_WASM"), ("FUNCTION_ID", "f1"), ("EVENT_TYPE", "CALL")]);
    match metric_update(&TelemetryEvent::FunctionInstantiate(5), &all) {
        (Some(MetricUpdate::FunctionStarted { node_id, function_type }), TelemetryProcessingResult::FINAL) => {
            assert_eq!("n1", node_id);
            assert_eq!("RUST_WASM", function_type);
        }
        _ => panic!("instantiation counts up"),
    }
    match metric_update(&TelemetryEvent::FunctionExit(FunctionExitStatus::Success), &all) {
        (Some(MetricUpdate::FunctionExited { node_id, .. }), TelemetryProcessingResult::FINAL) => assert_eq!("n1", node_id),
        _ => panic!("exit counts down"),
    }
    match metric_update(&TelemetryEvent::FunctionInvocationCompleted(1_500), &all) {
        (Some(MetricUpdate::ExecutionTime { function_id, is_call, duration_ns, .. }), TelemetryProcessingResult::FINAL) => {
            assert_eq!("f1", function_id);
            assert!(is_call);
            assert_eq!(1_500, duration_ns);
        }
        _ => panic!("completion is timed"),
    }
    let cast = tags(&[("NODE_ID", "n1"), ("FUNCTION_TYPE", "X"), ("FUNCTION_ID", "f1"), ("EVENT_TYPE", "CAST")]);
    match metric_update(&TelemetryEvent::FunctionInvocationCompleted(1), &cast) {
        (Some(MetricUpdate::ExecutionTime { is_call, .. }), _) => assert!(!is_call),
        _ => panic!("completion is timed"),
    }
    // A missing tag: nothing updated, but the event is taken.
    let partial = tags(&[("NODE_ID", "n1")]);
    assert!(matches!(metric_update(&TelemetryEvent::FunctionInstantiate(5), &partial), (None, TelemetryProcessingResult::FINAL)));
    // Other events are passed on.
    assert!(matches!(metric_update(&TelemetryEvent::FunctionStop(5), &all), (None, TelemetryProcessingResult::PASSED)));
    assert!(matches!(metric_update(&TelemetryEvent::FunctionInit(5), &all), (None, TelemetryProcessingResult::PASSED)));
}

struct Stage {
    answer: TelemetryProcessingResult,
    seen: usize,
}

impl edgeless::telemetry::EventProcessor for Stage {
    fn handle(&mut self, _event: &TelemetryEvent, _event_tags: &Vec<(String, String)>) -> TelemetryProcessingResult {
        self.seen += 1;
        self.answer
    }
}

#[test]
fn chain_stops_at_the_first_final_stage() {
    let mut chain = vec![
        Stage { answer: TelemetryProcessingResult::PASSED, seen: 0 },
        Stage { answer: TelemetryProcessingResult::FINAL, seen: 0 },
        Stage { answer: TelemetryProcessingResult::PROCESSED, seen: 0 },
    ];
    let results = process_in_chain(&mut chain, &TelemetryEvent::FunctionInit(1), &vec![]);
    assert_eq!(vec![TelemetryProcessingResult::PASSED, TelemetryProcessingResult::FINAL], results);
    assert_eq!(vec![1, 1, 0], chain.iter().map(|s| s.seen).collect::<Vec<_>>());

    let mut open = vec![Stage { answer: TelemetryProcessingResult::PROCESSED, seen: 0 }, Stage { answer: TelemetryProcessingResult::PASSED, seen: 0 }];
    let results = process_in_chain(&mut open, &TelemetryEvent::FunctionInit(1), &vec![]);
    assert_eq!(vec![TelemetryProcessingResult::PROCESSED, TelemetryProcessingResult::PASSED], results);
    assert!(process_in_chain(&mut Vec::<Stage>::new(), &TelemetryEvent::FunctionInit(1), &vec![]).is_empty());
}

#[test]
fn performance_target_passes_on_exits_only() {
    assert_eq!(TelemetryProcessingResult::PASSED, performance_outcome(&TelemetryEvent::FunctionExit(FunctionExitStatus::CodeError)));
    assert_eq!(TelemetryProcessingResult::PROCESSED, performance_outcome(&TelemetryEvent::FunctionInit(3)));
    assert_eq!(
        TelemetryProcessingResult::PROCESSED,
        performance_outcome(&TelemetryEvent::FunctionLogEntry(TelemetryLogLevel::Info, "t".to_string(), "m".to_string()))
    );
}
