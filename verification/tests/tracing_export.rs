use rustfiber::bench::{fibonacci, sequential_quicksort};
use rustfiber::tracing::{register_thread, trace_json_bytes, TraceEvent};

#[test]
fn trace_event_from_micros() {
    let e = TraceEvent::from_micros("Job Execution", 3, 250, 1_000_000, 42);
    assert_eq!(e.name, "Job Execution");
    assert_eq!(e.tid, 3);
    assert_eq!(e.start_us, 1_000_250);
    assert_eq!(e.duration_us, 42);
    let wide = TraceEvent::from_micros("x", 0, (1u128 << 64) + 5, 0, (1u128 << 64) + 7);
    assert_eq!(wide.start_us, 5);
    assert_eq!(wide.duration_us, 7);
}

#[test]
fn empty_trace_file() {
    register_thread();
    let out = trace_json_bytes(&Vec::new());
    assert_eq!(String::from_utf8(out).unwrap(), "[\n\n]\n");
}

#[test]
fn trace_file_format() {
    let events = vec![
        TraceEvent { name: "Job Execution", tid: 1, start_us: 100, duration_us: 5 },
        TraceEvent { name: "Steal", tid: 12, start_us: 0, duration_us: 1234567890 },
    ];
    let out = String::from_utf8(trace_json_bytes(&events)).unwrap();
    assert_eq!(
        out,
        "[\n{\"name\":\"Job Execution\",\"ph\":\"X\",\"ts\":100,\"dur\":5,\"pid\":1,\"tid\":1},\n\
         {\"name\":\"Steal\",\"ph\":\"X\",\"ts\":0,\"dur\":1234567890,\"pid\":1,\"tid\":12}\n]\n"
    );
}

#[test]
fn fibonacci_values() {
    assert_eq!(fibonacci(0), 0);
    assert_eq!(fibonacci(1), 1);
    assert_eq!(fibonacci(2), 1);
    assert_eq!(fibonacci(20), 6765);
    assert_eq!(fibonacci(25), 75025);
    assert_eq!(fibonacci(93), 12200160415121876738);
}

#[test]
fn sequential_quicksort_sorts() {
    let mut v: Vec<i32> = (0..1000).map(|i| (i * 17) % 1000).rev().collect();
    let mut expected = v.clone();
    expected.sort();
    sequential_quicksort(&mut v);
    assert_eq!(v, expected);
    let mut one = vec![5];
    sequential_quicksort(&mut one);
    assert_eq!(one, vec![5]);
}
