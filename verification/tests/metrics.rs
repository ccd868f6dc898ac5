//! The counters and their exposition.

use llm_api::domain::entity::FinishReason;
use llm_api::infrastructure::generation::GenerationOutcome;
use llm_api::presentation::chat::record_outcome;
use llm_api::presentation::process::{cpu_ms, rss_bytes};
use llm_api::presentation::metrics::{
    count_aborted, count_error, count_request, lifetime_rates, metrics, record_tokens, snapshot,
    Metrics, Quotient,
};

#[test]
fn counters_accumulate() {
    let mut m = Metrics::new();
    count_request(&mut m, true);
    count_request(&mut m, false);
    count_error(&mut m);
    count_aborted(&mut m);
    record_tokens(&mut m, 100, 250, 5000);

    assert_eq!(m.requests_total, 2);
    assert_eq!(m.streaming_total, 1);
    assert_eq!(m.errors_total, 1);
    assert_eq!(m.aborted_total, 1);
    assert_eq!(m.prompt_tokens_total, 100);
    assert_eq!(m.completion_tokens_total, 250);
    assert_eq!(m.generation_ms_total, 5000);
}

#[test]
fn metrics_body_has_prometheus_shape() {
    let mut m = Metrics::new();
    count_request(&mut m, true);
    record_tokens(&mut m, 10, 20, 1000);

    let text = metrics(&m, 7, 1_700_000_000, "0.143", "20.000", "1000.0", 40, 4096);

    assert!(text.contains("# TYPE llm_api_requests_total counter"));
    assert!(text.contains("llm_api_requests_total 1"));
    assert!(text.contains("llm_api_completion_tokens_total 20"));
    assert!(text.contains("llm_api_build_info{version="));
    assert!(text.contains("llm_api_uptime_seconds "));
    assert!(text.contains("llm_api_cpu_ms_total 40\n"));
    assert!(text.contains("llm_api_resident_memory_bytes 4096\n"));
}

#[test]
fn metrics_body_is_exact() {
    let m = Metrics {
        requests_total: 2,
        errors_total: 1,
        streaming_total: 1,
        prompt_tokens_total: 100,
        completion_tokens_total: 250,
        generation_ms_total: 5000,
        aborted_total: 0,
    };
    let expected = "# HELP llm_api_requests_total Total /v1/chat/completions requests received.
# TYPE llm_api_requests_total counter
llm_api_requests_total 2
# HELP llm_api_errors_total Requests that ended in an error.
# TYPE llm_api_errors_total counter
llm_api_errors_total 1
# HELP llm_api_streaming_requests_total Requests that streamed.
# TYPE llm_api_streaming_requests_total counter
llm_api_streaming_requests_total 1
# HELP llm_api_aborted_requests_total Generations aborted early (client disconnect).
# TYPE llm_api_aborted_requests_total counter
llm_api_aborted_requests_total 0
# HELP llm_api_prompt_tokens_total Prompt tokens accepted.
# TYPE llm_api_prompt_tokens_total counter
llm_api_prompt_tokens_total 100
# HELP llm_api_completion_tokens_total Completion tokens generated.
# TYPE llm_api_completion_tokens_total counter
llm_api_completion_tokens_total 250
# HELP llm_api_generation_ms_total Generation time in milliseconds.
# TYPE llm_api_generation_ms_total counter
llm_api_generation_ms_total 5000
# HELP llm_api_requests_per_second Lifetime request rate.
# TYPE llm_api_requests_per_second gauge
llm_api_requests_per_second 0.200
# HELP llm_api_tokens_per_second Lifetime generation throughput.
# TYPE llm_api_tokens_per_second gauge
llm_api_tokens_per_second 50.000
# HELP llm_api_average_generation_ms Average generation duration per request.
# TYPE llm_api_average_generation_ms gauge
llm_api_average_generation_ms 2500.0
# HELP llm_api_uptime_seconds Server process uptime.
# TYPE llm_api_uptime_seconds gauge
llm_api_uptime_seconds 10
# HELP llm_api_start_time_seconds Process start time (unix).
# TYPE llm_api_start_time_seconds gauge
llm_api_start_time_seconds 1700000000
# HELP llm_api_cpu_ms_total CPU time of the process in milliseconds.
# TYPE llm_api_cpu_ms_total counter
llm_api_cpu_ms_total 1230
# HELP llm_api_resident_memory_bytes Resident set size of the process.
# TYPE llm_api_resident_memory_bytes gauge
llm_api_resident_memory_bytes 1048576
# HELP llm_api_build_info Build information.
# TYPE llm_api_build_info gauge
llm_api_build_info{version=\"0.1.0\",model=\"minicpm5-1b-fable5-v2-thinking\"} 1
";
    assert_eq!(
        metrics(&m, 10, 1_700_000_000, "0.200", "50.000", "2500.0", 1230, 1_048_576),
        expected
    );
}

#[test]
fn snapshot_gives_three_counters() {
    let mut m = Metrics::new();
    assert_eq!(snapshot(&m), (0, 0, 0));
    count_request(&mut m, false);
    record_tokens(&mut m, 3, 4, 5);
    assert_eq!(snapshot(&m), (1, 4, 5));
}

#[test]
fn rates_without_a_divisor_are_none() {
    let mut m = Metrics::new();
    let r = lifetime_rates(&m, 0);
    assert_eq!((r.requests, r.tokens, r.generation), (None, None, None));
    count_request(&mut m, false);
    record_tokens(&mut m, 3, 4, 5);
    let r = lifetime_rates(&m, 6);
    assert_eq!(r.requests, Some(Quotient { dividend: 1, divisor: 6 }));
    assert_eq!(r.tokens, Some(Quotient { dividend: 4, divisor: 5 }));
    assert_eq!(r.generation, Some(Quotient { dividend: 5, divisor: 1 }));
}

#[test]
fn counters_wrap_around() {
    let mut m = Metrics::new();
    m.generation_ms_total = u64::MAX;
    record_tokens(&mut m, 0, 0, 2);
    assert_eq!(m.generation_ms_total, 1);
}

#[test]
fn counting_in_another_order_counts_the_same() {
    let mut a = Metrics::new();
    count_request(&mut a, true);
    count_error(&mut a);
    record_tokens(&mut a, 1, 2, 3);
    count_aborted(&mut a);
    let mut b = Metrics::new();
    count_aborted(&mut b);
    record_tokens(&mut b, 1, 2, 3);
    count_error(&mut b);
    count_request(&mut b, true);
    assert_eq!(a, b);
    assert!(a.streaming_total <= a.requests_total);
}

#[test]
fn an_aborted_generation_is_counted() {
    let outcome = |finish: FinishReason| GenerationOutcome {
        tokens: vec![1, 2, 3],
        text: String::new(),
        finish,
    };
    let mut m = Metrics::new();
    record_outcome(&mut m, 5, &outcome(FinishReason::Stop), 9);
    assert_eq!((m.prompt_tokens_total, m.completion_tokens_total, m.aborted_total), (5, 3, 0));
    record_outcome(&mut m, 5, &outcome(FinishReason::Aborted), 9);
    assert_eq!((m.prompt_tokens_total, m.completion_tokens_total, m.aborted_total), (10, 6, 1));
    assert_eq!(m.generation_ms_total, 18);
}

#[test]
fn process_times_are_read() {
    let stat = "77 (a (b) c) S 1 77 77 0 -1 4194560 100 0 0 0 123 45 6 7 20 0 9 0 1000 1 2";
    assert_eq!(cpu_ms(stat), 1680);
    // More than 32 bits, and more than the sum can hold.
    let fields = |u: &str, s: &str| format!("7 (x) S 1 2 3 4 5 6 7 8 9 10 {} {} 0", u, s);
    assert_eq!(cpu_ms(&fields("4294967296", "4")), 42_949_673_000);
    assert_eq!(cpu_ms(&fields("18446744073709551615", "1")), u64::MAX);
    assert_eq!(cpu_ms(""), 0);
    assert_eq!(cpu_ms("77 (x) S 1"), 0);
}

#[test]
fn process_memory_is_read() {
    let status = "Name:\tllm-api\nVmHWM:\t    9000 kB\nVmRSS:\t    8192 kB\nThreads:\t9\n";
    assert_eq!(rss_bytes(status), 8192 * 1024);
    assert_eq!(rss_bytes("Name:\tx\n"), 0);
    assert_eq!(rss_bytes("VmRSS:\tmuch"), 0);
}
