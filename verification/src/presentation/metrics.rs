//! Prometheus metrics endpoint.
//!
//! Counts requests, token usage and generation time, and renders them, with the
//! CPU time and the memory of the process, in the Prometheus text exposition
//! format.

use vstd::prelude::*;

use crate::config::{MODEL_ID, VERSION};
use crate::number::{decimal, to_decimal};

verus! {

/// The content type of the metrics.
pub const METRICS_CONTENT_TYPE: &'static str = "text/plain; version=0.0.4; charset=utf-8";

// ---------------------------------------------------------------------------
// Counters
// ---------------------------------------------------------------------------

/// The counters of the server. They wrap around at 2^64.
#[derive(Debug, Clone, Copy, PartialEq, Eq, Structural)]
pub struct Metrics {
    /// Total /v1/chat/completions requests received.
    pub requests_total: u64,
    /// Requests that ended in an error (any 4xx/5xx).
    pub errors_total: u64,
    /// Requests that streamed (`stream: true`).
    pub streaming_total: u64,
    /// Prompt tokens accepted across all requests.
    pub prompt_tokens_total: u64,
    /// Completion tokens generated across all requests.
    pub completion_tokens_total: u64,
    /// Generation time spent across all requests, in milliseconds.
    pub generation_ms_total: u64,
    /// Requests whose generation was aborted early (client disconnect).
    pub aborted_total: u64,
}

/// A counter after `n` more.
pub open spec fn counted(counter: u64, n: int) -> u64 {
    ((counter + n) % 0x1_0000_0000_0000_0000) as u64
}

fn count_up(counter: u64, n: u64) -> (r: u64)
    ensures
        r == counted(counter, n as int),
{
    counter.wrapping_add(n)
}

impl Metrics {
    /// Counters that have counted nothing.
    pub fn new() -> (m: Self)
        ensures
            m == (Metrics {
                requests_total: 0,
                errors_total: 0,
                streaming_total: 0,
                prompt_tokens_total: 0,
                completion_tokens_total: 0,
                generation_ms_total: 0,
                aborted_total: 0,
            }),
    {
        Metrics {
            requests_total: 0,
            errors_total: 0,
            streaming_total: 0,
            prompt_tokens_total: 0,
            completion_tokens_total: 0,
            generation_ms_total: 0,
            aborted_total: 0,
        }
    }

    /// The counters after a request.
    pub open spec fn after_request(self, streaming: bool) -> Metrics {
        Metrics {
            requests_total: counted(self.requests_total, 1),
            streaming_total: if streaming {
                counted(self.streaming_total, 1)
            } else {
                self.streaming_total
            },
            ..self
        }
    }

    /// The counters after an error.
    pub open spec fn after_error(self) -> Metrics {
        Metrics { errors_total: counted(self.errors_total, 1), ..self }
    }

    /// The counters after a request that was answered with an error or not.
    pub open spec fn after_answer(self, failed: bool) -> Metrics {
        if failed {
            self.after_error()
        } else {
            self
        }
    }

    /// The counters after an aborted generation.
    pub open spec fn after_abort(self) -> Metrics {
        Metrics { aborted_total: counted(self.aborted_total, 1), ..self }
    }

    /// The counters after a generation.
    pub open spec fn after_tokens(self, prompt_tokens: u32, completion_tokens: u32, duration_ms: u64) -> Metrics {
        Metrics {
            prompt_tokens_total: counted(self.prompt_tokens_total, prompt_tokens as int),
            completion_tokens_total: counted(
                self.completion_tokens_total,
                completion_tokens as int,
            ),
            generation_ms_total: counted(self.generation_ms_total, duration_ms as int),
            ..self
        }
    }
}

/// Counts a request.
pub fn count_request(metrics: &mut Metrics, streaming: bool)
    ensures
        *final(metrics) == old(metrics).after_request(streaming),
{
    metrics.requests_total = count_up(metrics.requests_total, 1);
    if streaming {
        metrics.streaming_total = count_up(metrics.streaming_total, 1);
    }
}

/// Counts an error.
pub fn count_error(metrics: &mut Metrics)
    ensures
        *final(metrics) == old(metrics).after_error(),
{
    metrics.errors_total = count_up(metrics.errors_total, 1);
}

/// Counts an aborted generation.
pub fn count_aborted(metrics: &mut Metrics)
    ensures
        *final(metrics) == old(metrics).after_abort(),
{
    metrics.aborted_total = count_up(metrics.aborted_total, 1);
}

/// Counts the tokens and the time of a generation.
pub fn record_tokens(
    metrics: &mut Metrics,
    prompt_tokens: u32,
    completion_tokens: u32,
    duration_ms: u64,
)
    ensures
        *final(metrics) == old(metrics).after_tokens(prompt_tokens, completion_tokens, duration_ms),
{
    metrics.prompt_tokens_total = count_up(metrics.prompt_tokens_total, prompt_tokens as u64);
    metrics.completion_tokens_total =
    count_up(metrics.completion_tokens_total, completion_tokens as u64);
    metrics.generation_ms_total = count_up(metrics.generation_ms_total, duration_ms);
}

/// The requests, the completion tokens and the generation time so far.
pub fn snapshot(metrics: &Metrics) -> (r: (u64, u64, u64))
    ensures
        r == (
            metrics.requests_total,
            metrics.completion_tokens_total,
            metrics.generation_ms_total,
        ),
{
    (metrics.requests_total, metrics.completion_tokens_total, metrics.generation_ms_total)
}

/// There are never more streaming requests than requests: each request keeps
/// it so, until a counter wraps around.
pub proof fn law_streaming_within_requests(m: Metrics, streaming: bool)
    requires
        m.streaming_total <= m.requests_total < u64::MAX,
    ensures
        m.after_request(streaming).streaming_total <= m.after_request(streaming).requests_total,
        m.after_request(streaming).requests_total == m.requests_total + 1,
{
}

/// There are never more errors than requests, where each request is counted
/// when it comes and counts at most one error.
pub proof fn law_errors_within_requests(m: Metrics, streaming: bool, failed: bool)
    requires
        m.errors_total <= m.requests_total < u64::MAX,
    ensures
        m.after_request(streaming).after_answer(failed).errors_total <= m.after_request(
            streaming,
        ).after_answer(failed).requests_total,
{
}

/// What is counted does not depend on the order in which it happened.
pub proof fn law_order_does_not_matter(
    m: Metrics,
    streaming: bool,
    prompt_tokens: u32,
    completion_tokens: u32,
    duration_ms: u64,
)
    ensures
        m.after_request(streaming).after_error() == m.after_error().after_request(streaming),
        m.after_request(streaming).after_abort() == m.after_abort().after_request(streaming),
        m.after_request(streaming).after_tokens(prompt_tokens, completion_tokens, duration_ms)
            == m.after_tokens(prompt_tokens, completion_tokens, duration_ms).after_request(
            streaming,
        ),
        m.after_error().after_abort() == m.after_abort().after_error(),
{
}

// ---------------------------------------------------------------------------
// Exposition
// ---------------------------------------------------------------------------

/// A quotient, kept as its two parts.
#[derive(Debug, Clone, Copy, PartialEq, Eq, Structural)]
pub struct Quotient {
    pub dividend: u64,
    pub divisor: u64,
}

/// The rates over the lifetime of the process; `None` stands for zero.
#[derive(Debug, Clone, Copy, PartialEq, Eq, Structural)]
pub struct Rates {
    /// Requests and seconds.
    pub requests: Option<Quotient>,
    /// Completion tokens and milliseconds of generation.
    pub tokens: Option<Quotient>,
    /// Milliseconds of generation and requests.
    pub generation: Option<Quotient>,
}

/// A quotient, or nothing where the divisor is zero.
pub open spec fn quotient(dividend: u64, divisor: u64) -> Option<Quotient> {
    if divisor > 0 {
        Some(Quotient { dividend, divisor })
    } else {
        None
    }
}

fn divide(dividend: u64, divisor: u64) -> (r: Option<Quotient>)
    ensures
        r == quotient(dividend, divisor),
{
    if divisor > 0 {
        Some(Quotient { dividend, divisor })
    } else {
        None
    }
}

/// The rates over the lifetime of the process.
pub fn lifetime_rates(metrics: &Metrics, uptime: u64) -> (r: Rates)
    ensures
        r.requests == quotient(metrics.requests_total, uptime),
        r.tokens == quotient(metrics.completion_tokens_total, metrics.generation_ms_total),
        r.generation == quotient(metrics.generation_ms_total, metrics.requests_total),
{
    Rates {
        requests: divide(metrics.requests_total, uptime),
        tokens: divide(metrics.completion_tokens_total, metrics.generation_ms_total),
        generation: divide(metrics.generation_ms_total, metrics.requests_total),
    }
}

/// One metric: what it is, of which type, and its value.
pub open spec fn metric_text(
    name: Seq<char>,
    help: Seq<char>,
    kind: Seq<char>,
    value: Seq<char>,
) -> Seq<char> {
    "# HELP "@ + name + " "@ + help + "\n# TYPE "@ + name + " "@ + kind + "\n"@ + name + " "@
        + value + "\n"@
}

/// The identity of the server.
pub open spec fn build_info() -> Seq<char> {
    "# HELP llm_api_build_info Build information.\n# TYPE llm_api_build_info gauge\nllm_api_build_info{version=\""@
        + VERSION@ + "\",model=\""@ + MODEL_ID@ + "\"} 1\n"@
}

/// The counters.
pub open spec fn counters_text(m: Metrics) -> Seq<char> {
    metric_text(
        "llm_api_requests_total"@,
        "Total /v1/chat/completions requests received."@,
        "counter"@,
        decimal(m.requests_total as nat),
    ) + metric_text(
        "llm_api_errors_total"@,
        "Requests that ended in an error."@,
        "counter"@,
        decimal(m.errors_total as nat),
    ) + metric_text(
        "llm_api_streaming_requests_total"@,
        "Requests that streamed."@,
        "counter"@,
        decimal(m.streaming_total as nat),
    ) + metric_text(
        "llm_api_aborted_requests_total"@,
        "Generations aborted early (client disconnect)."@,
        "counter"@,
        decimal(m.aborted_total as nat),
    ) + metric_text(
        "llm_api_prompt_tokens_total"@,
        "Prompt tokens accepted."@,
        "counter"@,
        decimal(m.prompt_tokens_total as nat),
    ) + metric_text(
        "llm_api_completion_tokens_total"@,
        "Completion tokens generated."@,
        "counter"@,
        decimal(m.completion_tokens_total as nat),
    ) + metric_text(
        "llm_api_generation_ms_total"@,
        "Generation time in milliseconds."@,
        "counter"@,
        decimal(m.generation_ms_total as nat),
    )
}

/// The gauges: the three rates as they were written, the uptime and the start
/// time.
pub open spec fn gauges_text(
    requests: Seq<char>,
    tokens: Seq<char>,
    generation: Seq<char>,
    uptime: u64,
    start_time: u64,
) -> Seq<char> {
    metric_text(
        "llm_api_requests_per_second"@,
        "Lifetime request rate."@,
        "gauge"@,
        requests,
    ) + metric_text(
        "llm_api_tokens_per_second"@,
        "Lifetime generation throughput."@,
        "gauge"@,
        tokens,
    ) + metric_text(
        "llm_api_average_generation_ms"@,
        "Average generation duration per request."@,
        "gauge"@,
        generation,
    ) + metric_text(
        "llm_api_uptime_seconds"@,
        "Server process uptime."@,
        "gauge"@,
        decimal(uptime as nat),
    ) + metric_text(
        "llm_api_start_time_seconds"@,
        "Process start time (unix)."@,
        "gauge"@,
        decimal(start_time as nat),
    )
}

/// What the process uses: its CPU time and its resident set size.
pub open spec fn process_text(cpu_ms: u64, rss_bytes: u64) -> Seq<char> {
    metric_text(
        "llm_api_cpu_ms_total"@,
        "CPU time of the process in milliseconds."@,
        "counter"@,
        decimal(cpu_ms as nat),
    ) + metric_text(
        "llm_api_resident_memory_bytes"@,
        "Resident set size of the process."@,
        "gauge"@,
        decimal(rss_bytes as nat),
    )
}

fn write_metric(body: &mut String, name: &str, help: &str, kind: &str, value: &str)
    ensures
        final(body)@ == old(body)@ + metric_text(name@, help@, kind@, value@),
{
    body.append("# HELP ");
    body.append(name);
    body.append(" ");
    body.append(help);
    body.append("\n# TYPE ");
    body.append(name);
    body.append(" ");
    body.append(kind);
    body.append("\n");
    body.append(name);
    body.append(" ");
    body.append(value);
    body.append("\n");
    assert(body@ =~= old(body)@ + metric_text(name@, help@, kind@, value@));
}

fn write_counter(body: &mut String, name: &str, help: &str, value: u64)
    ensures
        final(body)@ == old(body)@ + metric_text(name@, help@, "counter"@, decimal(value as nat)),
{
    write_metric(body, name, help, "counter", to_decimal(value).as_str());
}

fn write_counters(body: &mut String, m: &Metrics)
    ensures
        final(body)@ == old(body)@ + counters_text(*m),
{
    write_counter(
        body,
        "llm_api_requests_total",
        "Total /v1/chat/completions requests received.",
        m.requests_total,
    );
    write_counter(
        body,
        "llm_api_errors_total",
        "Requests that ended in an error.",
        m.errors_total,
    );
    write_counter(
        body,
        "llm_api_streaming_requests_total",
        "Requests that streamed.",
        m.streaming_total,
    );
    write_counter(
        body,
        "llm_api_aborted_requests_total",
        "Generations aborted early (client disconnect).",
        m.aborted_total,
    );
    write_counter(
        body,
        "llm_api_prompt_tokens_total",
        "Prompt tokens accepted.",
        m.prompt_tokens_total,
    );
    write_counter(
        body,
        "llm_api_completion_tokens_total",
        "Completion tokens generated.",
        m.completion_tokens_total,
    );
    write_counter(
        body,
        "llm_api_generation_ms_total",
        "Generation time in milliseconds.",
        m.generation_ms_total,
    );
    assert(body@ =~= old(body)@ + counters_text(*m));
}

fn write_gauges(
    body: &mut String,
    requests: &str,
    tokens: &str,
    generation: &str,
    uptime: u64,
    start_time: u64,
)
    ensures
        final(body)@ == old(body)@ + gauges_text(
            requests@,
            tokens@,
            generation@,
            uptime,
            start_time,
        ),
{
    write_metric(
        body,
        "llm_api_requests_per_second",
        "Lifetime request rate.",
        "gauge",
        requests,
    );
    write_metric(
        body,
        "llm_api_tokens_per_second",
        "Lifetime generation throughput.",
        "gauge",
        tokens,
    );
    write_metric(
        body,
        "llm_api_average_generation_ms",
        "Average generation duration per request.",
        "gauge",
        generation,
    );
    write_metric(
        body,
        "llm_api_uptime_seconds",
        "Server process uptime.",
        "gauge",
        to_decimal(uptime).as_str(),
    );
    write_metric(
        body,
        "llm_api_start_time_seconds",
        "Process start time (unix).",
        "gauge",
        to_decimal(start_time).as_str(),
    );
    assert(body@ =~= old(body)@ + gauges_text(
        requests@,
        tokens@,
        generation@,
        uptime,
        start_time,
    ));
}

fn write_process(body: &mut String, cpu_ms: u64, rss_bytes: u64)
    ensures
        final(body)@ == old(body)@ + process_text(cpu_ms, rss_bytes),
{
    write_counter(
        body,
        "llm_api_cpu_ms_total",
        "CPU time of the process in milliseconds.",
        cpu_ms,
    );
    write_metric(
        body,
        "llm_api_resident_memory_bytes",
        "Resident set size of the process.",
        "gauge",
        to_decimal(rss_bytes).as_str(),
    );
    assert(body@ =~= old(body)@ + process_text(cpu_ms, rss_bytes));
}

/// GET /metrics — Prometheus text exposition format.
///
/// `requests`, `tokens` and `generation` are the [`lifetime_rates`] as they
/// are to be shown; `cpu_ms` and `rss_bytes` are what the process uses.
pub fn metrics(
    m: &Metrics,
    uptime: u64,
    start_time: u64,
    requests: &str,
    tokens: &str,
    generation: &str,
    cpu_ms: u64,
    rss_bytes: u64,
) -> (body: String)
    ensures
        body@ == counters_text(*m) + gauges_text(
            requests@,
            tokens@,
            generation@,
            uptime,
            start_time,
        ) + process_text(cpu_ms, rss_bytes) + build_info(),
{
    let mut body = String::new();
    write_counters(&mut body, m);
    write_gauges(&mut body, requests, tokens, generation, uptime, start_time);
    write_process(&mut body, cpu_ms, rss_bytes);
    body.append(
        "# HELP llm_api_build_info Build information.\n# TYPE llm_api_build_info gauge\nllm_api_build_info{version=\"",
    );
    body.append(VERSION);
    body.append("\",model=\"");
    body.append(MODEL_ID);
    body.append("\"} 1\n");
    assert(body@ =~= counters_text(*m) + gauges_text(
        requests@,
        tokens@,
        generation@,
        uptime,
        start_time,
    ) + process_text(cpu_ms, rss_bytes) + build_info());
    body
}

/// A rate has both its parts, unless it would be divided by zero.
pub proof fn law_rate_is_a_quotient(dividend: u64, divisor: u64)
    ensures
        quotient(dividend, divisor) is None <==> divisor == 0,
        quotient(dividend, divisor) matches Some(q) ==> q.dividend == dividend && q.divisor
            == divisor,
{
}

} // verus!
