//! What the metrics say: each name stands for its own counter or gauge.

use vstd::prelude::*;

use super::metrics::{
    build_info, counters_text, gauges_text, metric_text, process_text, Metrics,
    METRICS_CONTENT_TYPE,
};
use crate::application::chat::round_trip::lemma_lines_first;
use crate::number::{decimal, lemma_decimal_value};
use crate::text::{is_space, is_trimmed, lines, starts_with};

verus! {

// ---------------------------------------------------------------------------
// Reading the exposition
// ---------------------------------------------------------------------------

/// What follows the name, and a space, on the first of the lines that begins
/// with them.
pub open spec fn sample_in(ls: Seq<Seq<char>>, name: Seq<char>) -> Option<Seq<char>>
    decreases ls.len(),
{
    if ls.len() == 0 {
        None
    } else if starts_with(ls[0], name + seq![' ']) {
        Some(ls[0].skip(name.len() as int + 1))
    } else {
        sample_in(ls.skip(1), name)
    }
}

/// The value that a reader of the text finds under a name.
pub open spec fn sample(body: Seq<char>, name: Seq<char>) -> Option<Seq<char>> {
    sample_in(lines(body), name)
}

/// What is shown beside the counters: the three rates as they were written,
/// times in seconds, and what the process uses.
pub struct Gauges {
    pub requests: Seq<char>,
    pub tokens: Seq<char>,
    pub generation: Seq<char>,
    pub uptime: u64,
    pub start_time: u64,
    pub cpu_ms: u64,
    pub rss_bytes: u64,
}

/// `body` is the text of the metrics.
#[verifier::opaque]
pub open spec fn shows(body: Seq<char>, m: Metrics, g: Gauges) -> bool {
    body == counters_text(m) + gauges_text(
        g.requests,
        g.tokens,
        g.generation,
        g.uptime,
        g.start_time,
    ) + process_text(g.cpu_ms, g.rss_bytes) + build_info()
}

/// A text fits on a line and ends it.
pub open spec fn ends_line(s: Seq<char>) -> bool {
    s.len() > 0 && !is_space(s.last()) && !s.contains('\n')
}

/// The rates fit on their lines.
pub open spec fn on_lines(g: Gauges) -> bool {
    ends_line(g.requests) && ends_line(g.tokens) && ends_line(g.generation)
}

// ---------------------------------------------------------------------------
// The metrics one by one
// ---------------------------------------------------------------------------

/// One metric.
struct Exposed {
    name: Seq<char>,
    help: Seq<char>,
    kind: Seq<char>,
    value: Seq<char>,
}

#[verifier::opaque]
spec fn exposed(m: Metrics, g: Gauges) -> Seq<Exposed> {
    seq![
        Exposed {
            name: "llm_api_requests_total"@,
            help: "Total /v1/chat/completions requests received."@,
            kind: "counter"@,
            value: decimal(m.requests_total as nat),
        },
        Exposed {
            name: "llm_api_errors_total"@,
            help: "Requests that ended in an error."@,
            kind: "counter"@,
            value: decimal(m.errors_total as nat),
        },
        Exposed {
            name: "llm_api_streaming_requests_total"@,
            help: "Requests that streamed."@,
            kind: "counter"@,
            value: decimal(m.streaming_total as nat),
        },
        Exposed {
            name: "llm_api_aborted_requests_total"@,
            help: "Generations aborted early (client disconnect)."@,
            kind: "counter"@,
            value: decimal(m.aborted_total as nat),
        },
        Exposed {
            name: "llm_api_prompt_tokens_total"@,
            help: "Prompt tokens accepted."@,
            kind: "counter"@,
            value: decimal(m.prompt_tokens_total as nat),
        },
        Exposed {
            name: "llm_api_completion_tokens_total"@,
            help: "Completion tokens generated."@,
            kind: "counter"@,
            value: decimal(m.completion_tokens_total as nat),
        },
        Exposed {
            name: "llm_api_generation_ms_total"@,
            help: "Generation time in milliseconds."@,
            kind: "counter"@,
            value: decimal(m.generation_ms_total as nat),
        },
        Exposed {
            name: "llm_api_requests_per_second"@,
            help: "Lifetime request rate."@,
            kind: "gauge"@,
            value: g.requests,
        },
        Exposed {
            name: "llm_api_tokens_per_second"@,
            help: "Lifetime generation throughput."@,
            kind: "gauge"@,
            value: g.tokens,
        },
        Exposed {
            name: "llm_api_average_generation_ms"@,
            help: "Average generation duration per request."@,
            kind: "gauge"@,
            value: g.generation,
        },
        Exposed {
            name: "llm_api_uptime_seconds"@,
            help: "Server process uptime."@,
            kind: "gauge"@,
            value: decimal(g.uptime as nat),
        },
        Exposed {
            name: "llm_api_start_time_seconds"@,
            help: "Process start time (unix)."@,
            kind: "gauge"@,
            value: decimal(g.start_time as nat),
        },
        Exposed {
            name: "llm_api_cpu_ms_total"@,
            help: "CPU time of the process in milliseconds."@,
            kind: "counter"@,
            value: decimal(g.cpu_ms as nat),
        },
        Exposed {
            name: "llm_api_resident_memory_bytes"@,
            help: "Resident set size of the process."@,
            kind: "gauge"@,
            value: decimal(g.rss_bytes as nat),
        },
    ]
}

spec fn all_text(es: Seq<Exposed>) -> Seq<char>
    decreases es.len(),
{
    if es.len() == 0 {
        Seq::empty()
    } else {
        metric_text(es[0].name, es[0].help, es[0].kind, es[0].value) + all_text(es.skip(1))
    }
}

spec fn help_line(e: Exposed) -> Seq<char> {
    "# HELP "@ + e.name + " "@ + e.help
}

spec fn type_line(e: Exposed) -> Seq<char> {
    "# TYPE "@ + e.name + " "@ + e.kind
}

spec fn value_line(e: Exposed) -> Seq<char> {
    e.name + " "@ + e.value
}

spec fn all_lines(es: Seq<Exposed>) -> Seq<Seq<char>>
    decreases es.len(),
{
    if es.len() == 0 {
        Seq::empty()
    } else {
        seq![help_line(es[0]), type_line(es[0]), value_line(es[0])] + all_lines(es.skip(1))
    }
}

spec fn is_name(name: Seq<char>) -> bool {
    &&& name.len() > 0
    &&& name[0] == 'l'
    &&& !name.contains(' ')
    &&& !name.contains('\n')
}

spec fn is_clean(e: Exposed) -> bool {
    is_name(e.name) && ends_line(e.help) && ends_line(e.kind) && ends_line(e.value)
}

proof fn lemma_no_break(a: Seq<char>, b: Seq<char>)
    requires
        !a.contains('\n'),
        !b.contains('\n'),
    ensures
        !(a + b).contains('\n'),
{
    if (a + b).contains('\n') {
        let i = (a + b).index_of('\n');
        if i < a.len() {
            assert(a[i] == '\n');
        } else {
            assert(b[i - a.len()] == '\n');
        }
    }
}

proof fn lemma_clean_lines(e: Exposed)
    requires
        is_clean(e),
    ensures
        is_trimmed(help_line(e)),
        is_trimmed(type_line(e)),
        is_trimmed(value_line(e)),
        !help_line(e).contains('\n'),
        !type_line(e).contains('\n'),
        !value_line(e).contains('\n'),
{
    reveal_strlit("# HELP ");
    reveal_strlit("# TYPE ");
    reveal_strlit(" ");
    assert(!"# HELP "@.contains('\n'));
    assert(!"# TYPE "@.contains('\n'));
    assert(!" "@.contains('\n'));
    lemma_no_break("# HELP "@, e.name);
    lemma_no_break("# HELP "@ + e.name, " "@);
    lemma_no_break("# HELP "@ + e.name + " "@, e.help);
    lemma_no_break("# TYPE "@, e.name);
    lemma_no_break("# TYPE "@ + e.name, " "@);
    lemma_no_break("# TYPE "@ + e.name + " "@, e.kind);
    lemma_no_break(e.name, " "@);
    lemma_no_break(e.name + " "@, e.value);
    assert(!is_space('#') && !is_space('l'));
    assert(help_line(e)[0] == '#');
    assert(type_line(e)[0] == '#');
    assert(value_line(e)[0] == 'l');
    assert(help_line(e).last() == e.help.last());
    assert(type_line(e).last() == e.kind.last());
    assert(value_line(e).last() == e.value.last());
}

proof fn lemma_all_lines(es: Seq<Exposed>, tail: Seq<char>)
    requires
        forall|i: int| 0 <= i < es.len() ==> is_clean(#[trigger] es[i]),
    ensures
        lines(all_text(es) + tail) == all_lines(es) + lines(tail),
    decreases es.len(),
{
    if es.len() == 0 {
        assert(all_text(es) + tail =~= tail);
        assert(all_lines(es) + lines(tail) =~= lines(tail));
    } else {
        let e = es[0];
        let rest = all_text(es.skip(1)) + tail;
        lemma_clean_lines(e);
        reveal_strlit("\n# TYPE ");
        reveal_strlit("# TYPE ");
        reveal_strlit("\n");
        assert("\n# TYPE "@ =~= seq!['\n'] + "# TYPE "@);
        assert("\n"@ =~= seq!['\n']);
        let third = value_line(e).push('\n') + rest;
        let second = type_line(e).push('\n') + third;
        let first = help_line(e).push('\n') + second;
        assert(all_text(es) + tail =~= first);
        lemma_lines_first(help_line(e), second);
        lemma_lines_first(type_line(e), third);
        lemma_lines_first(value_line(e), rest);
        assert forall|i: int| 0 <= i < es.skip(1).len() implies is_clean(
            #[trigger] es.skip(1)[i],
        ) by {
            assert(es.skip(1)[i] == es[i + 1]);
        }
        lemma_all_lines(es.skip(1), tail);
        assert(lines(all_text(es) + tail) =~= all_lines(es) + lines(tail));
    }
}

/// A line of one name does not begin with another.
proof fn lemma_other_name(a: Seq<char>, value: Seq<char>, b: Seq<char>)
    requires
        !a.contains(' '),
        !b.contains(' '),
        a != b,
    ensures
        !starts_with(a + " "@ + value, b + seq![' ']),
{
    reveal_strlit(" ");
    let line = a + " "@ + value;
    let start = b + seq![' '];
    if starts_with(line, start) {
        let part = line.subrange(0, start.len() as int);
        assert(part == start);
        assert(part[b.len() as int] == ' ');
        if a.len() == b.len() {
            assert(a =~= b) by {
                assert forall|i: int| 0 <= i < a.len() implies a[i] == b[i] by {
                    assert(part[i] == start[i]);
                }
            }
        } else if a.len() < b.len() {
            assert(part[a.len() as int] == ' ');
            assert(b[a.len() as int] == ' ');
        } else {
            assert(a[b.len() as int] == ' ');
        }
    }
}

/// A comment on one name does not begin as a comment on another.
proof fn lemma_other_comment(mark: Seq<char>, a: Seq<char>, value: Seq<char>, b: Seq<char>)
    requires
        !a.contains(' '),
        !b.contains(' '),
        a != b,
    ensures
        !starts_with(mark + a + " "@ + value, mark + b + seq![' ']),
{
    let line = mark + a + " "@ + value;
    let plain = a + " "@ + value;
    let start = mark + b + seq![' '];
    let m: int = mark.len() as int;
    lemma_other_name(a, value, b);
    if starts_with(line, start) {
        assert(line =~= mark + plain);
        assert(line.subrange(0, start.len() as int) == start);
        let n: int = b.len() as int + 1;
        assert(plain.subrange(0, n) =~= b + seq![' ']) by {
            assert forall|i: int| 0 <= i < n implies plain.subrange(0, n)[i] == (b + seq![' '])[i] by {
                assert(line.subrange(0, start.len() as int)[i + m] == start[i + m]);
            }
        }
    }
}

proof fn lemma_hash_line(line: Seq<char>, name: Seq<char>)
    requires
        line.len() > 0,
        line[0] == '#',
        is_name(name),
    ensures
        !starts_with(line, name + seq![' ']),
{
    let start = name + seq![' '];
    if starts_with(line, start) {
        assert(line.subrange(0, start.len() as int)[0] == start[0]);
    }
}

/// The value of a metric is found under its name, and its type under `# TYPE`
/// and its name.
proof fn lemma_found(es: Seq<Exposed>, tail: Seq<Seq<char>>, k: int)
    requires
        0 <= k < es.len(),
        forall|i: int| 0 <= i < es.len() ==> is_clean(#[trigger] es[i]),
        forall|i: int| 0 <= i < k ==> (#[trigger] es[i]).name != es[k].name,
    ensures
        sample_in(all_lines(es) + tail, es[k].name) == Some(es[k].value),
        sample_in(all_lines(es) + tail, "# TYPE "@ + es[k].name) == Some(es[k].kind),
        sample_in(all_lines(es) + tail, "# HELP "@ + es[k].name) == Some(es[k].help),
    decreases k,
{
    reveal_strlit(" ");
    reveal_strlit("# HELP ");
    reveal_strlit("# TYPE ");
    let e = es[0];
    let name = es[k].name;
    let named = "# TYPE "@ + name;
    let explained = "# HELP "@ + name;
    let more = all_lines(es.skip(1)) + tail;
    let ls = all_lines(es) + tail;
    assert(ls[0] == help_line(e) && ls[1] == type_line(e) && ls[2] == value_line(e));
    assert(ls.skip(1).skip(1).skip(1) =~= more);
    assert(ls.skip(1)[0] == type_line(e));
    assert(ls.skip(1).skip(1)[0] == value_line(e));
    lemma_hash_line(help_line(e), name);
    lemma_hash_line(type_line(e), name);
    assert(!starts_with(help_line(e), named + seq![' '])) by {
        let start = named + seq![' '];
        if starts_with(help_line(e), start) {
            assert(help_line(e).subrange(0, start.len() as int)[2] == start[2]);
        }
    }
    assert(!starts_with(value_line(e), named + seq![' '])) by {
        let start = named + seq![' '];
        if starts_with(value_line(e), start) {
            assert(value_line(e).subrange(0, start.len() as int)[0] == start[0]);
        }
    }
    assert(!starts_with(type_line(e), explained + seq![' '])) by {
        let start = explained + seq![' '];
        if starts_with(type_line(e), start) {
            assert(type_line(e).subrange(0, start.len() as int)[2] == start[2]);
        }
    }
    assert(!starts_with(value_line(e), explained + seq![' '])) by {
        let start = explained + seq![' '];
        if starts_with(value_line(e), start) {
            assert(value_line(e).subrange(0, start.len() as int)[0] == start[0]);
        }
    }
    if k == 0 {
        assert(help_line(e).subrange(0, explained.len() as int + 1) =~= explained + seq![' ']);
        assert(help_line(e).skip(explained.len() as int + 1) =~= e.help);
        assert(value_line(e).subrange(0, name.len() as int + 1) =~= name + seq![' ']);
        assert(value_line(e).skip(name.len() as int + 1) =~= e.value);
        assert(type_line(e).subrange(0, named.len() as int + 1) =~= named + seq![' ']);
        assert(type_line(e).skip(named.len() as int + 1) =~= e.kind);
        assert(sample_in(ls.skip(1).skip(1), name) == Some(e.value));
        assert(sample_in(ls.skip(1), name) == Some(e.value));
        assert(sample_in(ls.skip(1), named) == Some(e.kind));
    } else {
        let rest = es.skip(1);
        assert(rest[k - 1] == es[k]);
        lemma_other_name(e.name, e.value, name);
        lemma_other_comment("# TYPE "@, e.name, e.kind, name);
        lemma_other_comment("# HELP "@, e.name, e.help, name);
        assert forall|i: int| 0 <= i < rest.len() implies is_clean(#[trigger] rest[i]) by {
            assert(rest[i] == es[i + 1]);
        }
        assert forall|i: int| 0 <= i < k - 1 implies (#[trigger] rest[i]).name != rest[k - 1].name by {
            assert(rest[i] == es[i + 1]);
        }
        lemma_found(rest, tail, k - 1);
        assert(sample_in(ls.skip(1).skip(1), name) == sample_in(more, name));
        assert(sample_in(ls.skip(1), name) == sample_in(more, name));
        assert(sample_in(ls.skip(1).skip(1), named) == sample_in(more, named));
        assert(sample_in(ls.skip(1), named) == sample_in(more, named));
        assert(sample_in(ls.skip(1).skip(1), explained) == sample_in(more, explained));
        assert(sample_in(ls.skip(1), explained) == sample_in(more, explained));
    }
}

proof fn lemma_decimal_ends_line(n: nat)
    ensures
        ends_line(decimal(n)),
{
    lemma_decimal_value(n);
}

/// Texts one after the other.
spec fn chained(t: Seq<Seq<char>>) -> Seq<char>
    decreases t.len(),
{
    if t.len() == 0 {
        Seq::empty()
    } else {
        t[0] + chained(t.skip(1))
    }
}

proof fn lemma_chained_add(a: Seq<Seq<char>>, b: Seq<Seq<char>>)
    ensures
        chained(a + b) == chained(a) + chained(b),
    decreases a.len(),
{
    if a.len() == 0 {
        assert(a + b =~= b);
        assert(chained(a) + chained(b) =~= chained(b));
    } else {
        assert((a + b).skip(1) =~= a.skip(1) + b);
        lemma_chained_add(a.skip(1), b);
        assert(chained(a + b) =~= chained(a) + chained(b));
    }
}

proof fn lemma_chained_push(t: Seq<Seq<char>>, x: Seq<char>)
    ensures
        chained(t.push(x)) == chained(t) + x,
{
    let one = seq![x];
    assert(t.push(x) =~= t + one);
    lemma_chained_add(t, one);
    assert(one.skip(1) =~= Seq::<Seq<char>>::empty());
    assert(chained(one.skip(1)) == Seq::<char>::empty());
    assert(chained(one) =~= x);
}

proof fn lemma_chained_few(t: Seq<Seq<char>>)
    ensures
        t.len() == 2 ==> chained(t) == t[0] + t[1],
        t.len() == 5 ==> chained(t) == t[0] + t[1] + t[2] + t[3] + t[4],
        t.len() == 7 ==> chained(t) == t[0] + t[1] + t[2] + t[3] + t[4] + t[5] + t[6],
    decreases t.len(),
{
    let none = Seq::<Seq<char>>::empty();
    if t.len() == 2 || t.len() == 5 || t.len() == 7 {
        assert(t.take(0) =~= none);
        assert(chained(none) == Seq::<char>::empty());
        let n: int = t.len() as int;
        assert forall|i: int| 0 <= i < n implies chained(#[trigger] t.take(i).push(t[i])) == chained(
            t.take(i),
        ) + t[i] by {
            lemma_chained_push(t.take(i), t[i]);
        }
        assert forall|i: int| 0 <= i < n implies #[trigger] t.take(i).push(t[i]) == t.take(
            i + 1,
        ) by {
            assert(t.take(i).push(t[i]) =~= t.take(i + 1));
        }
        assert(t.take(n) =~= t);
        assert(Seq::<char>::empty() + t[0] =~= t[0]);
        assert(t.take(0).push(t[0]) == t.take(1));
        assert(t.take(1).push(t[1]) == t.take(2));
        if n > 2 {
            assert(t.take(2).push(t[2]) == t.take(3));
            assert(t.take(3).push(t[3]) == t.take(4));
            assert(t.take(4).push(t[4]) == t.take(5));
        }
        if n > 5 {
            assert(t.take(5).push(t[5]) == t.take(6));
            assert(t.take(6).push(t[6]) == t.take(7));
        }
    }
}

spec fn metric_of(e: Exposed) -> Seq<char> {
    metric_text(e.name, e.help, e.kind, e.value)
}

proof fn lemma_all_text(es: Seq<Exposed>)
    ensures
        all_text(es) == chained(es.map_values(|e: Exposed| metric_of(e))),
    decreases es.len(),
{
    if es.len() > 0 {
        lemma_all_text(es.skip(1));
        let t = es.map_values(|e: Exposed| metric_of(e));
        assert(t.skip(1) =~= es.skip(1).map_values(|e: Exposed| metric_of(e)));
    }
}

proof fn lemma_exposed_text(m: Metrics, g: Gauges)
    ensures
        counters_text(m) + gauges_text(
            g.requests,
            g.tokens,
            g.generation,
            g.uptime,
            g.start_time,
        ) + process_text(g.cpu_ms, g.rss_bytes) == all_text(exposed(m, g)),
{
    reveal(exposed);
    let es = exposed(m, g);
    let t = es.map_values(|e: Exposed| metric_of(e));
    lemma_all_text(es);
    let a = t.subrange(0, 7);
    let b = t.subrange(7, 12);
    let c = t.subrange(12, 14);
    lemma_chained_few(a);
    lemma_chained_few(b);
    lemma_chained_few(c);
    assert(a[0] == t[0] && a[1] == t[1] && a[2] == t[2] && a[3] == t[3] && a[4] == t[4] && a[5]
        == t[5] && a[6] == t[6]);
    assert(b[0] == t[7] && b[1] == t[8] && b[2] == t[9] && b[3] == t[10] && b[4] == t[11]);
    assert(c[0] == t[12] && c[1] == t[13]);
    lemma_chained_add(a, b);
    lemma_chained_add(a + b, c);
    assert(a + b + c =~= t);
}

proof fn lemma_exposed_clean(m: Metrics, g: Gauges)
    requires
        on_lines(g),
    ensures
        exposed(m, g).len() == 14,
        forall|i: int| 0 <= i < exposed(m, g).len() ==> is_clean(#[trigger] exposed(m, g)[i]),
        forall|i: int, j: int|
            0 <= i < j < exposed(m, g).len() ==> (#[trigger] exposed(m, g)[i]).name != (
            #[trigger] exposed(m, g)[j]).name,
{
    reveal(exposed);
    let es = exposed(m, g);
    assert(is_name("llm_api_requests_total"@)) by {
        reveal_strlit("llm_api_requests_total");
    }
    assert(ends_line("Total /v1/chat/completions requests received."@)) by {
        reveal_strlit("Total /v1/chat/completions requests received.");
    }
    lemma_decimal_ends_line(m.requests_total as nat);
    assert(is_name("llm_api_errors_total"@)) by {
        reveal_strlit("llm_api_errors_total");
    }
    assert(ends_line("Requests that ended in an error."@)) by {
        reveal_strlit("Requests that ended in an error.");
    }
    lemma_decimal_ends_line(m.errors_total as nat);
    assert(is_name("llm_api_streaming_requests_total"@)) by {
        reveal_strlit("llm_api_streaming_requests_total");
    }
    assert(ends_line("Requests that streamed."@)) by {
        reveal_strlit("Requests that streamed.");
    }
    lemma_decimal_ends_line(m.streaming_total as nat);
    assert(is_name("llm_api_aborted_requests_total"@)) by {
        reveal_strlit("llm_api_aborted_requests_total");
    }
    assert(ends_line("Generations aborted early (client disconnect)."@)) by {
        reveal_strlit("Generations aborted early (client disconnect).");
    }
    lemma_decimal_ends_line(m.aborted_total as nat);
    assert(is_name("llm_api_prompt_tokens_total"@)) by {
        reveal_strlit("llm_api_prompt_tokens_total");
    }
    assert(ends_line("Prompt tokens accepted."@)) by {
        reveal_strlit("Prompt tokens accepted.");
    }
    lemma_decimal_ends_line(m.prompt_tokens_total as nat);
    assert(is_name("llm_api_completion_tokens_total"@)) by {
        reveal_strlit("llm_api_completion_tokens_total");
    }
    assert(ends_line("Completion tokens generated."@)) by {
        reveal_strlit("Completion tokens generated.");
    }
    lemma_decimal_ends_line(m.completion_tokens_total as nat);
    assert(is_name("llm_api_generation_ms_total"@)) by {
        reveal_strlit("llm_api_generation_ms_total");
    }
    assert(ends_line("Generation time in milliseconds."@)) by {
        reveal_strlit("Generation time in milliseconds.");
    }
    lemma_decimal_ends_line(m.generation_ms_total as nat);
    assert(is_name("llm_api_requests_per_second"@)) by {
        reveal_strlit("llm_api_requests_per_second");
    }
    assert(ends_line("Lifetime request rate."@)) by {
        reveal_strlit("Lifetime request rate.");
    }
    assert(is_name("llm_api_tokens_per_second"@)) by {
        reveal_strlit("llm_api_tokens_per_second");
    }
    assert(ends_line("Lifetime generation throughput."@)) by {
        reveal_strlit("Lifetime generation throughput.");
    }
    assert(is_name("llm_api_average_generation_ms"@)) by {
        reveal_strlit("llm_api_average_generation_ms");
    }
    assert(ends_line("Average generation duration per request."@)) by {
        reveal_strlit("Average generation duration per request.");
    }
    assert(is_name("llm_api_uptime_seconds"@)) by {
        reveal_strlit("llm_api_uptime_seconds");
    }
    assert(ends_line("Server process uptime."@)) by {
        reveal_strlit("Server process uptime.");
    }
    lemma_decimal_ends_line(g.uptime as nat);
    assert(is_name("llm_api_start_time_seconds"@)) by {
        reveal_strlit("llm_api_start_time_seconds");
    }
    assert(ends_line("Process start time (unix)."@)) by {
        reveal_strlit("Process start time (unix).");
    }
    lemma_decimal_ends_line(g.start_time as nat);
    assert(is_name("llm_api_cpu_ms_total"@)) by {
        reveal_strlit("llm_api_cpu_ms_total");
    }
    assert(ends_line("CPU time of the process in milliseconds."@)) by {
        reveal_strlit("CPU time of the process in milliseconds.");
    }
    lemma_decimal_ends_line(g.cpu_ms as nat);
    assert(is_name("llm_api_resident_memory_bytes"@)) by {
        reveal_strlit("llm_api_resident_memory_bytes");
    }
    assert(ends_line("Resident set size of the process."@)) by {
        reveal_strlit("Resident set size of the process.");
    }
    lemma_decimal_ends_line(g.rss_bytes as nat);
    assert(ends_line("counter"@) && ends_line("gauge"@)) by {
        reveal_strlit("counter");
        reveal_strlit("gauge");
    }
    let size: Seq<nat> = seq![22, 20, 32, 30, 27, 31, 27, 27, 25, 29, 22, 26, 20, 29];
    let letter: Seq<char> = seq!['r', 'e', 's', 'a', 'p', 'c', 'g', 'r', 't', 'a', 'u', 's', 'c', 'r'];
    assert(forall|i: int|
        0 <= i < 14 ==> (#[trigger] es[i]).name.len() == size[i] && es[i].name[8] == letter[i]) by {
        reveal_strlit("llm_api_requests_total");
        reveal_strlit("llm_api_errors_total");
        reveal_strlit("llm_api_streaming_requests_total");
        reveal_strlit("llm_api_aborted_requests_total");
        reveal_strlit("llm_api_prompt_tokens_total");
        reveal_strlit("llm_api_completion_tokens_total");
        reveal_strlit("llm_api_generation_ms_total");
        reveal_strlit("llm_api_requests_per_second");
        reveal_strlit("llm_api_tokens_per_second");
        reveal_strlit("llm_api_average_generation_ms");
        reveal_strlit("llm_api_uptime_seconds");
        reveal_strlit("llm_api_start_time_seconds");
        reveal_strlit("llm_api_cpu_ms_total");
        reveal_strlit("llm_api_resident_memory_bytes");
    }
    assert(forall|i: int, j: int|
        0 <= i < j < 14 ==> size[i] != size[j] || letter[i] != letter[j]);
}

// ---------------------------------------------------------------------------
// The laws
// ---------------------------------------------------------------------------

proof fn lemma_body_lines(body: Seq<char>, m: Metrics, g: Gauges)
    requires
        shows(body, m, g),
        on_lines(g),
    ensures
        lines(body) == all_lines(exposed(m, g)) + lines(build_info()),
{
    lemma_exposed_clean(m, g);
    lemma_all_lines(exposed(m, g), build_info());
    assert(body == all_text(exposed(m, g)) + build_info()) by {
        reveal(shows);
        lemma_exposed_text(m, g);
    }
}

proof fn lemma_named(body: Seq<char>, m: Metrics, g: Gauges, k: int)
    requires
        shows(body, m, g),
        on_lines(g),
        0 <= k < 14,
    ensures
        sample(body, exposed(m, g)[k].name) == Some(exposed(m, g)[k].value),
        sample(body, "# TYPE "@ + exposed(m, g)[k].name) == Some(exposed(m, g)[k].kind),
        sample(body, "# HELP "@ + exposed(m, g)[k].name) == Some(exposed(m, g)[k].help),
{
    lemma_body_lines(body, m, g);
    lemma_exposed_clean(m, g);
    lemma_found(exposed(m, g), lines(build_info()), k);
}

proof fn lemma_exposed_at(m: Metrics, g: Gauges)
    ensures
        exposed(m, g).len() == 14,
        exposed(m, g)[0].name == "llm_api_requests_total"@,
        exposed(m, g)[0].kind == "counter"@,
        exposed(m, g)[0].help == "Total /v1/chat/completions requests received."@,
        exposed(m, g)[0].value == decimal(m.requests_total as nat),
        exposed(m, g)[1].name == "llm_api_errors_total"@,
        exposed(m, g)[1].kind == "counter"@,
        exposed(m, g)[1].help == "Requests that ended in an error."@,
        exposed(m, g)[1].value == decimal(m.errors_total as nat),
        exposed(m, g)[2].name == "llm_api_streaming_requests_total"@,
        exposed(m, g)[2].kind == "counter"@,
        exposed(m, g)[2].help == "Requests that streamed."@,
        exposed(m, g)[2].value == decimal(m.streaming_total as nat),
        exposed(m, g)[3].name == "llm_api_aborted_requests_total"@,
        exposed(m, g)[3].kind == "counter"@,
        exposed(m, g)[3].help == "Generations aborted early (client disconnect)."@,
        exposed(m, g)[3].value == decimal(m.aborted_total as nat),
        exposed(m, g)[4].name == "llm_api_prompt_tokens_total"@,
        exposed(m, g)[4].kind == "counter"@,
        exposed(m, g)[4].help == "Prompt tokens accepted."@,
        exposed(m, g)[4].value == decimal(m.prompt_tokens_total as nat),
        exposed(m, g)[5].name == "llm_api_completion_tokens_total"@,
        exposed(m, g)[5].kind == "counter"@,
        exposed(m, g)[5].help == "Completion tokens generated."@,
        exposed(m, g)[5].value == decimal(m.completion_tokens_total as nat),
        exposed(m, g)[6].name == "llm_api_generation_ms_total"@,
        exposed(m, g)[6].kind == "counter"@,
        exposed(m, g)[6].help == "Generation time in milliseconds."@,
        exposed(m, g)[6].value == decimal(m.generation_ms_total as nat),
        exposed(m, g)[7].name == "llm_api_requests_per_second"@,
        exposed(m, g)[7].kind == "gauge"@,
        exposed(m, g)[7].help == "Lifetime request rate."@,
        exposed(m, g)[7].value == g.requests,
        exposed(m, g)[8].name == "llm_api_tokens_per_second"@,
        exposed(m, g)[8].kind == "gauge"@,
        exposed(m, g)[8].help == "Lifetime generation throughput."@,
        exposed(m, g)[8].value == g.tokens,
        exposed(m, g)[9].name == "llm_api_average_generation_ms"@,
        exposed(m, g)[9].kind == "gauge"@,
        exposed(m, g)[9].help == "Average generation duration per request."@,
        exposed(m, g)[9].value == g.generation,
        exposed(m, g)[10].name == "llm_api_uptime_seconds"@,
        exposed(m, g)[10].kind == "gauge"@,
        exposed(m, g)[10].help == "Server process uptime."@,
        exposed(m, g)[10].value == decimal(g.uptime as nat),
        exposed(m, g)[11].name == "llm_api_start_time_seconds"@,
        exposed(m, g)[11].kind == "gauge"@,
        exposed(m, g)[11].help == "Process start time (unix)."@,
        exposed(m, g)[11].value == decimal(g.start_time as nat),
        exposed(m, g)[12].name == "llm_api_cpu_ms_total"@,
        exposed(m, g)[12].kind == "counter"@,
        exposed(m, g)[12].help == "CPU time of the process in milliseconds."@,
        exposed(m, g)[12].value == decimal(g.cpu_ms as nat),
        exposed(m, g)[13].name == "llm_api_resident_memory_bytes"@,
        exposed(m, g)[13].kind == "gauge"@,
        exposed(m, g)[13].help == "Resident set size of the process."@,
        exposed(m, g)[13].value == decimal(g.rss_bytes as nat),
{
    reveal(exposed);
}

/// Under each name stands the counter or the gauge of that name.
pub proof fn law_each_name_shows_its_number(body: Seq<char>, m: Metrics, g: Gauges)
    requires
        shows(body, m, g),
        on_lines(g),
    ensures
        sample(body, "llm_api_requests_total"@) == Some(decimal(m.requests_total as nat)),
        sample(body, "llm_api_errors_total"@) == Some(decimal(m.errors_total as nat)),
        sample(body, "llm_api_streaming_requests_total"@) == Some(decimal(m.streaming_total as nat)),
        sample(body, "llm_api_aborted_requests_total"@) == Some(decimal(m.aborted_total as nat)),
        sample(body, "llm_api_prompt_tokens_total"@) == Some(decimal(m.prompt_tokens_total as nat)),
        sample(body, "llm_api_completion_tokens_total"@) == Some(decimal(m.completion_tokens_total as nat)),
        sample(body, "llm_api_generation_ms_total"@) == Some(decimal(m.generation_ms_total as nat)),
        sample(body, "llm_api_requests_per_second"@) == Some(g.requests),
        sample(body, "llm_api_tokens_per_second"@) == Some(g.tokens),
        sample(body, "llm_api_average_generation_ms"@) == Some(g.generation),
        sample(body, "llm_api_uptime_seconds"@) == Some(decimal(g.uptime as nat)),
        sample(body, "llm_api_start_time_seconds"@) == Some(decimal(g.start_time as nat)),
        sample(body, "llm_api_cpu_ms_total"@) == Some(decimal(g.cpu_ms as nat)),
        sample(body, "llm_api_resident_memory_bytes"@) == Some(decimal(g.rss_bytes as nat)),
{
    lemma_exposed_at(m, g);
    lemma_named(body, m, g, 0);
    lemma_named(body, m, g, 1);
    lemma_named(body, m, g, 2);
    lemma_named(body, m, g, 3);
    lemma_named(body, m, g, 4);
    lemma_named(body, m, g, 5);
    lemma_named(body, m, g, 6);
    lemma_named(body, m, g, 7);
    lemma_named(body, m, g, 8);
    lemma_named(body, m, g, 9);
    lemma_named(body, m, g, 10);
    lemma_named(body, m, g, 11);
    lemma_named(body, m, g, 12);
    lemma_named(body, m, g, 13);
}

/// Each metric is declared with its type.
pub proof fn law_each_name_shows_its_type(body: Seq<char>, m: Metrics, g: Gauges)
    requires
        shows(body, m, g),
        on_lines(g),
    ensures
        sample(body, "# TYPE llm_api_requests_total"@) == Some("counter"@),
        sample(body, "# TYPE llm_api_errors_total"@) == Some("counter"@),
        sample(body, "# TYPE llm_api_streaming_requests_total"@) == Some("counter"@),
        sample(body, "# TYPE llm_api_aborted_requests_total"@) == Some("counter"@),
        sample(body, "# TYPE llm_api_prompt_tokens_total"@) == Some("counter"@),
        sample(body, "# TYPE llm_api_completion_tokens_total"@) == Some("counter"@),
        sample(body, "# TYPE llm_api_generation_ms_total"@) == Some("counter"@),
        sample(body, "# TYPE llm_api_requests_per_second"@) == Some("gauge"@),
        sample(body, "# TYPE llm_api_tokens_per_second"@) == Some("gauge"@),
        sample(body, "# TYPE llm_api_average_generation_ms"@) == Some("gauge"@),
        sample(body, "# TYPE llm_api_uptime_seconds"@) == Some("gauge"@),
        sample(body, "# TYPE llm_api_start_time_seconds"@) == Some("gauge"@),
        sample(body, "# TYPE llm_api_cpu_ms_total"@) == Some("counter"@),
        sample(body, "# TYPE llm_api_resident_memory_bytes"@) == Some("gauge"@),
{
    assert(sample(body, "# TYPE llm_api_requests_total"@) == Some("counter"@)) by {
        lemma_exposed_at(m, g);
        lemma_named(body, m, g, 0);
        reveal_strlit("# TYPE ");
        reveal_strlit("llm_api_requests_total");
        reveal_strlit("# TYPE llm_api_requests_total");
        assert("# TYPE "@ + "llm_api_requests_total"@ =~= "# TYPE llm_api_requests_total"@);
    }
    assert(sample(body, "# TYPE llm_api_errors_total"@) == Some("counter"@)) by {
        lemma_exposed_at(m, g);
        lemma_named(body, m, g, 1);
        reveal_strlit("# TYPE ");
        reveal_strlit("llm_api_errors_total");
        reveal_strlit("# TYPE llm_api_errors_total");
        assert("# TYPE "@ + "llm_api_errors_total"@ =~= "# TYPE llm_api_errors_total"@);
    }
    assert(sample(body, "# TYPE llm_api_streaming_requests_total"@) == Some("counter"@)) by {
        lemma_exposed_at(m, g);
        lemma_named(body, m, g, 2);
        reveal_strlit("# TYPE ");
        reveal_strlit("llm_api_streaming_requests_total");
        reveal_strlit("# TYPE llm_api_streaming_requests_total");
        assert("# TYPE "@ + "llm_api_streaming_requests_total"@ =~= "# TYPE llm_api_streaming_requests_total"@);
    }
    assert(sample(body, "# TYPE llm_api_aborted_requests_total"@) == Some("counter"@)) by {
        lemma_exposed_at(m, g);
        lemma_named(body, m, g, 3);
        reveal_strlit("# TYPE ");
        reveal_strlit("llm_api_aborted_requests_total");
        reveal_strlit("# TYPE llm_api_aborted_requests_total");
        assert("# TYPE "@ + "llm_api_aborted_requests_total"@ =~= "# TYPE llm_api_aborted_requests_total"@);
    }
    assert(sample(body, "# TYPE llm_api_prompt_tokens_total"@) == Some("counter"@)) by {
        lemma_exposed_at(m, g);
        lemma_named(body, m, g, 4);
        reveal_strlit("# TYPE ");
        reveal_strlit("llm_api_prompt_tokens_total");
        reveal_strlit("# TYPE llm_api_prompt_tokens_total");
        assert("# TYPE "@ + "llm_api_prompt_tokens_total"@ =~= "# TYPE llm_api_prompt_tokens_total"@);
    }
    assert(sample(body, "# TYPE llm_api_completion_tokens_total"@) == Some("counter"@)) by {
        lemma_exposed_at(m, g);
        lemma_named(body, m, g, 5);
        reveal_strlit("# TYPE ");
        reveal_strlit("llm_api_completion_tokens_total");
        reveal_strlit("# TYPE llm_api_completion_tokens_total");
        assert("# TYPE "@ + "llm_api_completion_tokens_total"@ =~= "# TYPE llm_api_completion_tokens_total"@);
    }
    assert(sample(body, "# TYPE llm_api_generation_ms_total"@) == Some("counter"@)) by {
        lemma_exposed_at(m, g);
        lemma_named(body, m, g, 6);
        reveal_strlit("# TYPE ");
        reveal_strlit("llm_api_generation_ms_total");
        reveal_strlit("# TYPE llm_api_generation_ms_total");
        assert("# TYPE "@ + "llm_api_generation_ms_total"@ =~= "# TYPE llm_api_generation_ms_total"@);
    }
    assert(sample(body, "# TYPE llm_api_requests_per_second"@) == Some("gauge"@)) by {
        lemma_exposed_at(m, g);
        lemma_named(body, m, g, 7);
        reveal_strlit("# TYPE ");
        reveal_strlit("llm_api_requests_per_second");
        reveal_strlit("# TYPE llm_api_requests_per_second");
        assert("# TYPE "@ + "llm_api_requests_per_second"@ =~= "# TYPE llm_api_requests_per_second"@);
    }
    assert(sample(body, "# TYPE llm_api_tokens_per_second"@) == Some("gauge"@)) by {
        lemma_exposed_at(m, g);
        lemma_named(body, m, g, 8);
        reveal_strlit("# TYPE ");
        reveal_strlit("llm_api_tokens_per_second");
        reveal_strlit("# TYPE llm_api_tokens_per_second");
        assert("# TYPE "@ + "llm_api_tokens_per_second"@ =~= "# TYPE llm_api_tokens_per_second"@);
    }
    assert(sample(body, "# TYPE llm_api_average_generation_ms"@) == Some("gauge"@)) by {
        lemma_exposed_at(m, g);
        lemma_named(body, m, g, 9);
        reveal_strlit("# TYPE ");
        reveal_strlit("llm_api_average_generation_ms");
        reveal_strlit("# TYPE llm_api_average_generation_ms");
        assert("# TYPE "@ + "llm_api_average_generation_ms"@ =~= "# TYPE llm_api_average_generation_ms"@);
    }
    assert(sample(body, "# TYPE llm_api_uptime_seconds"@) == Some("gauge"@)) by {
        lemma_exposed_at(m, g);
        lemma_named(body, m, g, 10);
        reveal_strlit("# TYPE ");
        reveal_strlit("llm_api_uptime_seconds");
        reveal_strlit("# TYPE llm_api_uptime_seconds");
        assert("# TYPE "@ + "llm_api_uptime_seconds"@ =~= "# TYPE llm_api_uptime_seconds"@);
    }
    assert(sample(body, "# TYPE llm_api_start_time_seconds"@) == Some("gauge"@)) by {
        lemma_exposed_at(m, g);
        lemma_named(body, m, g, 11);
        reveal_strlit("# TYPE ");
        reveal_strlit("llm_api_start_time_seconds");
        reveal_strlit("# TYPE llm_api_start_time_seconds");
        assert("# TYPE "@ + "llm_api_start_time_seconds"@ =~= "# TYPE llm_api_start_time_seconds"@);
    }
    assert(sample(body, "# TYPE llm_api_cpu_ms_total"@) == Some("counter"@)) by {
        lemma_exposed_at(m, g);
        lemma_named(body, m, g, 12);
        reveal_strlit("# TYPE ");
        reveal_strlit("llm_api_cpu_ms_total");
        reveal_strlit("# TYPE llm_api_cpu_ms_total");
        assert("# TYPE "@ + "llm_api_cpu_ms_total"@ =~= "# TYPE llm_api_cpu_ms_total"@);
    }
    assert(sample(body, "# TYPE llm_api_resident_memory_bytes"@) == Some("gauge"@)) by {
        lemma_exposed_at(m, g);
        lemma_named(body, m, g, 13);
        reveal_strlit("# TYPE ");
        reveal_strlit("llm_api_resident_memory_bytes");
        reveal_strlit("# TYPE llm_api_resident_memory_bytes");
        assert("# TYPE "@ + "llm_api_resident_memory_bytes"@ =~= "# TYPE llm_api_resident_memory_bytes"@);
    }
}

/// The text is declared in the version of the exposition format in which it is
/// written.
pub proof fn law_format_is_declared()
    ensures
        METRICS_CONTENT_TYPE@ == "text/plain; version=0.0.4; charset=utf-8"@,
{
}

/// Each metric is explained.
pub proof fn law_each_name_is_explained(body: Seq<char>, m: Metrics, g: Gauges)
    requires
        shows(body, m, g),
        on_lines(g),
    ensures
        sample(body, "# HELP llm_api_requests_total"@) == Some("Total /v1/chat/completions requests received."@),
        sample(body, "# HELP llm_api_errors_total"@) == Some("Requests that ended in an error."@),
        sample(body, "# HELP llm_api_streaming_requests_total"@) == Some("Requests that streamed."@),
        sample(body, "# HELP llm_api_aborted_requests_total"@) == Some("Generations aborted early (client disconnect)."@),
        sample(body, "# HELP llm_api_prompt_tokens_total"@) == Some("Prompt tokens accepted."@),
        sample(body, "# HELP llm_api_completion_tokens_total"@) == Some("Completion tokens generated."@),
        sample(body, "# HELP llm_api_generation_ms_total"@) == Some("Generation time in milliseconds."@),
        sample(body, "# HELP llm_api_requests_per_second"@) == Some("Lifetime request rate."@),
        sample(body, "# HELP llm_api_tokens_per_second"@) == Some("Lifetime generation throughput."@),
        sample(body, "# HELP llm_api_average_generation_ms"@) == Some("Average generation duration per request."@),
        sample(body, "# HELP llm_api_uptime_seconds"@) == Some("Server process uptime."@),
        sample(body, "# HELP llm_api_start_time_seconds"@) == Some("Process start time (unix)."@),
        sample(body, "# HELP llm_api_cpu_ms_total"@) == Some("CPU time of the process in milliseconds."@),
        sample(body, "# HELP llm_api_resident_memory_bytes"@) == Some("Resident set size of the process."@),
{
    assert(sample(body, "# HELP llm_api_requests_total"@) == Some("Total /v1/chat/completions requests received."@)) by {
        lemma_exposed_at(m, g);
        lemma_named(body, m, g, 0);
        reveal_strlit("# HELP ");
        reveal_strlit("llm_api_requests_total");
        reveal_strlit("# HELP llm_api_requests_total");
        assert("# HELP "@ + "llm_api_requests_total"@ =~= "# HELP llm_api_requests_total"@);
    }
    assert(sample(body, "# HELP llm_api_errors_total"@) == Some("Requests that ended in an error."@)) by {
        lemma_exposed_at(m, g);
        lemma_named(body, m, g, 1);
        reveal_strlit("# HELP ");
        reveal_strlit("llm_api_errors_total");
        reveal_strlit("# HELP llm_api_errors_total");
        assert("# HELP "@ + "llm_api_errors_total"@ =~= "# HELP llm_api_errors_total"@);
    }
    assert(sample(body, "# HELP llm_api_streaming_requests_total"@) == Some("Requests that streamed."@)) by {
        lemma_exposed_at(m, g);
        lemma_named(body, m, g, 2);
        reveal_strlit("# HELP ");
        reveal_strlit("llm_api_streaming_requests_total");
        reveal_strlit("# HELP llm_api_streaming_requests_total");
        assert("# HELP "@ + "llm_api_streaming_requests_total"@ =~= "# HELP llm_api_streaming_requests_total"@);
    }
    assert(sample(body, "# HELP llm_api_aborted_requests_total"@) == Some("Generations aborted early (client disconnect)."@)) by {
        lemma_exposed_at(m, g);
        lemma_named(body, m, g, 3);
        reveal_strlit("# HELP ");
        reveal_strlit("llm_api_aborted_requests_total");
        reveal_strlit("# HELP llm_api_aborted_requests_total");
        assert("# HELP "@ + "llm_api_aborted_requests_total"@ =~= "# HELP llm_api_aborted_requests_total"@);
    }
    assert(sample(body, "# HELP llm_api_prompt_tokens_total"@) == Some("Prompt tokens accepted."@)) by {
        lemma_exposed_at(m, g);
        lemma_named(body, m, g, 4);
        reveal_strlit("# HELP ");
        reveal_strlit("llm_api_prompt_tokens_total");
        reveal_strlit("# HELP llm_api_prompt_tokens_total");
        assert("# HELP "@ + "llm_api_prompt_tokens_total"@ =~= "# HELP llm_api_prompt_tokens_total"@);
    }
    assert(sample(body, "# HELP llm_api_completion_tokens_total"@) == Some("Completion tokens generated."@)) by {
        lemma_exposed_at(m, g);
        lemma_named(body, m, g, 5);
        reveal_strlit("# HELP ");
        reveal_strlit("llm_api_completion_tokens_total");
        reveal_strlit("# HELP llm_api_completion_tokens_total");
        assert("# HELP "@ + "llm_api_completion_tokens_total"@ =~= "# HELP llm_api_completion_tokens_total"@);
    }
    assert(sample(body, "# HELP llm_api_generation_ms_total"@) == Some("Generation time in milliseconds."@)) by {
        lemma_exposed_at(m, g);
        lemma_named(body, m, g, 6);
        reveal_strlit("# HELP ");
        reveal_strlit("llm_api_generation_ms_total");
        reveal_strlit("# HELP llm_api_generation_ms_total");
        assert("# HELP "@ + "llm_api_generation_ms_total"@ =~= "# HELP llm_api_generation_ms_total"@);
    }
    assert(sample(body, "# HELP llm_api_requests_per_second"@) == Some("Lifetime request rate."@)) by {
        lemma_exposed_at(m, g);
        lemma_named(body, m, g, 7);
        reveal_strlit("# HELP ");
        reveal_strlit("llm_api_requests_per_second");
        reveal_strlit("# HELP llm_api_requests_per_second");
        assert("# HELP "@ + "llm_api_requests_per_second"@ =~= "# HELP llm_api_requests_per_second"@);
    }
    assert(sample(body, "# HELP llm_api_tokens_per_second"@) == Some("Lifetime generation throughput."@)) by {
        lemma_exposed_at(m, g);
        lemma_named(body, m, g, 8);
        reveal_strlit("# HELP ");
        reveal_strlit("llm_api_tokens_per_second");
        reveal_strlit("# HELP llm_api_tokens_per_second");
        assert("# HELP "@ + "llm_api_tokens_per_second"@ =~= "# HELP llm_api_tokens_per_second"@);
    }
    assert(sample(body, "# HELP llm_api_average_generation_ms"@) == Some("Average generation duration per request."@)) by {
        lemma_exposed_at(m, g);
        lemma_named(body, m, g, 9);
        reveal_strlit("# HELP ");
        reveal_strlit("llm_api_average_generation_ms");
        reveal_strlit("# HELP llm_api_average_generation_ms");
        assert("# HELP "@ + "llm_api_average_generation_ms"@ =~= "# HELP llm_api_average_generation_ms"@);
    }
    assert(sample(body, "# HELP llm_api_uptime_seconds"@) == Some("Server process uptime."@)) by {
        lemma_exposed_at(m, g);
        lemma_named(body, m, g, 10);
        reveal_strlit("# HELP ");
        reveal_strlit("llm_api_uptime_seconds");
        reveal_strlit("# HELP llm_api_uptime_seconds");
        assert("# HELP "@ + "llm_api_uptime_seconds"@ =~= "# HELP llm_api_uptime_seconds"@);
    }
    assert(sample(body, "# HELP llm_api_start_time_seconds"@) == Some("Process start time (unix)."@)) by {
        lemma_exposed_at(m, g);
        lemma_named(body, m, g, 11);
        reveal_strlit("# HELP ");
        reveal_strlit("llm_api_start_time_seconds");
        reveal_strlit("# HELP llm_api_start_time_seconds");
        assert("# HELP "@ + "llm_api_start_time_seconds"@ =~= "# HELP llm_api_start_time_seconds"@);
    }
    assert(sample(body, "# HELP llm_api_cpu_ms_total"@) == Some("CPU time of the process in milliseconds."@)) by {
        lemma_exposed_at(m, g);
        lemma_named(body, m, g, 12);
        reveal_strlit("# HELP ");
        reveal_strlit("llm_api_cpu_ms_total");
        reveal_strlit("# HELP llm_api_cpu_ms_total");
        assert("# HELP "@ + "llm_api_cpu_ms_total"@ =~= "# HELP llm_api_cpu_ms_total"@);
    }
    assert(sample(body, "# HELP llm_api_resident_memory_bytes"@) == Some("Resident set size of the process."@)) by {
        lemma_exposed_at(m, g);
        lemma_named(body, m, g, 13);
        reveal_strlit("# HELP ");
        reveal_strlit("llm_api_resident_memory_bytes");
        reveal_strlit("# HELP llm_api_resident_memory_bytes");
        assert("# HELP "@ + "llm_api_resident_memory_bytes"@ =~= "# HELP llm_api_resident_memory_bytes"@);
    }
}

/// The text ends with one line that names the version and the model.
pub proof fn law_server_is_named(body: Seq<char>, m: Metrics, g: Gauges)
    requires
        shows(body, m, g),
        on_lines(g),
    ensures
        lines(body).len() > 0,
        lines(body).last()
            == "llm_api_build_info{version=\"0.1.0\",model=\"minicpm5-1b-fable5-v2-thinking\"} 1"@,
{
    reveal_strlit(
        "# HELP llm_api_build_info Build information.\n# TYPE llm_api_build_info gauge\nllm_api_build_info{version=\"",
    );
    reveal_strlit("0.1.0");
    reveal_strlit("\",model=\"");
    reveal_strlit("minicpm5-1b-fable5-v2-thinking");
    reveal_strlit("\"} 1\n");
    reveal_strlit("# HELP llm_api_build_info Build information.");
    reveal_strlit("# TYPE llm_api_build_info gauge");
    reveal_strlit(
        "llm_api_build_info{version=\"0.1.0\",model=\"minicpm5-1b-fable5-v2-thinking\"} 1",
    );
    let a = "# HELP llm_api_build_info Build information."@;
    let b = "# TYPE llm_api_build_info gauge"@;
    let c = "llm_api_build_info{version=\"0.1.0\",model=\"minicpm5-1b-fable5-v2-thinking\"} 1"@;
    let empty = Seq::<char>::empty();
    let third = c.push('\n') + empty;
    let second = b.push('\n') + third;
    assert(build_info() =~= a.push('\n') + second);
    assert(is_trimmed(a) && !a.contains('\n'));
    assert(is_trimmed(b) && !b.contains('\n'));
    assert(is_trimmed(c) && !c.contains('\n'));
    lemma_lines_first(a, second);
    lemma_lines_first(b, third);
    lemma_lines_first(c, empty);
    lemma_body_lines(body, m, g);
    assert(lines(build_info()).last() == c);
    assert(lines(body).last() == lines(build_info()).last());
}

// ---------------------------------------------------------------------------
// What counting changes
// ---------------------------------------------------------------------------

proof fn lemma_line_at(es: Seq<Exposed>, k: int)
    requires
        0 <= k < es.len(),
    ensures
        all_lines(es).len() == 3 * es.len(),
        all_lines(es)[3 * k] == help_line(es[k]),
        all_lines(es)[3 * k + 1] == type_line(es[k]),
        all_lines(es)[3 * k + 2] == value_line(es[k]),
    decreases es.len(),
{
    if k > 0 {
        lemma_line_at(es.skip(1), k - 1);
        assert(es.skip(1)[k - 1] == es[k]);
    } else if es.len() > 1 {
        lemma_line_at(es.skip(1), 0);
    } else {
        assert(all_lines(es.skip(1)).len() == 0);
    }
}

proof fn lemma_exposed_same(m: Metrics, n: Metrics, g: Gauges)
    ensures
        forall|k: int|
            0 <= k < 14 ==> {
                &&& (#[trigger] exposed(m, g)[k]).name == exposed(n, g)[k].name
                &&& exposed(m, g)[k].help == exposed(n, g)[k].help
                &&& exposed(m, g)[k].kind == exposed(n, g)[k].kind
            },
{
    reveal(exposed);
}

/// The line of a name.
pub open spec fn line_of(line: Seq<char>, name: Seq<char>) -> bool {
    starts_with(line, name + seq![' '])
}

/// The lines of two texts are the same but for lines of certain names.
proof fn lemma_lines_that_change(
    before: Seq<char>,
    m: Metrics,
    after: Seq<char>,
    n: Metrics,
    g: Gauges,
)
    requires
        shows(before, m, g),
        shows(after, n, g),
        on_lines(g),
    ensures
        lines(before).len() == lines(after).len(),
        forall|i: int|
            0 <= i < lines(before).len() && lines(before)[i] != lines(after)[i] ==> {
                let k = i / 3;
                &&& i == 3 * k + 2
                &&& 0 <= k < 14
                &&& exposed(m, g)[k].value != exposed(n, g)[k].value
                &&& line_of(#[trigger] lines(before)[i], exposed(m, g)[k].name)
            },
{
    reveal_strlit(" ");
    let a = exposed(m, g);
    let b = exposed(n, g);
    lemma_body_lines(before, m, g);
    lemma_body_lines(after, n, g);
    lemma_exposed_at(m, g);
    lemma_exposed_at(n, g);
    lemma_exposed_same(m, n, g);
    lemma_line_at(a, 0);
    lemma_line_at(b, 0);
    assert forall|i: int| 0 <= i < lines(before).len() && lines(before)[i] != lines(after)[i] implies {
        let k = i / 3;
        &&& i == 3 * k + 2
        &&& 0 <= k < 14
        &&& a[k].value != b[k].value
        &&& line_of(#[trigger] lines(before)[i], a[k].name)
    } by {
        let k = i / 3;
        if i < 42 {
            lemma_line_at(a, k);
            lemma_line_at(b, k);
            assert(i == 3 * k || i == 3 * k + 1 || i == 3 * k + 2);
            let start = a[k].name + seq![' '];
            assert(value_line(a[k]).subrange(0, start.len() as int) =~= start);
        }
    }
}

/// Counting an error raises the number of errors by one, modulo 2^64, and changes
/// no other line.
pub proof fn law_error_changes_its_line(
    before: Seq<char>,
    after: Seq<char>,
    m: Metrics,
    g: Gauges,
)
    requires
        shows(before, m, g),
        shows(after, m.after_error(), g),
        on_lines(g),
    ensures
        lines(after).len() == lines(before).len(),
        forall|i: int|
            0 <= i < lines(before).len() && lines(before)[i] != lines(after)[i] ==> {
                ||| line_of(#[trigger] lines(before)[i], "llm_api_errors_total"@)
            },
        sample(after, "llm_api_errors_total"@) == Some(
            decimal(((m.errors_total + 1) % 0x1_0000_0000_0000_0000) as nat),
        ),
{
    let n = m.after_error();
    lemma_exposed_at(m, g);
    lemma_exposed_at(n, g);
    lemma_lines_that_change(before, m, after, n, g);
    law_each_name_shows_its_number(after, n, g);
}

/// Counting a request raises the number of requests by one, and that of streaming
/// requests where it streams, modulo 2^64, and changes no other line.
pub proof fn law_request_changes_its_lines(
    before: Seq<char>,
    after: Seq<char>,
    m: Metrics,
    g: Gauges,
    streaming: bool,
)
    requires
        shows(before, m, g),
        shows(after, m.after_request(streaming), g),
        on_lines(g),
    ensures
        lines(after).len() == lines(before).len(),
        forall|i: int|
            0 <= i < lines(before).len() && lines(before)[i] != lines(after)[i] ==> {
                ||| line_of(#[trigger] lines(before)[i], "llm_api_requests_total"@)
                ||| (streaming && line_of(lines(before)[i], "llm_api_streaming_requests_total"@))
            },
        sample(after, "llm_api_requests_total"@) == Some(
            decimal(((m.requests_total + 1) % 0x1_0000_0000_0000_0000) as nat),
        ),
        sample(after, "llm_api_streaming_requests_total"@) == Some(
            decimal(((m.streaming_total + if streaming { 1int } else { 0 }) % 0x1_0000_0000_0000_0000) as nat),
        ),
{
    let n = m.after_request(streaming);
    lemma_exposed_at(m, g);
    lemma_exposed_at(n, g);
    lemma_lines_that_change(before, m, after, n, g);
    law_each_name_shows_its_number(after, n, g);
}

/// Counting an aborted generation raises the number of those by one, modulo
/// 2^64, and changes no other line.
pub proof fn law_abort_changes_its_line(
    before: Seq<char>,
    after: Seq<char>,
    m: Metrics,
    g: Gauges,
)
    requires
        shows(before, m, g),
        shows(after, m.after_abort(), g),
        on_lines(g),
    ensures
        lines(after).len() == lines(before).len(),
        forall|i: int|
            0 <= i < lines(before).len() && lines(before)[i] != lines(after)[i] ==> {
                ||| line_of(#[trigger] lines(before)[i], "llm_api_aborted_requests_total"@)
            },
        sample(after, "llm_api_aborted_requests_total"@) == Some(
            decimal(((m.aborted_total + 1) % 0x1_0000_0000_0000_0000) as nat),
        ),
{
    let n = m.after_abort();
    lemma_exposed_at(m, g);
    lemma_exposed_at(n, g);
    lemma_lines_that_change(before, m, after, n, g);
    law_each_name_shows_its_number(after, n, g);
}

/// Counting a generation adds its prompt tokens, its completion tokens and its
/// time each to the number of that name, modulo 2^64, and changes no other line.
pub proof fn law_tokens_change_their_lines(
    before: Seq<char>,
    after: Seq<char>,
    m: Metrics,
    g: Gauges,
    prompt_tokens: u32,
    completion_tokens: u32,
    duration_ms: u64,
)
    requires
        shows(before, m, g),
        shows(after, m.after_tokens(prompt_tokens, completion_tokens, duration_ms), g),
        on_lines(g),
    ensures
        lines(after).len() == lines(before).len(),
        forall|i: int|
            0 <= i < lines(before).len() && lines(before)[i] != lines(after)[i] ==> {
                ||| line_of(#[trigger] lines(before)[i], "llm_api_prompt_tokens_total"@)
                ||| line_of(lines(before)[i], "llm_api_completion_tokens_total"@)
                ||| line_of(lines(before)[i], "llm_api_generation_ms_total"@)
            },
        sample(after, "llm_api_prompt_tokens_total"@) == Some(
            decimal(((m.prompt_tokens_total + prompt_tokens) % 0x1_0000_0000_0000_0000) as nat),
        ),
        sample(after, "llm_api_completion_tokens_total"@) == Some(
            decimal(((m.completion_tokens_total + completion_tokens) % 0x1_0000_0000_0000_0000) as nat),
        ),
        sample(after, "llm_api_generation_ms_total"@) == Some(
            decimal(((m.generation_ms_total + duration_ms) % 0x1_0000_0000_0000_0000) as nat),
        ),
{
    let n = m.after_tokens(prompt_tokens, completion_tokens, duration_ms);
    lemma_exposed_at(m, g);
    lemma_exposed_at(n, g);
    lemma_lines_that_change(before, m, after, n, g);
    law_each_name_shows_its_number(after, n, g);
}

} // verus!
