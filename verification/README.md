# llm-api

An OpenAI-compatible LLM inference server around `llama.cpp`, whose logic is a
Verus library: the functions under `src/` have contracts, and Verus proves them,
but for the few trusted items through which the library calls outside code.

## Layout

- `src/` — the verified library.
  - `domain/` — the shapes of the API, and domain errors.
  - `application/chat/` — prompts, sampling plans, cleaning and splitting of
    what the model wrote, tool calls and their way back from the history.
  - `infrastructure/` — the generation loop as a machine of events and
    actions, token texts, batches.
  - `presentation/` — what is answered: chat, streams, errors, authentication,
    health, models, metrics.
  - `plain.rs` — a plain server without tools and thinking.
  - `config.rs`, `identity.rs`, `json.rs`, `template.rs`, `text.rs`,
    `number.rs` — configuration, identifiers, and the ground that the rest
    stands on.
- `tests/` — tests of the library.
- `app/` — the server itself: HTTP, the model, the clock, serialization.

What is taken on trust, and not proved, is in `json.rs` (`serde_json`), `template.rs`
(`minijinja`), `identity.rs` (`uuid`, `chrono`), and two functions of the
standard library (`String::push`, `String::from_utf8`).

## Environment variables

| Var | Default | Description |
|-----|---------|-------------|
| `MODEL_PATH` | named at build time in `DEFAULT_MODEL_PATH`, else `/models/MiniCPM-V-4.6-Q4_K_M.gguf` | GGUF model file |
| `API_KEY` | *(empty = auth off)* | Bearer token required on `/v1/chat/completions` |
| `SERVER_PORT` | `4010` | Listen port |
| `RUST_LOG` | `info` | Log level |
| `N_CTX` / `N_BATCH` / `N_THREADS` | `8192` / `512` / `4` | llama.cpp context/batch/threads |
| `MAX_TOKENS` | `2048` | Hard cap on the `max_tokens` of a request (0 = unlimited) |
