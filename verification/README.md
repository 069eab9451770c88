# llama_server_rs

A llama.cpp-compatible completion server whose request handling and
generation logic is verified with Verus.

- `src/` — the verified library:
  - `json` — JSON values as plain data, with lookups.
  - `engine::completion` — stop-word scanning, incremental UTF-8 decoding
    and completion requests; `engine::lossy_utf8` is the decoder's model.
  - `engine::runtime` — the per-token generation state machine, prompt
    checks and batching.
  - `engine::generation` — a whole completion run driven token by token,
    with the laws that span a run: streamed chunks make up the content,
    streaming does not change it, and stop words only cut it short.
  - `engine::sampler` — typed field readers, penalty windows, logit biases
    and the sampler chain.
  - `engine::chat` — the chat messages and multimodal data of a request.
  - `engine::prompt_cache`, `engine::metrics`, `engine::slot`,
    `engine::task`, `engine::requests`, `engine::completion_json`,
    `engine::engine_loop`.
  - `http` — error responses, API-key checks, server-sent-event framing and
    endpoint decisions.
  - `config`, `bench` — settings and benchmark helpers (argument parsing,
    reranker prompts, split records and their file names).
- `tests/` — tests of the library.
- `app/` — the server program: command line, Axum routes, the engine
  thread and the llama.cpp calls.
