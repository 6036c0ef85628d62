# responses_chat

Conversion between the OpenAI Responses API and the Chat Completions API, so that a client of the
one can be served by a provider of the other:

- a request of the Responses API becomes a chat request (`request`)
- a chat answer becomes an answer of the Responses API (`response`)
- a chat answer that is streamed becomes a stream of named events (`sse`, `stream`, `events`)

The library in `src/` is verified with Verus. Each conversion is specified as a function on models
of JSON values (`json`), and a stream as a machine of steps (`stream`). What holds of every request,
every answer and every stream is stated and proved in the modules whose names end in `_laws`.

`value`, `json`, `ids`, `sse` and `text` declare what the library takes on trust of `serde_json`,
`uuid` and the standard library.

`app/` holds what surrounds the library: the conversions on `serde_json::Value`, the chunks as
`serde` reads them, and the asynchronous stream.
