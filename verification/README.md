# openai_compat

A verified client core for servers that implement the OpenAI `/v1/chat/completions` format
(OpenAI, Ollama, LM Studio and others). Anthropic-style requests go out in the OpenAI wire
format, and the chunks of a streamed answer come back as Anthropic-style events.

- `src/messages.rs`: messages and tools, from one format to the other
- `src/stream.rs`: from chunks to events
- `src/session.rs`: the decisions of reading a streamed answer, action by action
- `src/client.rs`: the address, the headers and the body of a request, and the response
- `src/json.rs`, `src/text.rs`, `src/types.rs`, `src/wire.rs`: the data
- `src/outside.rs`: everything that is trusted rather than proved
- `src/laws/`: what holds of the library as a whole
- `app/`: the asynchronous client, which does the I/O
