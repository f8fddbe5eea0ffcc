# chat_wire

The wire layer of the built-in HTTP chat providers (OpenAI-compatible and Anthropic), verified
with Verus.

- `src/` decides: endpoints, reasoning controls, retries, the meaning of stream payloads, and
  the pump that turns the bytes of a response into the events of a turn. It does no I/O.
- `app/` does the I/O that the pump asks for.
- `tests/` runs the library against the real `serde_json` and `reqwest`.

The contracts speak of what a value says: `Delta` of a `ChatDelta`, `Json` of a
`serde_json::Value`, `Pump` of an `SsePump`. The proof functions whose names start with `law_`
state what holds of the library as a whole, among them:

- a response takes the same course however it is cut into chunks, whichever parser reads its
  payloads;
- how lines are ended makes no difference, nor do lines that carry no payload, be they text or
  not;
- a turn ends once, and an error is followed by its end as aborted;
- an event that was written is read back;
- white space around a base URL and slashes behind it make no difference to its endpoints;
- a request body carries at most one of the two reasoning controls after one was applied;
- nothing of an error that a provider reports in its stream is passed on.
