# vim_miner

Two pieces of an editor, verified with Verus:

- `vim`: the paste command of Vim mode in an editor with several cursors. The command is a
  conversation: `Paste::begin` and `PasteStage::step` name an effect, the editor brings it about
  and answers with an event. `vim::laws` states what holds of a paste as a whole.
- `miner`: the client side of a text-generation endpoint that streams its answer. It builds the
  request, judges the response, and reads events out of the chunks that arrive. `miner::laws`
  states what holds of prompts and streams.

`src/` is the verified library. `tests/` runs it, the paste command on a small line buffer.
`app/` connects it to an editor, through the trait `Host`, and to the network.

What is believed without proof: the wrappers in `miner/json.rs` (the map of `serde_json`), in
`miner/response.rs` (the `Debug` format of `str`) and in `miner/stream.rs` (`String::from_utf8`).
