# liara_core

The verified core of Liara, a private personal assistant that runs a language model on the
device (or, on request, on its own server) and keeps an encrypted memory of its user.

- `src/` is the library, written in Verus: prompt formats, tool-call parsing and streaming,
  the agent and cloud tool loops as state machines, the memory and recall index, at-rest
  encryption, e-mail and agenda logic, the model download, and the rest of the assistant's
  decisions. Every function carries a contract, and the laws the assistant relies on are
  proved as public proof functions: the consent gate, bounded tool loops, the context window,
  verified downloads, and, for the streaming router, that cutting the output into pieces never
  changes what is shown (thinking channels included), that a tool-call opener met before any
  thinking channel ends what is shown, that a closed thinking channel is skipped, and that on
  an output without thinking channel exactly the prose before the first tool-call opener is
  shown. (A tool-call opener that only appears once a thinking channel between its halves is
  hidden is shown: the router looks for openers in the raw text.)
- `tests/` runs the library on concrete inputs.
- `app/` is the host side in ordinary Rust: the SQLite stores, the drivers that carry out the
  state machines' actions (model, tools, network, files), the consent gate and the master key.
  The model runtime, the tools, the window and the keystore are reached through the traits in
  `app/services.rs`.
