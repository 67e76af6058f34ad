# kaspa-rust-bot

A Telegram bot that watches Kaspa wallets for mining rewards. The logic of
the bot is a Verus-verified library (`src/`); the process around it
(Telegram, the node's RPC, HTTP, files, floating-point formatting) is the
ordinary Rust program in `app/`.

Library modules:

- `text`: decimal notation, joining, character-level helpers.
- `utils`: thousands separators, short wallet and hash forms, the reply
  keyboard, the anti-spam guard; `utils::helpers` (trimming, address
  validation, the byte-exact compact address), `utils::local_rpc` (wRPC
  response naming), `utils::types` (`Sompi`).
- `state`: the subscription registry (wallet to chats) over a `DashMap`.
- `commands`: the decision for every chat command and the follow-up replies.
- `monitor`: reward detection over the unspent outputs, the reward notice,
  block resolution.
- `dag_buffer`: the delayed alert texts and the polling decision.
- `api`: endpoints and the one-minute cache policy.
- `bot`, `kaspa_features`: the compact command set's replies and the inline
  menu.

Design notes:

- The set of output names each watched wallet had at its last scan is kept
  as a `Vec<String>` with the invariant that no name occurs twice, not as a
  `HashSet<String>`: vstd's model of `HashSet` describes its contents only
  for key types known to obey its key model (the primitive types), and
  `String` could be admitted only by an assumption, so nothing could be
  proved of a set of names. The no-repeat invariant keeps what the set
  guaranteed.
- `/logs` shows the last 25 lines of the log, `/network` the hashrate next
  to the difficulty, `/supply` the circulating against the maximum supply.

