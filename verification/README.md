# zeroclaw_sticker

Policy-controlled delivery of configured Telegram stickers during one agent
turn, written in Verus.

`src/` is the verified library:

- `text` — character helpers (white space, decimal and hex notation).
- `messages` — the tool's message catalogue and `{ $name }` rendering.
- `json` — the JSON model the tool reads and writes.
- `config` — the live configuration, the Bot API URL and the reply-target split.
- `cache` — the bounded least-recently-used cache of sticker sets, its keys
  (with a SHA-256 token fingerprint) and its laws.
- `turn` — the per-turn target and success quota.
- `api` — request bodies and the verdict on each Bot API exchange.
- `tool` — the decisions of one invocation: request and turn checks,
  resolution through the cache, the quota and delivery bookkeeping.

The original keeps the cache in a `HashMap` plus a `VecDeque` recency
queue. Here one `Vec` of entries, least recently used first, holds both, with
the invariant that no key repeats and at most 32 are held; a `HashMap` keyed by
the three-string key struct was not tried, since lookups on such a key are not
provable with vstd's specification. `touch` admits only cached keys.

`app/` runs those decisions in the async runtime: the task-local turn, HTTP
through `reqwest` (with the configured proxy), and JSON conversion with
`serde_json`. `tests/` exercises the library on concrete values.
