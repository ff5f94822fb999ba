# cxa

`cxa` keeps several ChatGPT OAuth logins of Codex side by side, switches between them and shows
what is left of their quotas. `cxa boost` runs the tasks of connected Codex app servers at full
power until a weekly quota resets or a deadline passes, and puts everything back afterwards.
`codex-quota-proxy` lets other programs read quotas from a shared app server without giving them
anything else, and `codex-shared-socket` prepares and publishes that server's socket.

## Layout

- `src/` is the library, verified with Verus: accounts, transactions, quotas, boosts, the proxy and
  what is printed.
- `app/` is the programs themselves: command lines, files, processes, sockets, threads and
  terminals. It performs what the library asks for.
- `tests/` runs the library on small worlds that are kept in memory.

## How the library talks to the world

A procedure that has to read or change something outside is a function of the replies that it has
been given so far. It returns its result, a failure, or the next `Request`; whoever runs it
performs the request, appends the `Reply` and calls it again. `src/effects.rs` says what can be
asked for. A contract therefore says exactly which requests are made, in which order, for every
course of replies, and the laws of `src/safety.rs`, `src/reading.rs`, `src/switching.rs`,
`src/fs.rs` and others speak of all of them: a late writer's credentials are never overwritten,
recovery waits for writers, reading a quota keeps to its own files, and a file is durable before it
shows.

`src/recovery.rs` describes a disk, and other modules play procedures against it. At whatever point
a transaction stops, recovery puts the active credentials back (`src/holding.rs`, `src/undoing.rs`),
goes through with the recorded change (`src/finishing.rs`) or saves credentials that were refreshed
(`src/refreshing.rs`). Whatever the record, a recovery that succeeds leaves none, and a rollback
gives back what was held, whatever has come up in its place meanwhile (`src/settling.rs`). A barrier
that was begun and rolled back leaves the credentials that were active before, or newer saved ones
of the same account (`src/taking.rs`). What a recovery does about credentials that were being staged
stands in `src/staging.rs`. The rules that these proofs are put together from stand in
`src/steady.rs`, `src/settled.rs`, `src/course.rs` and `src/ending.rs`, and the parts of a commit in
`src/job.rs`, `src/giving.rs` and `src/linking.rs`.

Pure parts have ordinary contracts: credential files (`auth`), quota records (`usage`, `percent`),
WebSocket frames (`wire`, `control`, `handshake`, `sha1`), the filter of the proxy (`proxy`), the
rules of a boost (`boost_policy`, `boost_state`, `boost_tasks`) and everything that is printed
(`terminal`, `cli`).

JSON, Base64, calendar times and the escape sequences of styles come from `serde_json`, `base64`,
`chrono` and `anstyle`. Each call stands behind one trusted declaration that says what is taken
for granted of it.
