# io-maildir

A Maildir library whose logic is verified with Verus.

Every Maildir operation is a resumable state machine: `resume(arg)`
either yields the filesystem work it needs (`MaildirYield`: probe,
list, read, write, create, remove, rename, copy, clock, pid, host name)
or completes with its result. The caller performs the work and feeds
the answer back (`MaildirReply`). Each machine's `resume` carries a
contract that fixes, for every state and every answer, the next state
and what is yielded or returned.

## Layout

- `src/` — the verified library.
  - `coroutine` — the yield/reply protocol shared by every machine.
  - `flag`, `flag/{add,remove,set}` — flag sets, their rendering into
    and parsing from file names, and the flag-writing machines.
  - `entry`, `entry/*` — entries and their ids, unique-name minting,
    and the locate, get, list, store, copy and move machines; header
    helpers (`entry/headers`) that put, strip and read header fields.
  - `dovecot`, `dovecot/{load,store}` — the `dovecot-keywords` slot
    table: parser, serialiser, slot allocation, and its load and store
    machines.
  - `keywords` — custom keywords: slot resolution on write, the
    keywords header, and how an entry's flags read.
  - `maildir`, `maildir/*`, `store`, `path` — Maildirs, store layouts
    (nested or Maildir++) and the create, delete, list and rename
    machines.
  - `client` — the client options and the composite machines behind
    each client operation.
- `tests/` — tests driving the machines by hand and against an
  in-memory filesystem.
- `app/` — a blocking client running the machines against `std::fs`,
  with threads for parallel reads and `mail-parser` for parsing.
