# tgforward

A Telegram forwarder: it watches source chats (live, or by polling their history),
filters, rewrites and de-duplicates their messages, gathers albums, and sends the result
to a target chat.

- `src/` is the library, verified with Verus: text and UTF-16 handling, entity
  trimming, keyword filtering, replacement rules, the deduplicator and its saved
  record, album gathering, held-back texts, message routing, the progress store,
  flood-wait retries, send plans, configuration checks, and the decisions of the run
  loops.
- `app/` is the program around it: configuration from the environment, logging, files,
  the Telegram connection (grammers), thumbnail decoding, the worker pool and the async
  loops.
- `tests/` exercises the library on concrete values.
