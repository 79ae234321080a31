# r34_hooks

A library, verified with Verus, for watching the rule34.xxx API for new posts
of chosen tags and handing them to hooks, plus the runner program around it.

- `src/` — the verified library:
  - `text` — whitespace, trimming, splitting, joining, decimal parsing;
  - `models` — posts and listings, a post's tags;
  - `hooks` — Discord, local-directory and command hooks and what they send;
  - `assoc`, `watch` — text-keyed maps and the watchers of a scraper;
  - `config` — configuration types, the watch map of the targets, the
    format of a configuration file by its extension;
  - `env` — configuration of a scraper by `R34_` environment variables;
  - `client` — the query of each API request;
  - `persistence` — the local store of last seen post ids (JSON);
  - `search` — the search for a watcher's new posts, as a state machine;
  - `scraper` — the scraper and its run over all watchers, as a state machine.
- `app/` — the runner: configuration files, HTTP, files, processes, the
  PostgreSQL store and the scheduler. It answers the library's requests.
- `tests/` — tests of the library on concrete values.
