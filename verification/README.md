# aleym_core

The core of the Aleym news aggregator, with its decisions verified by Verus.

- `src/` is the verified library:
  - `ml/scheduler.rs`: the calendar of fetches (a `BTreeMap` from times to sources), its
    scheduling, popping and unscheduling, and the limits on fetch intervals;
  - `db/news.rs`: grouping fetched items into versions, ordering versions, and planning which
    records a batch inserts, refreshes and demotes;
  - `db/history.rs`: the stored records after such a plan is carried out, and the proof that
    each source-provided identifier keeps one linear chain of versions;
  - `db/query.rs`, `db/signals.rs`: listing queries, `LIKE` escaping, feedback signal records;
  - `inform/`: the feed informant's redirection rules and entry conversion, and the Telegram
    page scraper's validation and conversion; the URL parser, feed parser, HTML scraper and
    cleaner are called behind trusted wrappers whose results are named;
  - `net/`, `scheduler.rs`, `services.rs`: routing of HTTP requests, the scheduler's timer and
    fetch signals, the proxy's replies, the choice of repository query;
  - `clock.rs`, `text.rs`: times as nanoseconds since the Unix epoch, and character helpers.
- `app/` is the input/output around it: the SQLite storage (entities, migrations, queries), the
  HTTP client, the informants' fetching, the scheduler's event loop, and the floating-point
  scoring of fetch intervals and recommendations.
- `tests/` exercises the library on concrete values.

Times are `i128` nanoseconds since the Unix epoch and identifiers are `u128`; `app/convert.rs`
converts them to and from `time::OffsetDateTime` and `uuid::Uuid`.
