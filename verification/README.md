# rpg_top

The `/top` live Postgres monitor: a terminal UI that samples
`pg_stat_activity` once per refresh interval and shows a header bar, an
Activity table and a footer, with keys to sort, scroll, change the refresh
interval and cancel or terminate backends.

## Layout

- `src/` — the library, verified with Verus:
  - `state.rs` — the UI state machine (`App`), its key handling, the refresh
    prompt, kill confirmations and the laws they keep;
  - `views/activity.rs` — row ordering, cell text and colour roles of the
    Activity table;
  - `renderer.rs` — header, footer and frame-size rules;
  - `caldate.rs` — Unix time to calendar date and `strftime`-style output;
  - `decimal.rs` — decimal number texts (sign, digits, `.`, exponent) and
    their exact values, behind the refresh prompt;
  - `keys.rs`, `keyfont.rs` — key labels and the block font of the key
    overlay;
  - `args.rs`, `sampler.rs`, `sql.rs`, `text.rs` — flags, sampler outcomes,
    the SQL it runs, and the text helpers the rest is built from.
- `app/` — terminal setup, the event loop, ratatui drawing and the
  `tokio-postgres` queries, all driven by the library.
- `tests/` — tests of the library.
