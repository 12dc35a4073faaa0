# mcm_finder

The verified core of a multi-provider Minecraft mod finder: request validation and
sanitization, provider selection, pagination, the per-client rate limiter, the normalization
of Modrinth search hits and project details, cache keys and cache freshness of the command
line, session assembly, and the texts the tools print.

- `src/` is the library, written in Verus. Every function carries a contract, and the
  properties that span functions are stated and proved as `law_*` proof functions
  (for example the sliding-window guarantee of the rate limiter, the tiling of result pages,
  the order-independence of cache keys, and the idempotence of sanitizing).
- `tests/` runs the library on concrete values.
- `app/` is the ordinary Rust around it: the command line (clap, reqwest, colored,
  indicatif), the HTTP server (axum) with its rate-limiting middleware, the SQLite cache
  (sqlx), and the serializable forms of the library's types (serde).

UUIDs are held as their 128-bit values and instants as seconds and nanoseconds since the Unix
epoch; the calls into `uuid`, `chrono`, `sha2` and a few `std` text functions stand behind
small trusted wrappers whose contracts say what the library relies on.
