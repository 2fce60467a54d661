# osm_world

The verified core of osm-world, a 3D city renderer for OpenStreetMap data and
the local HTTP API that prepares map areas for it. The library in `src/` is
written in Verus: every function states what it does in `requires`/`ensures`
and is proved to do it.

## Layout

- `src/` — the library.
  - `extra_args`, `float_text`, `int_text`, `decimal`, `digits`: the
    allowlist of renderer flags a client may forward, and exact checks of the
    numbers given to them. A float text is judged by its exact decimal value
    against the rounding boundaries of `f32`/`f64`: the rules are proved
    against those boundaries, and the tests compare them with what
    `str::parse` gives on chosen values.
  - `shell`: shell quoting of the launch command, with a proof that a shell
    reads the quoted command line back as the original words.
  - `launch`: the renderer launch command and the confinement of client paths.
  - `host_policy`: which hosts the API may bind without authentication.
  - `access`: bearer-token checks, the trusted-proxy switch, rate-limit keys
    and CORS origins.
  - `rate_limit`: the per-client request limiter, with its window laws.
  - `prepared`, `digest`, `listing`, `errors`, `paths`: the prepared-area
    cache — keys, reuse decisions, metadata fallbacks, client updates, listing
    order and the API's error responses.
  - `tiles`, `render_layers`, `glyphs`, `search`, `visual_detail`,
    `area_switch`, `text`: streaming-tile bookkeeping, render-layer batching,
    the street-sign font, fly-to search and small UI state.
- `tests/` — tests of the library.
- `app/` — the `osm-world` command: argument parsing, the host policy at
  start-up, and an HTTP server that so far answers only `/health`, behind the
  library's authentication, rate-limit and CORS decisions. The area routes
  (prepare, list, update, delete, launch) need the map-data crate, which is
  not part of this build. The parts that compute with floating point are
  there too.
