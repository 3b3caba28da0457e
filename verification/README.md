# Release Radar

A WaveFlow plugin that surfaces recent releases from the artists in a music
library, sourced from MusicBrainz with covers from the Cover Art Archive.

The decisions are a library verified with Verus; the host's work (the scratch
store, the network, waiting, JSON) is ordinary Rust around it.

- `src/calendar.rs`: civil dates, the cutoff date, and why comparing dates as
  text is sound
- `src/text.rs`: decimal digits and the byte order of texts
- `src/query.rs`: artist names, Lucene phrases, percent encoding, addresses and
  requests
- `src/release.rs`: which release-groups count, and the list they are merged
  into, ordered and capped
- `src/scan.rs`: the incremental scan as a machine of events and actions
- `src/runs.rs`: what holds of whole scans: bounded batches, spaced requests,
  an end, a clean stop on a rate limit, a cursor that resumes, well-formed
  caches
- `src/sweeps.rs`: what holds of rescans and of scans that follow each other
- `src/descriptor.rs`: the page that the host draws
- `src/json.rs`: the page as a JSON value, without what is absent or empty
- `src/plugin.rs`: the sidebar entry and its events
- `app/`: the plugin on a host, and how JSON is read and written
- `tests/`: the library on concrete values
