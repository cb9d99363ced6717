# onelauncher_logs

Verified core of a Minecraft launcher's log and content-provider handling.

- `src/text.rs`: left-to-right, non-overlapping string replacement, with
  laws on what it removes and what it cannot create.
- `src/secrets.rs`: account details, UUID formatting and the censoring of
  user names, access tokens, player names and UUIDs in log text.
- `src/logs.rs`: censored log output, the log cursor that follows a growing
  file, chunked reading, log formats and the ordering of log files.
- `src/facets.rs`, `src/providers.rs`: content providers, loaders, package
  kinds, search facets and the decisions taken before a provider is asked.
- `app/`: file I/O around the library, and serde copies of its
  types.
