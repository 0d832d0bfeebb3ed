# DriftDNS

A dynamic DNS updater for `A` and `AAAA` records. It detects the host's
public address, compares it with the last address in its history file,
updates the DNS records of that type at Cloudflare, and advances the history
only once every record of the type was written.

## Layout

- `src/` is the library, verified with Verus: the configuration and its
  checks, duration and detector-list parsing, the choice and random order of
  the IP detectors and the fallback between them, the DNS wire format of the
  `whoami.cloudflare` TXT/CH query and its response, the history and its file
  format, the Cloudflare API decisions, the dashboard's routing, responses
  and state, log lines, and the run loop's steps. The contracts state what
  the functions return. Where a result rests on the clock (`query_id`) the
  computation on the clock's reading is a function of its own with an exact
  contract (`query_id_of`); the loggers only write a line, whose text
  `format_log_line` states; an HTTP header value is stated by the bytes it
  holds. The `law_*` proof functions state properties that span calls.
- `app/` is the program around it: command line, YAML configuration file,
  HTTP and UDP requests, files, timers and the dashboard server.
- `tests/` runs the library on concrete values.
