# pg-harden

PostgreSQL security hardening scanner: checks SCRAM authentication, SSL,
dangerous pg_hba.conf authentication methods and the reject-all default
rules, across single hosts, hostnames and CIDR blocks.

## Layout

- `src/` — the verified library (Verus). pg_hba.conf parsing and include
  expansion (`checks/pghba.rs`), the four checks and their registry
  (`checks/`), IP address parsing and display (`ip.rs`), target resolution
  with CIDR expansion through `ipnet` (`target.rs`), scan planning from the
  command line (`cli.rs`), connection decisions (`connection.rs`), reports
  and exit codes (`output.rs`). Public `law_*` proof functions state the
  properties that hold across calls.
- `app/` — the program around it: argument parsing (clap), DNS lookups,
  file system access, PostgreSQL connections (tokio-postgres, rustls) and
  printing. Outside work that the library's step-by-step types ask for
  (`HbaLoader`, `TargetCollector`) is performed here and handed back.
- `tests/` — tests of the library on concrete values.
