# jcm — Java Cacerts Manager

`jcm` imports TLS certificates fetched from HTTPS URLs into the JVM trust
store (`cacerts`) under managed `jcm-*` aliases, and never touches the JVM's
built-in CA entries.

## Layout

- `src/` — the library, verified with Verus. It holds the rules of the tool:
  alias naming and validation, chain selection, keytool output parsing and
  argument building, the built-in alias check, add/remove planning and the
  step-by-step runs that carry them out, trust-list
  parsing and merging, JVM resolution steps, elevation decisions, command
  reports and error messages. Every public function carries a contract, and
  the `law_*` proof functions state properties that span several functions.
- `tests/` — tests of the library on concrete values.
- `app/` — the `jcm` command: argument parsing (clap), running `keytool`,
  `java` and `sudo`, the TLS handshake (rustls), file and environment access,
  and printing. It gathers input, hands plain values to the library, and
  carries out what the library decides.

Calls into `sha2`, `x509-parser`, `pem` and `url` stay in the library behind
small trusted wrappers whose contracts name what those crates compute.
