# pag

`pag` is the package manager of PaganLinux together with the services around
it: the package CMS server, the CMS backend and its build worker. The logic of
all of them is written in Verus and proved against its contracts; the
programs around that logic are ordinary Rust.

## Layout

- `src/` — the verified library.
  - `version`, `deps` — version order (epochs, numeric parts, release
    candidates), version requirements, and the dependency solver that finds
    what to install (dependencies first), upgrade, report missing or in
    conflict.
  - `package` — the `.pag` file format (magic, header, payload), payload
    decompression, install destinations and the repository index.
  - `crypto` — SHA-256, SHA-512 and BLAKE3 digests in hex and checksum checks.
  - `config`, `repo`, `db`, `i18n`, `flatpak`, `cli_types`, `commands` — the
    configuration, repositories, install records, messages in ten languages,
    Flatpak integration and the decisions behind each command.
  - `cms/` — the CMS server: passwords and sessions, build queue, Forgejo
    webhooks, handler helpers.
  - `backend/` — the CMS backend: settings, schema, services, access rules and
    the build worker's steps.
- `app/` — the executables (`pag`, `pag-cms-server`, `pagan-cms-backend`,
  `pagan-cms-worker`, chosen by the name the binary is started under): command
  line parsing, files, SQL, HTTP and processes.
- `tests/` — tests of the library on concrete values.

## What is proved

Each public function of `src/` states its result exactly over spec functions,
and the laws of the library stand as public proof functions: the version order
is reflexive and antisymmetric and a higher epoch always wins; version
requirements relate as their operators say; a package file reads back what
was written; removing a repository undoes adding it; the active repositories
are exactly the enabled ones, sorted by priority. The solver's result is
characterised by which names the request reaches.

Calls into outside crates (hashes, decompressors, Argon2, the clock, the
random generator) go through small wrappers whose contracts say what the
crates document.
