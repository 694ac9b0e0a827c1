# Clipboard Vault

A self-hosted team vault for pasted text and files. `src/` is the verified
core of the server, checked with Verus: path, tag and file-name rules, text
kind detection, preview classification and byte ranges, the resumable upload
protocol and disk admission, workspace roles and limits, configuration, error
answers, asset fingerprints and byte formatting. `src/laws.rs` and the
`law_*` proof functions state the properties that hold across operations.

`app/` is the HTTP server around it (Axum, PostgreSQL through SQLx, the
authentication service through Reqwest); it reads requests, files and the
database and hands the decisions to the library. `tests/` exercises the
library on concrete values.
