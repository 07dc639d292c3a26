# workspace_fs

A file server for a directory ("repository") over HTTP, with per-path
access rules, plugins that generate content, and a client that proxies
each repository with a fixed identity.

The library in `src/` holds the decisions, each with a contract proved by
Verus:

- `path`: repository paths as they arrive in URLs and configuration.
- `policy`: which rule governs a path (most specific, then last).
- `settings`, `rules`, `setting_value`, `plugins`: the configuration
  rules, plugin settings and plugin command lines.
- `server`: the repository server (configuration, identities, policies,
  file operations' verdicts, HTTP answers, command line).
- `hooks`: the hook-running server (plugins fired by requests, run by
  hand or by task, with their dependencies first).
- `client`: the user configuration, the proxy's rules, server start-up,
  tasks and the REPL.

`app/` is the program around it: it reads files, serves HTTP with axum,
starts processes and forwards requests; every decision it takes comes
from the library.
