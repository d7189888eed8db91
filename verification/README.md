# mdterm

A service that exposes directories of Markdown files ("contexts") over HTTP
and WebSocket: file listings, a directory tree, file contents, change
notifications and interactive terminals.

- `src/` is the verified library, checked by Verus:
  - `config` — the configuration and the lookup of a context by name;
  - `text` — name predicates (Markdown extension, hidden and scratch files)
    and the order of names;
  - `order` — sorting by name;
  - `ignore_rules` — `.gitignore` rules, compiled with the `ignore` crate;
  - `listing` — which entries of a directory a listing shows, and in which
    order;
  - `tree` — the Markdown tree, built one directory listing at a time;
  - `watch` — which file changes are reported, and as what;
  - `session` — the notification and terminal protocols as step functions;
  - `api` — the endpoints' error answers, the access rule for file contents
    and the health report.
- `app/` is the program around it: configuration file, file-system access,
  the actix-web routes and WebSocket loops, the file watcher and the
  pseudo-terminals.
- `tests/` exercises the library on concrete values.
