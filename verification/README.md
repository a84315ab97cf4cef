# rango

The core of a Django-like web framework, written in Verus: models stored as table rows, the
SQL a store runs for them on SQLite or PostgreSQL, an in-memory store, sessions and logins,
the anti-forgery guard, the admin site's lists, forms and bulk actions, and the command line's
decisions. Each function states what it returns in its contract, and the laws that relate
several functions (a write read back, a cookie handed out and returned, a migration run twice)
are proof functions.

## Layout

- `src/` — the verified library.
  - `text`, `value`, `spec`, `model`, `cells`: text helpers, values and rows, schemas, models,
    typed cell readers and writers.
  - `dialect`, `statement`, `commands`, `repository`, `evolve`, `memory`, `deal`: SQL for each
    backend, the statements a repository sends, migrations, the in-memory store, transactions.
  - `session`, `auth`, `forgery`, `settings`, `encoding`: signed sessions, accounts and lockout,
    the forgery guard, the install secret, form bodies.
  - `admin`, `widgets`, `listing`, `list`, `rows`, `related`, `pages`, `actions`, `history`,
    `show`, `form`, `error`: the admin site.
  - `cli`, `console`, `migrations`, `derive`: the command line and the `Model` derive's rules.
- `tests/` — tests of the library on concrete values.
- `app/` — the program around it: the axum server, the sea-orm store, the console, templates.
