# gitclub

A small self-hosted Git server: a web API for browsing groups and
repositories, accounts with session cookies, member management, Git smart
HTTP (fetch and push), and an embedded web interface.

## Layout

- `src/` — the verified library (Verus). Every decision the server makes
  lives here with its contract:
  - `scanner`, `tree`, `visibility` — the repository tree: which directories
    are groups and repositories, how they nest, and what each user sees;
  - `api` — where new groups and repositories go, who may open them, group
    pages (listing, ordering, sizes), repository pages and file requests;
  - `auth` — sign-in, registration, tokens' users, profile answers;
  - `db` — record planning, accessible paths, the path access check;
  - `git_http` — the Git smart-HTTP exchange as a state machine;
  - `git_output` — reading what `git` prints;
  - `routes` — routing of non-API requests; `config` — `app.ini`;
  - `meta` — the `group.json` / `repo.json` metadata files;
  - `numfmt`, `avatar`, `paths`, `text` — number and size text, identicons,
    paths, and string helpers with their specifications.
- `tests/` — tests of the library on concrete values.
- `app/` — the server itself (axum, sqlx, file system, `git` processes), which
  gathers inputs, calls the library, and performs what it decides.
