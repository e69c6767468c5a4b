# pad

The rules of Pad, a collaborative notepad server with a PIN-protected web
interface, as a verified library, with the web server glue around it.

- `src/` — the library, verified with Verus:
  - `redirect`: which redirect targets the login flow accepts, and where the
    root and login pages send a visitor (the requested URI is
    percent-encoded with the `percent-encoding` crate).
  - `auth`: PIN format, PIN verification verdicts, the authentication
    cookie check, lockout and attempt counters, cookie settings.
  - `rate_limit`: the per-client request budget (100 requests per sliding
    minute), with laws over whole request histories.
  - `notepads`: unique notepad names, new notepad identifiers, and keeping
    the notepad list in step with the text files on disk.
  - `theme`, `i18n`: theme cycle and icons, interface language selection.
  - `text`: string helpers stated over `Seq<char>` views.
- `tests/` — tests of the library on concrete values.
- `app/` — HTTP handlers (axum), file storage (tokio), JSON forms (serde)
  and browser glue (yew, web-sys). File-name sanitizing, client address
  resolution, login attempt tracking, search indexing and data migration
  are reached through the `ServerParts` trait.
