# yoink

The logic of Yoink, a clipboard-history desktop app, as a library verified
with Verus, and the Tauri application around it.

- `src/` — the verified library:
  - `database.rs`: the clipboard store (history items, collections, tags and
    item–tag links) with the ordering and constraints of its SQLite tables,
    foreign keys included (a link names a stored item and tag, and goes when
    its item goes); listing with `LIKE` search, paging, pinning, history
    limits, expiry.
  - `clipboard.rs`: hashing, previews, content classification, and the
    capture step that skips repeated content.
  - `settings.rs`, `exclusions.rs`, `paste_helper.rs`: settings and their
    edits, excluded apps, the app to paste back into.
  - `input_monitor.rs`, `hotkey_poll.rs`, `window.rs`, `tray.rs`: the state
    machines of quick-switch and hotkey mode, and the tray menu.
  - `text.rs`: trimming, substring search, SQL `LIKE`, text order, hex and
    decimal renderings.
  - `codec.rs`, `platform.rs`, `hotkey.rs`, `qrcode.rs`: the calls into
    `sha2`, `base64`, `chrono`, `uuid`, `global-hotkey` and `qrcode`, each
    behind a small trusted function whose contract is stated in its doc comment.
- `tests/` — tests of the library on concrete values.
- `app/` — the Tauri application: commands, the SQLite file the store is
  loaded from and written back to, the settings file, windows, keyboard and
  clipboard access.
