# kz_login

A beanfun / MapleStory login helper: QR and password sign-in, GamaPass
sign-in in a hidden window, game accounts and their one-time passwords,
launch links for the local game manager, remembered logins, and a small
account browser.

- `src/` is the library, verified with Verus: parsing beanfun's pages and
  replies, decrypting the launch blob, the version check of updates, the
  remembered-login list, the browser's tab and cookie bookkeeping, the
  GamaPass watch, and the scripts injected into login pages. Calls into
  outside crates (serde_json, regex, des, sha2, hex, url, chrono,
  cookie_store) go through small trusted wrappers whose contracts say what
  the crate's source shows.
- `tests/` runs the library on concrete values.
- `app/` is the tauri desktop app around it: commands, windows, HTTP,
  WebView2, the registry and the disk.
