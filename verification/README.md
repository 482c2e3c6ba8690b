# dsh_desktop

The logic of DSH Desktop, a native shell around the `dsh web` server, as a Verus-verified
library, with the Tauri program that drives it.

- `src/` — the verified library:
  - `text`: characters of strings, searching, white space, lenient UTF-8 decoding;
  - `ansi`: removal of terminal escape sequences and carriage returns;
  - `launch`: the scanner that picks the authenticated `dsh web: <url>` line out of streamed
    server output;
  - `semver`: finding, parsing and comparing version numbers in command output;
  - `i18n`: the UI language and the choice of text;
  - `server`: the server's address, the token probe, and the state kept about the server
    process with the decisions taken on its events;
  - `nav`: which page the main window shows and where it goes next; the tray menu;
  - `reports`: the results and messages about Node.js, installing and upgrading dsh, and
    failures;
  - `commands`: shells, launchers, arguments, search paths and the profile directory;
  - `plugins`: the plugins listed in the profile's `package.json`.
- `app/` — the Tauri program: windows, processes, terminals, sockets and files.
- `tests/` — tests of the library on concrete values.
