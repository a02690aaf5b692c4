# mac-dock

A macOS-style dock, application drawer and notification center for
Hyprland and Sway. The decisions these programs make are a library whose
behaviour is stated in `requires`/`ensures` contracts and proved with
Verus; the GTK windows, sockets, files and processes around it are plain
Rust.

## Layout

- `src/` — the verified library:
  - `dock`, `dock_actions`, `autohide`: what the dock shows (pinned and
    running applications, their order, icon scaling), what its menus do,
    where its window sits and when autohide shows or hides it;
  - `drawer`, `search`, `calc`, `categories`, `desktop_entry`,
    `desktop_search`: the application drawer — `.desktop` parsing with
    locale fallback, categories, the pinned row, subsequence and file
    search, and the arithmetic expressions of the search box;
  - `notifications`: popup stacking, timeouts, Do Not Disturb, the
    history panel grouped by application, and what clicking a
    notification does;
  - `compositor`, `sway`, `events`: compositor detection, the requests
    sent to Hyprland and Sway, the i3-ipc framing, the Sway tree walk and
    the Hyprland event stream;
  - `launch`, `signals`, `instance`, `pinning`, `flags`, `css_imports`,
    `text`: launching commands, control signals, single-instance lock
    files (named by the MD5 digest of the user), the pin file and
    drag-to-reorder, legacy flags, stylesheet imports and the string
    helpers they share.
- `tests/` — tests of the library on concrete values.
- `app/` — the three programs (`mac-dock`, `mac-drawer`,
  `mac-notifications`, one binary chosen by its name): command lines,
  GTK and layer-shell windows, compositor sockets, the D-Bus server,
  signal threads and file access.

Besides the contracts of its functions, the library proves laws such as:
pins written to the pin file read back the same, the dock's window order
is a sorted rearrangement of the windows, reading the event socket in
chunks gives the same events as reading it at once, the drawer loads
each application once, and popups never exceed their limit.
