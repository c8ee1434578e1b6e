# kb-mod-monitor

Watches the keyboards under `/dev/input` and tells clients of the UNIX socket
`/run/kb-mod-monitor.sock` when Caps Lock or Num Lock is engaged or released.
Each change is one ASCII byte: `0`/`1` for Caps Lock off/on, `2`/`3` for Num
Lock off/on. A new client first receives the current state.

Layout:

- `src/` — the library, verified with Verus: the lock state and its diffs
  (`keyboard`), the lock keys and their codes (`key`), the wire format
  (`client`), the choice of XKB updates and the initial modifier mask
  (`xkb_state`), and the registry of keyboards and clients with the poll
  decisions of the event loop (`state`).
- `app/` — the program: device enumeration, sockets, inotify, polling and the
  calls into libxkbcommon, all driven by the library.
- `tests/` — tests of the library.
