# taildrop

The verified core of a Tailscale file-transfer companion (a desktop app and
a `taildrop` command line over `tailscale file cp` / `tailscale file get`).

- `src/` is the library, verified with Verus: the transfer history and the
  queue of received files awaiting a decision (`store`), matching sender
  sidecars to the files they describe, pruning history by age, choosing a
  save name that never overwrites an existing file (comparing names the way
  the save directory's file system does, with or without case); reading `tailscale file cp --targets` and
  `tailscale status --json` (`tailscale`); device statistics (`lib.rs`); the
  background receiver's supervision (`supervisor`); the command line's
  decisions and output (`cli`); and the laws that tie these together
  (`laws`).
- `app/` is the program around it: the `taildrop` command line, reading and
  writing the JSON state files, running the `tailscale` CLI, and the desktop
  shell (`app/gui`, which needs Tauri).
- `tests/` exercises the library on concrete values.
