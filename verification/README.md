# deckox

The verified core of Deckox, a web administration tool for Linux hosts that
lets an administrator perform only allow-listed operations from a browser.

- `src/` is the library, written in Verus: the rules that decide what the
  Agent may do on the host (service, software and reboot allowlists, the
  admin password check and its lockout), the parsers for what the host's
  tools print (`df`, `lsblk`, `systemctl`, `journalctl`, package managers,
  `/proc`), the Server's login, session and password-change logic, the event
  feeds, the audit log, the config-file rewriting, the update check, and the
  terminal service's settings and session steps.
  Each public function states its behaviour in `requires`/`ensures`, and the
  laws that span several calls are public proof functions.
- `tests/` runs the library on concrete inputs.
- `app/` is the thin command-line front: it reads files, runs the host's
  tools, converts JSON, and prints.
