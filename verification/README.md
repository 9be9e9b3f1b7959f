# vitre-app

The verified core of the Vitre chat client: what the chat view decides,
computes and parses, with contracts proved by Verus.

- `src/` — the library. One module per concern: composer tokens and menus
  (`composer`, `menu`, `overlays`), inline chips (`inline`), attachments (`attachments`),
  plans (`plan`), the diff panel's rows and queries (`diff`, `diff_panel`,
  `diff_state`), the timeline and its row fingerprints (`timeline`,
  `fingerprint`, `rebuild`, `revert`, `smoothing`), providers and the model picker
  (`providers`, `picker`, `settings`, `notices`), git actions and branches
  (`git`, `branches`), the shell snapshot (`shell`, `threads`, `drafts`,
  `sending`, `warm_roots`, `changed_files`), and shared text helpers
  (`text`, `order`, `time`). Laws that relate several calls are public proof
  functions named `law_*`.
- `tests/` — behaviour tests of the library, run against the real `base64`,
  `chrono` and `serde_json` crates.
- `app/` — the edges that touch the disk or need floating point: the draft
  store, the favorites and panel-state files, reading files to attach, and
  the context-meter labels.
