# idota

Tools around Dota 2 Game State Integration (GSI), with the logic verified by Verus.

- `src/` — the verified library:
  - `draft.rs`: reads the `draft` section of a GSI payload (picks, bans, timers);
  - `json.rs`: the JSON value model the readers work on;
  - `discovery.rs`: which Steam roots are searched, and where Dota 2 is installed given what
    the file system reports;
  - `vdf.rs`: VDF tokens and string escapes, and the `path` values of `libraryfolders.vdf`;
  - `gsi_config.rs`: the GSI configuration file and the server address;
  - `text.rs`: character-level helpers.
- `app/` — the `dota2-assistant` command line program (`find`, `setup`): file system
  access, environment, argument parsing, and serde reading of draft payloads.
- `tests/` — tests of the library.
