# tmml

The core of a Minecraft launcher, written in Verus: what it downloads for a
game version and from where, how it turns a `<version>.json` into a launch
command, how it reads the game's log4j console output, how it installs the
NeoForge and Fabric mod loaders over a vanilla version, and how it keeps its
instances, profiles and settings. The library's functions carry contracts
that Verus proves. The calls into outside crates and std that vstd does not
specify go through small trusted wrappers, whose contracts are believed
rather than proved; `platform::is_windows_host`, which depends only on the
build target, has no contract.

## Layout

- `src/` — the verified library.
  - `text.rs` — strings as character sequences: search, trimming, splitting,
    joining, decimal numbers.
  - `platform.rs` — the host's OS and architecture, native classifier keys,
    and the rule language of version files (with its laws).
  - `downloader/` — the version list and its paging, the shapes of the
    metadata files, and the plan of a version download (tasks, mirrors,
    phases, reuse of files already on disk).
  - `launcher/` — launch commands, native jars, the log4j event reader, the
    console assembler and the session registry.
  - `loader/` — Maven coordinates, version patches and their merge, the
    NeoForge catalogue, installer and processors, and the Fabric installer.
  - `instance.rs`, `profile.rs`, `config.rs`, `runtime.rs` — instances, game
    profiles, settings and the run state.
  - `skin.rs`, `log.rs`, `digest.rs`, `support.rs` — avatars, the log line
    format, digests, and identifiers and encodings from outside crates.
- `tests/` — tests on concrete values.
- `app/` — the command-line program around the library: files, HTTP, the
  pseudo terminal of the game, zip archives, and the serde forms of the
  library's types.
