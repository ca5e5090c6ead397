# cspm

A package and project manager for Csound modules: projects declare their
modules in `Cspm.toml`, pin them in `Cspm.lock` with SHA-256 checksums, and
install them from a remote registry through a global cache.

## Layout

- `src/` is the library, verified with Verus. It holds the decisions the
  commands take, each with a contract:
  - `version`, `names`: version numbers and `name@version` entries;
  - `collections`: string maps and sets without repeated keys;
  - `json`, `registry`: the local indexes of installed and cached modules,
    read from and written to JSON;
  - `remote`: registry index entries, resource addresses, version choice;
  - `manifest`, `lock`, `project`: the manifest, the lock file, new projects
    and removal requests;
  - `walk`: the order in which a dependency tree is installed or removed;
  - `checks`, `gitignore`, `actions`: the publish, validate and sync checks,
    and the install, update and plugin decisions;
  - `path_order`, `checksum`: the order in which a module's files are
    taken, and module checksums;
  - `csound`: the Csound version;
  - `cli`: the commands as plain values;
  - `text`: splitting and trimming text.
- `tests/` exercises the library on concrete values.
- `app/` is the command-line program: argument parsing, files, network
  downloads, the outside programs (Csound, Risset) and the messages shown to
  the user; it calls the library for the decisions listed above.
