# aube_kit

The decision logic of the aube package manager's embedding layer, resolver
version picking and `config get` command, written in Verus and proved
against its contracts.

- `src/text.rs`: character and byte helpers (equality, byte-wise order of
  time stamps, Unicode white space, ASCII lower-casing).
- `src/semver.rs`: the parsed versions and ranges of `node-semver`, and the
  trusted wrappers around its parser, `satisfies`, ordering and pre-release
  test.
- `src/range.rs`: range normalization, alias-prefix stripping, protocol
  detection and `version_satisfies`.
- `src/packument.rs`: the registry document of a package and key lookup.
- `src/pick.rs`: `pick_version` and `highest_stable_version`, their
  specification, and the laws proved of them.
- `src/install.rs`: package specs, add batches, settings, progress counters,
  event payloads, `.npmrc` omit flags and failure messages of an embedded
  install.
- `src/config_get.rs`: location choice, last-write-wins lookup and the line
  that `config get` prints.

`app/` holds the Node-API bindings and the command around the library:
argument types with their derives, file system work, and the async driver.
