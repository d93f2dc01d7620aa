# matcha

A peaceful package manager: registries publish manifests of packages, and packages are
installed into workspaces.

`src/` is the library, verified with Verus: version specs and their intersection, the
merging of package requests, the changesets that an install, update or removal of
packages makes in a workspace, the checks on fetched manifests and registries, the rules
of the commands, and the text that the program shows. The laws that the library keeps
are stated as public proof functions next to the specs they speak of (`law_*`).

`src/adapters.rs` holds the trusted calls into `shellexpand`, `url`, `time` and the
parts of std that Verus has no specification of.

`app/` is the program around the library: the command line (`clap`), the state database
(`sqlx` on SQLite), downloads (`reqwest`), builds, and the TOML form of manifests
(`serde`, `toml`).
