# deno_graph

Parts of a module graph, verified with Verus:

- the dependencies that a program states (`dep`, with `syntax`, `comments`, `analysis` and
  `import_attributes`),
- the metadata of JSR packages (`packages`, with `json`),
- the packages that a module graph uses (`package_specifiers` and `package_history`, with `semver`,
  `order` and `ordered_map`),
- the version that a requirement resolves to (`version_resolution`).

`src/` is the library. Version requirements, JSON values and comments stay in the hands of
`deno_semver`, `serde_json` and `deno_ast`; what is believed of those crates stands at the
functions that call them. `app/` connects the library to swc syntax trees and to serde.
