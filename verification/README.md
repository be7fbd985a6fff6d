# nodejs_resolver

A Node.js module resolver whose logic is verified with Verus: given a directory
and a request (`./foo`, `lodash/fp`, `#internal`, `@scope/pkg?query#fragment`),
it finds the file that Node.js, webpack or TypeScript would load.

```rust
let resolver = ResolverBuilder::new(my_file_system).build(ResolverOptions::default());
// <cwd>/node_modules/foo/index.js
resolver.resolve("/cwd/src", "foo");
// <cwd>/src/foo.js
resolver.resolve("/cwd/src", "./foo");
```

The resolver reads the file system only through the `FileSystem` trait, which
the caller implements (`app/main.rs` implements it over `std::fs`). Its answers
are not modelled; instead each resolution records, in ghost fields of its
`Context`, what the file system answered (the kind of each path asked about,
the description files searched for, the answers about symbolic links, the
tsconfig texts read) and, for each step, the steps and nested resolutions it ran
itself with what each gave back (a nested resolution also with whether it
was started to take its request as fully specified). The contracts are stated over these records:
the order of the steps of a resolution, the first finished state being the one
returned, the nested resolutions that aliases, fields, main files, modules
directories and tsconfig `paths` hand on, and, for `Resolver::resolve_in`, that
what is found is a path the file system said is a file (or its real path by the
recorded links).

## Layout

- `src/parse.rs`, `src/kind.rs`, `src/request_path.rs`: requests, their kinds,
  and the module name and subpath of a bare request.
- `src/map.rs`: the `exports` and `imports` fields of `package.json`.
- `src/description.rs`, `src/json.rs`: description files and the JSON values
  they hold.
- `src/path.rs`, `src/info.rs`, `src/rules.rs`: paths, the directory and request
  being resolved, and the decisions the resolution steps take.
- `src/resolver.rs`, `src/plugin.rs`, `src/resolve.rs`, `src/entry.rs`: the
  resolution itself, step by step, over the file system.
- `src/tsconfig.rs`, `src/tsconfig_path.rs`: `baseUrl`, `paths` and `extends` of
  a tsconfig.
- `src/binding.rs`: options and results as a JavaScript caller sees them.
- `app/main.rs`: a command line front end over the real file system.
