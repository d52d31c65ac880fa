# simplicityhl

The front of the SimplicityHL compiler, written and proved in Verus.

- `src/` is the library. Verus proves the contracts of its functions, with the exceptions
  named below.
  - `text` holds the operations on `&str` that the rest is built from.
  - `directive`, `placement` and `blank` find the `simc "<version>";` directive among the items
    of a file, say where it stands, and blank it for the parser.
  - `requirement` and `version` read versions and version ranges, and check the directive
    against the compiler.
  - `unstable` holds the features that have to be enabled by name, and `expansion` plans the
    impl that `derive(RequireFeature)` writes.
  - `source`, `error` and `render` hold source files, errors and the way they are shown.
  - `frontend` names the stages that are handed in: the parser, the driver, the analysis and
    the translation to Simplicity.
  - `parsing`, `loading`, `layout`, `assignment` and `program` lead from a source text to a
    template, a compiled program and a satisfied one, and `agreement` says when two runs give
    the same.
- `tests/` runs the library.
- `app/` is ordinary Rust around the library: the traits of outside crates on its types, the
  tokens of the derive macro, and steps on Simplicity target code.

Nothing is proved of five functions, whose contracts are believed: those marked
`#[verifier::external_body]`, three in `requirement`, for the `semver` crate, one in `render`,
for `chumsky`, and one in `error`, for `itertools`. The methods of `frontend::Frontend` have no
contract at all: what is proved of a program speaks of whatever they return.
