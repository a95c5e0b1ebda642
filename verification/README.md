# query

A client for the Linear GraphQL API — a `query` command that runs one query and
prints its data, and a `download_images` command that saves the images an issue
refers to — with its logic verified by Verus.

- `src/` is the verified library:
  - `text` — character-level string operations (prefix, suffix, substring search,
    decimal rendering) specified over `Seq<char>`;
  - `identifier` — issue identifiers such as `ENG-123`, with an `i64` parser;
  - `pattern` — compiled regular expressions (the `regex` crate) and what their
    searches return;
  - `images` — file extensions, image recognition, image-link extraction and the
    list of images an issue refers to;
  - `graphql` — request and reply types, and how a reply is judged;
  - `auth` — which token to use, the OAuth refresh exchange, and the
    refresh-and-retry cycle as a state machine;
  - `env_file` — rewriting the token lines of a `.env` file, and its search;
  - `cli` — the command line of the query tool;
  - `json` — JSON values (the `serde_json` crate).
- `app/` holds what the library leaves to its caller: HTTP (reqwest, tokio), the
  environment, files, JSON (de)serialisation with serde, and the two commands.
- `tests/` exercises the library.

The downloader's set of URLs already seen is a `Vec` searched in order
(`first_by_url`), not a `HashSet<String>`: vstd's `HashSet` specifications
speak of membership only for key types that obey its key model, which `String`
is not declared to do, so a contract could not say which URLs had been seen.
