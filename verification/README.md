# assetario

Loads the US cities data set (simplemaps) into DynamoDB and serves it to an AppSync
GraphQL API as a tree state -> county -> city, cached in S3.

- `src/` is the library, verified with Verus:
  - `structures` — the city records, the tree city, and the DynamoDB item of a city;
  - `text` — the byte order of strings that std uses, with its laws;
  - `tree` — the model of the tree and of the GraphQL answer, and the laws that tie
    the answer to the input cities;
  - `transform` — building the tree (`Transformer::insert`, `transform`) and the
    answer (`gql_tree`, `answer`), with a stable sort of each county's cities by name;
  - `retry_queue`, `worker`, `load`, `extract`, `cache` — the decisions of the loading
    pipeline: retrying failed chunks at most three times, the batch writes, handing
    chunks to the workers in turn, the download progress, the cache's object keys and
    status codes;
  - `handlers` — the DynamoDB queries of the resolver and how a request is routed.
- `app/` runs the two programs around it: the ETL job (download, unzip, CSV, tokio
  channels, DynamoDB writes, S3) and the Lambda resolver (`main appsync`).

## The tree as sorted vectors

The tree is kept as nested vectors sorted by name (`transform::Tree`, whose type
invariant says that every level is strictly sorted and no branch is empty) rather than
as nested `BTreeMap`s. vstd does specify `BTreeMap` and `HashMap`, but only for keys
whose order or hash it knows: with `String` keys the calls are accepted while nothing
about the map's contents follows from them, so no contract of `insert` or `gql_tree`
could be proved on top of them. With vectors, each level is searched by binary
search (`find` in `transform`), a city is appended to its county in place, and only a
new state or county is inserted into its vector by shifting the ones after it. Filing
`n` cities thus costs O(n log k) comparisons for `k` branches per level, as with a
`BTreeMap`, plus O(k) moves for each new branch; the order in which the states,
counties and cities come out is the same.
