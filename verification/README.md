# unleash_proxy

A proxy between browser clients and an Unleash feature-flag API server. It
answers a GET of `/` with the state of every toggle for the Unleash context
given in the query (`environment`, `appName`, `userId`, `sessionId`,
`remoteAddress`, and `properties[name]=value` for custom properties), and it
aggregates the metrics that clients POST to `/client/metrics` before sending
them upstream every 30 seconds.

Layout:

- `src/` is the library, verified with Verus:
  - `text.rs`: comparisons of strings by their characters;
  - `properties.rs`: the names of custom properties (`extract_key`);
  - `strmap.rs`: a string-keyed map with distinct keys;
  - `url_query.rs`: the decoded pairs of a request's query, read with the
    `url` crate;
  - `context.rs`: the context of a request, read from the pairs of its query;
  - `toggles.rs`: the toggles document and the evaluation of strategies;
  - `metrics.rs`: the aggregation of metrics and the upload batches;
  - `routes.rs`: which handler answers a request, and how.
- `app/` is the server around it: hyper, the Unleash client, JSON, timers.
- `tests/` holds the tests of the library.
