# google_play_scraper_rs

Reads application details and user reviews out of Google Play Store pages and
RPC responses. The library under `src/` is written in Verus: every function
carries a contract and is proved against it.

- `init_data`: the `AF_initDataCallback` slices (`ds:N`) of a page; sparse
  JavaScript arrays are repaired (`sparse`) before they are parsed as JSON.
- `details`: the `AppDetails` of an app, read from its `ds:5` slice.
- `batchexecute`, `reviews`: the reviews RPC, from the request body to the
  page of `Review`s and the pagination token.
- `json`, `text`, `html`, `binary64`: JSON trees, character-level text
  operations, HTML-to-text, and binary64 numbers held by their bits.
- `client`: endpoints and the judgement of response statuses.

`app/` holds what the library leaves to its caller: the HTTP requests
(`reqwest`), the serializable forms of the types (`serde`), the error type with
`thiserror`, and the `async` entry points `get_app_details` and `get_reviews`.
