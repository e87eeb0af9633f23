# stargaze

Cache and search your GitHub stars from the terminal.

`src/` is a library in Verus: what it computes is stated in contracts and
proved. `app/` is the program around it, which parses arguments, talks to
GitHub, opens the database file and runs the servers. `tests/` runs the library.

| Module | What it holds |
|---|---|
| `text` | lowercase, trimming, splitting, decimal numbers, shortening |
| `json` | JSON values, and the text that `serde_json` reads and writes |
| `repo` | repositories, read from items of the GitHub API |
| `links` | Link headers |
| `github` | requests to the GitHub API and what becomes of the replies |
| `auth` | which token is used |
| `cache` | the least-recently-used cache of query results |
| `index` | which repositories a query finds, how strongly, in what order |
| `listing` | repositories by the number of stars |
| `store` | the tables of the database |
| `query` | query strings of URLs |
| `replies` | hits, listings, records and statistics as JSON |
| `mcp` | the Model Context Protocol server |
| `api` | the HTTP API |

Contracts speak of views: texts are `Seq<char>`, a JSON object is a `Map`, the
store is a `Map` from full names to bytes, a search is a relation between the
indexed repositories and the hits that are shown. What holds of all inputs, or of
several calls together, is stated and proved in public proof functions.

What comes from other crates is called through functions marked
`external_body`, each with a comment that says what is believed of it. Scores are
floating-point numbers; the library is handed, for every repository, the score
of a hit of each weight, and compares scores by an integer that grows with them.
