# fastsl

A read-only viewer for local SwanLab logs: a Rust server for the SwanLab dashboard, whose logic is
verified with [Verus](https://github.com/verus-lang/verus).

```
fastsl --logdir <swanlog dir> [--host 127.0.0.1] [--port 5092] [--cache-dir <fast dir>]
```

The database of the log directory is never written. What a user changes (pinned and hidden charts,
collapsed namespaces, visible experiments, aliases and comparison groups) is an overlay, kept in
`fastsl-ui.json` beside the logs and merged on top of the database when it is read. An empty overlay
changes nothing.

## Layout

`src/` is the library. Every item of it is verified.

| Module | What it holds |
|---|---|
| `text`, `order`, `seqs` | texts, stable sorting, filtered lists |
| `json`, `codec` | JSON values as plain data; reading JSON, YAML and UTF-8 |
| `rows` | database rows as JSON objects |
| `records` | the project, its experiments and their documents |
| `placement` | pinned and hidden charts |
| `charts` | charts of an experiment |
| `comparisons` | the comparison of experiments, and the status groups of a chart |
| `series` | time series of tags, and their downsampling |
| `summaries`, `summary_cache`, `tails` | last values of tags, the cache of them, and last lines |
| `logs`, `paths` | console logs; paths that stay below the log directory |
| `uistate` | the overlay and its changes |
| `resp`, `api`, `api_fastsl`, `server` | answers to requests |
| `overlay_laws`, `chart_laws` | what holds of all overlays and of all chart pages |

The contracts speak of views: `JsonV` for a JSON value, `OverlayV` for an overlay, `Seq<char>` for a
text. Proof functions whose names begin with `law_` state what holds of several functions together.

What the library has from other crates is behind a few trusted functions, each with its contract:
`serde_json` and `serde_yaml` in `codec`, `moka` in `summary_cache`, `mime_guess` in `server`.

`app/` is the program around the library: arguments, HTTP, SQLite, files, threads, and the
floating-point parts of a series. It embeds the files of the dashboard from
`/usr/share/fastsl/frontend_dist/`.

`tests/` runs the library.
