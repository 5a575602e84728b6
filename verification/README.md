# github-tools

Tools that fetch a GitHub repository's issues, pull requests, discussions and labels,
keep yearly JSON snapshots of them, load them into SQLite, summarise them as CSV, render
ECharts dashboards, publish project-health gauges to Datadog, purge stale container
images, close inactive pull requests, delete stale branches, move legacy type labels to
the Type field, and count the reactions to a review bot's comments.

## Layout

- `src/` — the library, verified with Verus: merging of fetched records, `--since`
  parsing, yearly bucketing, database partitioning, SQL of the summaries, chart data
  (trends, label rankings, contributor classification, heatmap), CSV rows, the HTML pages,
  Datadog tags and gauges with the daily history of snapshots, JSON record equality, purge and branch rules, stale pull requests, the label clean-up
  decisions and the review statistics. Calls into chrono, regex, semver, urlencoding, csv
  and std's `Debug` stand behind small trusted wrappers whose contracts are documented where
  they are declared.
- `app/` — the `github-tools` command line: argument parsing, environment, HTTP
  requests, SQLite, CSV and file I/O, chart rendering with charming, and the
  floating-point percentages of the review statistics.
- `tests/` — tests of the library on concrete values.
