# rdrillog

A log filter: it keeps the lines of a log file that a pattern finds (with an
optional extra pattern, an exclusion pattern, a strict mode that keeps only
the matched text, a match-only pattern and de-duplication), writes them to an
output file, can serve that file over HTTP and refresh it periodically, and
can chart what it found in the terminal.

- `src/` is the verified library: the filter (`parser`), the merge of
  the output file (`file_mgmt`), the option checks and chart data
  (`sanitizer`, `dates`, `graph`), the web server's decisions
  (`web_server`), string and decimal helpers (`text`, `decimal`), the
  regular-expression and date calls (`pattern`, `dates`) and the laws the
  library keeps (`laws`).
- `app/` is the program around it: arguments, files, the terminal charts and
  the HTTP server.
- `tests/` runs the library on concrete values.
