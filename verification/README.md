# mariadb_kb_crawler

A crawler that mirrors the MariaDB knowledge base (`https://mariadb.com/kb/`)
to a directory tree, and a small server that serves that tree back over HTTP.

The rules of both are a library verified with Verus (`src/`):

- `scrape`: which links of a page are followed, and their canonical form;
- `paths`, `url_to_path`, `fs_path`: where a URL is stored in the archive, and
  which file the server sends for a request;
- `redirect`: the redirect files the crawler stores and the server follows;
- `crawler`, `recent_crawler`: the crawl queues, the pass over URLs already
  processed, the files written for a page, and the selection of changed
  articles from the change log;
- `req`, `last_updated`, `dates`, `method`, `kb_urls`, `server`: what is kept
  of a response, the date of the last complete scrape, the scrape kinds, the
  list of known URLs and the server's answers.

`src/bindings.rs` and the wrappers in `src/dates.rs` are the calls into
`lazy-regex`, `csv`, `chrono` and std whose contracts are trusted.

`app/` holds the program around the library: the command line, logging, the
HTTP client (`reqwest`), the file system, and the `axum` server.  The binary is
the crawler; started under the name `mariadb_kb_server` (a link or a copy), it
is the archive server.
