# stellaris

A minimalist static blog generator: posts written in Markdown with a YAML
front matter block, pages in several languages, an RSS feed and a search
index per language, and a development server that rebuilds on change.

## Layout

- `src/` — the library, verified with Verus:
  - `text` — characters, Unicode trimming, search, string order, decimals
  - `html` — plain text of HTML fragments and HTML escaping
  - `date` — calendar dates, their `%Y-%m-%d` text, chrono's parsing and RFC 2822 output
  - `config` — the site configuration, its defaults, the languages a build covers
  - `sort` — stable sorting by a strict weak order
  - `content` — posts, the split of a post file into front matter and body, summaries
  - `tags` — the tag table and the posts of a tag
  - `paging` — index pages, links between them and the index figures
  - `feed` — the RSS feed (written by the `rss` crate)
  - `markdown` — Markdown rendering (pulldown-cmark, with syntect for code blocks)
  - `site` — the root redirect page, the search index, build and reload decisions
  - `gui` — the state of the desktop editor and the steps of a deployment
  - `prepare` — the posts of a language made ready for its pages
- `app/` — the command line program: reading files, templates (tera),
  configuration (toml), YAML front matter, the development server (axum).
- `tests/` — tests of the library.
