# shinnku

The verified core of a file server for a game archive.

- `src/` is the library, checked by Verus:
  - `vfs`: the virtual file tree (lookup and insertion by path, its serialisable
    form) with proved laws on reading back what was stored;
  - `file_list`: file identifiers (name-based UUIDs), storage keys, download
    sources and cached links;
  - `drivers`: routing of downloads to providers, OneDrive source tokens,
    link expiry and the requests made to the provider;
  - `file_meta`, `ai_search`, `hot`, `download`, `config`, `meta_manage`,
    `file_list_loader`: the data types and the decisions of the search,
    statistics and download paths;
  - `text`: string splitting and joining with exact specifications.
- `app/` holds the I/O: HTTP handlers, Redis and PostgreSQL access, provider
  clients, the search indexes, and serialisable copies of the library's types.
- `tests/` runs the library on concrete values.
