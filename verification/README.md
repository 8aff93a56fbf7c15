# scorarium

The library behind a catalog of printed and digital sheet music: the publication and work forms
and their rules, import drafts and how edits fold into them, canonical ISBN and ISMN forms, what
an Open Library record becomes, login sessions, and what the pages decide and show. Every
function in `src/` carries a contract that Verus checks.

- `src/` — the verified library. `text` holds the string model the contracts are stated in;
  `identifier`, `links` and `session` reach the `isbn`, `url` and `getrandom` crates through a
  few trusted wrappers whose contracts are written next to them.
- `tests/` — tests of the library on concrete values.
- `app/` — the program's command line and logging, the serde shapes of what the browser posts,
  and the session store shared between threads.
