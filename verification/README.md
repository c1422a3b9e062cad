# ivlyrics_bridge

A local lyrics bridge for the ivLyrics Spotify extension: it looks lyrics up on
Musixmatch, Deezer, Bugs and Genie and answers them as LRC or plain text.

- `src/` is the library, verified with Verus: text normalisation and matching, the
  providers' parsers (HTML scraping, JSONP, synced-lyrics formats), the search order,
  the choice among providers in automatic mode, the lyrics cache, the request and
  configuration answers, the update commands and the allowed origins. Each public
  function states its result in its `ensures`; the laws that span several functions
  are public proof functions (`lemma_*`).
- `app/` is the server around it: HTTP handlers, the provider clients, files, the
  log, processes and the clock.
- `tests/` runs the library on concrete values.
