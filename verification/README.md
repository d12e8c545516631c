# inlay_hint_cache

A verified cache for the inlay hints of an editor. It keeps the hints that the language
servers gave for each excerpt, decides which excerpts have to be asked about again, compares
fetched hints with the cached ones, and tells the editor which inlays to remove and insert.

- `src/` is the library. Every function states what it returns or changes.
  - `anchor`, `clock`, `hint`: positions, versions and hints.
  - `order`: hints in the order of their positions.
  - `query`: what is asked of the language servers, and for which ranges.
  - `updates`: what fetched hints change in the cache and in the editor.
  - `splice`: what the editor changes when other kinds of hints are allowed.
  - `tasks`: the tasks that fetch hints, and what becomes of them.
  - `cache`: the cache itself.
  - `laws`: what holds across several operations.
- `tests/` runs the library on examples.
- `app/` connects the library to an editor, its executor and its language servers.

The order of two anchors is known to a buffer alone, so a `BufferSnapshot` lists the anchors
with their ranks: all that can come to be compared, those of hints that are fetched later among
them. The only outside call of the library asks a channel of `smol` whether it is closed. Nothing
is assumed of the answer; the contracts say which channels are asked and what follows from what
they answer.
