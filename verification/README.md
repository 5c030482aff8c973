# TrackFish

A music player for offline libraries whose radio keeps playing tracks that
are similar to the current one.

The library in `src/` holds the player's logic, each function with a contract
proved by Verus:

- `track`: tracks, reading them from tag data, and name similarity. That
  white space and ASCII punctuation are ignored is proved; names are then
  compared after std's lower-casing, whose behaviour is taken as given and
  not stated.
- `queue`: play queues and the queue manager: skipping, going back, the
  radio hand-over, queue creation, genre and artist tables.
- `library`: bulk edits of artist and title tags, tag checks, tag editor
  operations.
- `search`, `ranking`, `listview`: searching by name, ranking albums,
  artists and genres, and the arithmetic of scrolling lists.
- `view`, `settings`, `input`, `control`, `media`: view state, keyboard
  shortcuts and the decisions of the playback loop.
- `text`, `timefmt`, `artwork`: string helpers, clock text, artwork paths.

`app/` is a terminal front end: it reads the music directory and its ID3
tags, runs the queue manager, weighs radio candidates, and on Android wires
up the media controls.
