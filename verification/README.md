# trackerdl

A terminal downloader for music tracker sheets: it loads a tracker from the
tracker service, lists its eras, and downloads the tracks of the chosen eras
from their file hosts, several at a time, with retries and progress.

The library in `src/` holds the logic, verified with Verus:

- `links`: tracker ids, track links, hosts and formats of links;
- `tracker`: the tracker document, its era list and statistics;
- `session`: the interactive session (selection, cursor, keys, status texts);
- `resolve` and `pages`: how a link is turned into a file URL, and what is
  read from the pages and answers of the hosts;
- `fetch`: which tracks are fetched, file and folder names, throttling;
- `download`: the progress of a batch, speeds, retries with backoff;
- `format`: sizes, speeds and durations as text;
- `text`, `collections`, `crates`: string helpers and the contracts of the
  outside calls (regex, base64, scraper, sanitize-filename, indexmap).

`app/main.rs` is the program around it: command line, HTTP, files, the
terminal screen and the background tasks.
