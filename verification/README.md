# lime-bit

A desktop BitTorrent/HTTP download client built on gosh-dl. The crate's
library (`src/`) holds the client's logic with Verus contracts and proofs;
the desktop program (`app/`) runs the engine thread, the file and process
calls, and the GPUI window around it.

Library modules:

- `text`: Unicode trimming, ASCII case folding, splitting, decimal numbers.
- `paths`: local `.torrent` detection and safe folder names.
- `options`: the download options form and what it stands for.
- `intake`: what an added input names, and where a `.torrent` file's data goes.
- `state`: download rows, engine events and window commands.
- `registry`: the GID table and pending removals of the engine.
- `app_model`: the window's rows, notice line, console and panels.
- `log_lines`: cutting log output into console messages.
- `notices`, `view`: texts and widget decisions of the window.
