# omnidl

omnidl downloads videos and music from YouTube, TikTok, Spotify, Instagram,
SoundCloud and the other sites yt-dlp knows, in the window, from the terminal
or through a small web interface.

This crate is omnidl's logic as a library verified with Verus: every public
function carries a contract over a mathematical model of its data, and Verus
proves the code against it.

- `src/` — the library. Link detection and parsing (`detect`, `launch`,
  `bridge`), file names and templates (`util`, `files`, `ytdlp`), the download
  list and its status lines (`job`, `jobs`, `term`, `ui`, `get`), the engine's
  decisions (`engine`, `gallery`, `spotify`, `matcher`), the web interface's
  rules (`web`, `auth`, `hub`), tools and updates (`deps`, `update`), the
  queue kept across restarts (`journal`), scheduling (`schedule`) and font
  selection (`fonts`).
- `tests/` — tests of the library on concrete values.
- `app/` — `omnidl-cli get`: reads the command line and the settings file,
  runs yt-dlp and gallery-dl, and prints; what each output line and each
  result means is decided by the library.
