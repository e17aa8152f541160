# letras_sync

A lyrics projector for church services: it plays a song from YouTube or a
local file, finds its synchronized lyrics (stored lyrics, LouvorJA, LRCLib,
NetEase, YouTube captions, or a Whisper transcription) and shows the line
being sung.

## Layout

- `src/` is the library, verified with Verus: the LRC, SRT and WebVTT
  readers and writers (with their round-trip laws), YouTube addresses, song
  title candidates, the LouvorJA catalogue search, the play queue, the
  timeline of lines, the player's state, and the lyrics search and media
  loading as state machines that take each outside answer as an event.
- `tests/` runs the library on concrete values.
- `app/` is the program around it: the Qt screen, the mpv audio engine,
  the SQLite database, the HTTP clients, `yt-dlp` and Whisper processes,
  and the loops that feed the state machines.
