# AlbumPlayer

The logic of a music player where the **album is the unit of listening**, not the
track: it browses, queues, shuffles and counts plays by album. Shuffle reorders albums
and leaves their track order intact.

The library is written in Verus. Every function states what it returns or changes, and
Verus proves that it does; the promises that span functions stand beside them as public
proof functions.

| Module | Contents |
|---|---|
| `group`, `group_laws` | Resolving files into albums, and what holds of the result |
| `relocation` | What albums keep when the library or a folder moves |
| `scan`, `ffprobe`, `persist` | What is read off a file, and what is stored of an album |
| `queue` | The album queue: shuffle, repeat, and moving through it |
| `player` | The playback engine as a state machine: commands and messages in, effects out |
| `plays`, `playlog` | When a listen counts, and the log of listens |
| `query`, `migrate` | Questions to the database, and its upgrades |
| `artwork`, `replaygain` | Finding covers and measuring loudness |
| `auth`, `api`, `config`, `server` | The server: signing in, requests, settings, answers |
| `cli`, `desktop` | What the programs print, show and understand |
| `model`, `path`, `text`, `order`, `util`, `error` | Shared values and helpers |

Floating-point numbers are carried as bit patterns and never computed with. What the
library takes from outside (password hashing, random bytes, the clock, Unicode tables,
JSON, the parsing of a number) goes through small functions whose contracts are not
proved; each says in its comment what is claimed of the call behind it.

`app/` holds the programs: database, files, processes, network and audio. Playing
audio needs GStreamer and is compiled in with `--cfg playback`; the desktop shell needs
Tauri as well and is compiled in with `--cfg desktop`. Neither is among the
dependencies, since both want system libraries.
