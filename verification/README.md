# transcrate

Converts audio for a DJ's USB stick and says, before the gig, which players
will take each track: CDJs and XDJs differ in the codecs, sampling rates, bit
depths and filesystems they accept, and the table of what each reads comes
from the manufacturers' manuals.

The library in `src/` holds every decision, each function with its contract
proved by Verus:

- `device`, `compat` — the table of players, and what keeps a stream from
  playing on one of them.
- `plan` — what a conversion produces and how: copy, rewrite the tags, or
  encode, with dither only where the word length shortens; and the ffmpeg
  arguments for it.
- `probe` — what an ffprobe report says a file holds.
- `path`, `files`, `order` — paths as the filesystem compares them, which
  handed-over paths are audio, sweeping folders one listing at a time, the
  order found files come out in, and where each result lands.
- `convert` — working out every job before any runs, refusing the jobs that
  would overwrite a source or each other.
- `scan`, `usb` — walking a drive the way a player's browser does, and which
  players read its filesystem.
- `report` — every line the command line prints.
- `tools` — finding ffmpeg.
- `window` — the desktop window's side: which target and players its
  settings name, a light per player for each track, the tracks on a drive
  some player refuses, and what became of each file a conversion was asked
  for. The window's own event plumbing is not here.
- `laws` and the `pub proof fn`s beside the functions — what holds of the
  table, the profiles and the library as a whole.

`app/` is the command line around it: argument parsing, the filesystem,
ffprobe and ffmpeg processes, the system's list of disks, and threads. It
hands the library plain values and prints what comes back.
