# tunes

A terminal audio player for Unix whose decisions are verified.

`src/` is the library. It holds what the player decides and what it shows, and
Verus checks it:

- `path`: file paths as the bytes that Unix gives them; components, parent, file
  name, extension, and which files are audio.
- `time`: lengths of time and moments, and how they are written.
- `text`: decimal numbers, dictionary order, lower case, decoding of raw names.
- `listing`: what of a directory is listed, and in which order.
- `player`: the loaded track, when it is finished, and where a seek goes.
- `app`: the state of the application and its answers to keys, scans, probes and
  the sink. An answer that needs the outside is an `Action`.
- `screen`: the texts of the screen.
- `laws`: what holds of the application as a whole.

`app/` is the program around it. It reads the keyboard and the directories, asks
for the lengths of files, drives the audio output, and renders the screen.

Three functions are trusted: they call `str::to_lowercase`,
`String::from_utf8_lossy` and the local clock of `chrono`. Their contracts stand
beside them.
