# yyw

NCM conversion and stem separation: scans a directory for audio, converts NCM
files with ncmdump, separates tracks with Demucs or another configured
separator, and plays the results.

- `src/` is the library, written in Verus: which files to list, where to look
  for tools, which commands to run, what a batch does next, how lyrics, covers
  and media information are read, and what the window shows. Every function
  has a contract; the laws that span functions are the public proof functions
  named `law_..`.
- `app/` is the program around it: the window, the command line, files,
  processes and sound.
- `tests/` runs the library.

Called `yyw-cli` the program is a command line; called `yyw-icon` it makes the
icon that a build for Windows embeds.

The library sees the machine through plain values. A path is its text, the
texts of its ancestors and its components (`path::FilePath`). To look for files
it names places (`search::Candidate`), and the program answers with those that
exist (`search::Found`). A batch (`batch`, `separation`, `window_batch`) is a
state machine: it is told what came of its last action and answers with
messages for the user and the next action.

What the library believes without proof is stated where it stands:
`text.rs` (`String::push`, decoding bytes), `letters.rs` (letter case),
`path.rs` (components and parent of a path), `json.rs` (reading JSON with
serde_json) and `picture.rs` (decoding, scaling and encoding pictures with
image).
