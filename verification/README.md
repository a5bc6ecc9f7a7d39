# streamaid

A low-latency screen streaming origin: it captures this machine's screen with
ffmpeg, sends it to browsers over a WebSocket and over plain HTTP, publishes it
to a relay, and lets a viewer with a PIN or a password drive the machine.

The rules of the origin are a library written and proved in Verus; what touches
the machine is a thin program around it.

## Layout

- `src/` is the library. Every function states what it returns or changes, and
  Verus proves it.
  - Media: `protocol`, `frame`, `hub`, `capture`, `encoder`, `snapshot`,
    `thumbs`, `record`, `headers`, `ws`, `watch`.
  - Access: `otp`, `access`, `api`, `perm`, `wol`.
  - Settings: `config`, `patch`, `device`, `status`.
  - Remote control: `input`, `inject`, `keys`, `inbound`, `clips`, `chat`,
    `voice`, `computer_use`, `power`.
  - Files: `names`, `files`, `transfer`, `panel`, `zip`.
  - The origin as a whole: `server`, `upkeep`, `publisher`.
  - Ground: `text`, `octets`, `float`, `json`, `table`, `b64`, `link`,
    `pattern`, `entropy`.
- `app/` is the program: arguments, ffmpeg processes, sockets, files, and the
  calls into the operating system.
- `tests/` runs the library on concrete values.

## How the two meet

`server::App` holds the state of the origin. Each call changes that state and
adds to a list of `Effect`s: keys to inject, messages to send, files to write,
a capture to restart. The program carries them out in their order and tells the
library what came of it. What comes from outside (clock readings, what is on
disk, what ffmpeg wrote, a model's answer) is handed in as a plain value, so
every rule is proved for every value of it.

Times are nanoseconds on a clock that never goes back, unless their name says
otherwise. Coordinates and other fractions are carried as the bits of a double;
the library compares and clamps them, and never computes with them.

## What is trusted

Calls into other crates (`serde_json`, `base64`, `sha1`, `sha2`, `subtle`,
`url`, `regex`, `chrono`, `bytes`, `getrandom`) stand behind small functions
whose contracts say what is claimed of them. Where a result takes pages to
state, it has a name, and the contracts above speak of that name.
