# media-research-stack

The verified core of a local runner that turns public media into research transcripts,
progress logs and timing data for automatic speech recognition.

`src/` is a Verus library. It holds the logic of the runner as functions from plain values to
plain values, with contracts over mathematical models:

- `text`: white space, lines, separators, numbers and words of character sequences
- `json`: JSON documents as trees, read and written with `serde_json`
- `files`: changes to the files of a directory, and what the directory holds after them
- `research_cache`: URL files, file names, when a cached source may be reused, and how a download
  is published
- `cache_laws`, `url_laws`: what holds of the cache, of URL lists and of media types as a whole
- `cache_run`: the tally of the cache process
- `transcript`, `watcher`: transcripts of responses, and the state of the watcher that follows
  the response streams of the upload service
- `progress`: the progress log of a response, redacted unless transcripts are stored
- `report`: the rows of reports, and which sources a report tells of as completed
- `settings`, `stack`: the configuration of sweeps and of the stack
- `sweep`, `sweep_run`: the sources of a sweep, where their audio comes from, its transcripts, and
  its tally

`tests/` runs the library on concrete values. `app/` is the ordinary Rust around it: the command
line, the environment, files, the network services, what is printed, and everything that is
floating point.
