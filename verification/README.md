# copyPod

copyPod mirrors local MP3 folders and M3U playlists to an iPod that runs Apple's
original firmware. What it decides is decided in a library that is verified with
[Verus](https://github.com/verus-lang/verus); what it reads, writes and prints is
left to a thin program around it.

## Layout

- `src/` is the verified library.
  - `text`, `path`, `key`, `index`: white space and letters, the order of paths,
    what makes two recordings the same, and how they are found again
  - `m3u`, `playlist`, `source`, `scan`: what local files amount to
  - `database`: a device's library as it was read, and the changes queued for it
  - `plan`, `sync`: what has to be done, and in which steps
  - `batch`, `progress`, `report`, `setup`: transactions, messages, and what is
    checked before anything begins
  - `laws`: what holds of all of this together
- `tests/` runs the library.
- `app/` is the program: arguments, files, tags, and the iPod. It is built
  against a checkout of libopod next to this one.

## What is proved

Every function states what it returns or changes, and `laws` states what follows:
among other things that a device ends up with exactly the recordings that were
asked for, each once; that running a synchronization again, or after it was
interrupted, does nothing but what is left to do; that playlists which have
nothing to do with local ones are left alone; and that a dry run has nothing to
do.

The proofs rest on the contracts of three functions of the standard library that
are taken as given, in `text`: `String::push`, `str::to_lowercase` and
`std::str::from_utf8`.
