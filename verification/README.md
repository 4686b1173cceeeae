# xet-ai

Large files in git, kept in a local content store. A commit holds small pointer files;
what they stand for is pushed to a remote and pulled from it, verified on the way, and
published in transactions.

The library under `src/` decides what is done, and is verified with Verus. It does no
work on files, on git or on the network itself. A job that needs such work is written as
a conversation: it asks for one thing, is told what came of it, and goes on or finishes.
The program under `app/` carries the other side of these conversations.

## The library

- `text`, `order`, `keyed`, `paths`, `hash`, `error`: what the rest is said in.
- `files`: atomic writes and copies of local files.
- `remote`: what a storage backend offers, and a record of the calls made on one.
- `sync`: manifests, verified transfers, refs and the push lock. `sync::world` and
  `sync::roundtrip` say what the jobs achieve on a file system and a remote that work.
- `pointers`, `reachability`: the pointer files of a commit, and which files of the
  content store they need.
- `config`, `git`, `repo`: configuration, and what is read out of a repository.
- `commands`: the commands from end to end.
- `cli`: the same on the output of the git program, without a library for it.

Contracts are exact: a job's `next` equals a specification function of its state and the
reply, and a function that talks to a remote fixes the calls it makes and what it makes
of each answer. The record of the calls is tied to the backend: each call in it was made on
that backend, with those arguments, and was answered so. Public lemmas state what follows
from this for whole runs.

Paths are text, as on Unix: components are separated by `/`. The program is for such
systems, and refuses a repository whose path is not valid UTF-8.

## What is trusted

SHA-256 (`sha2`), random UUIDs (`uuid`), pointer files and Merkle hashes (`serde_json`,
`xet-data`), replacement of malformed UTF-8 and `String::push` (std). Each stands behind
one small item whose contract says what is taken for granted.

## The program

`init`, `track`, `status`, `doctor`, `version`, `clean`, `smudge`, `push`, `pull`,
`remote`, `manifest` and `debug`; see `app/main.rs`. Git runs `clean` and `smudge` as
filters once `init` has made them known.
