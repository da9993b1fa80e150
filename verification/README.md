# subdo

Runs a command in the directories within a directory: in each one, or, with
`--recursive`, in the whole tree below it.

`src/` is a library that is verified with Verus. It decides and leaves it to its
caller to act:

- `cli` settles, step by step, what a command line asks for;
- `walk` says which directory comes next, when the command is started in it and
  when a report goes out, for any order of events;
- `tree` states what the two kinds of walk over one tree report on;
- `ignore`, `pattern` and `path` tell which directories to pass over;
- `process` says what an attempt to run the command came to;
- `show` and `json` say what is written about it.

`app/` is the program around it: the command line, the file system, the child
processes and the output. It runs on Unix, where paths are bytes.

`tests/` runs the library with the crates that it calls.
