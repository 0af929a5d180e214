# rgit_lib

A small snapshot-based version-control library, verified with Verus, and a
command-line program around it.

- `src/` is the library. Repository operations take what they need to know
  of the file system as plain values (which parts of the layout exist, what
  a file holds) and answer with their result and the `FsAction`s to carry
  out in order. Their contracts state those results and changes in terms
  of models of the data (text as `Seq<char>`, changes as `FsStep`s);
  what the outside crates compute is taken on trust from `bindings.rs`.
  - `commands/`: the repository (`functions.rs`), its layout (`init.rs`),
    branches, tags and the head (`ref_ops.rs`), the commit log
    (`log_ops.rs`), the user's identity (`config.rs`), and a model of what
    carrying out the changes does to a file system (`fs_model.rs`).
  - `support/utils.rs`: recording a commit in the plain log format.
  - `paths.rs`: paths as `/`-separated text (join, parent, last component,
    the part below a directory), read component by component as Unix
    paths are: empty and `.` components are skipped.
  - `dates.rs`: the calendar date of a day number, written as the log
    shows it (`Jan  1 1970`).
  - `text.rs`: splitting, lines, number parsing and printing, hexadecimal,
    trimming, each with its model over `Seq<char>`.
  - `bindings.rs`: the calls into `sha1`, `rust-ini`, `chrono` and the parts
    of the standard library that vstd does not specify, with the contracts
    taken on trust.
- `app/` is the program: argument parsing, reading the file system and
  carrying out the changes.
- `tests/` exercises the library on concrete values.
