# ttfm

A file manager in which files and notes carry typed tags, `type:label`. Items are found by
their tags, and one edit changes tags, names and locations together.

- `src/` is the library: the edit language and its captures, the planning of edits and of the
  moves of files, the questions that are asked before an edit, the queries that read and write
  the tables, indexing, the interactive mode and the layout of what is shown. Its functions
  carry contracts that Verus proves.
- `app/` is what surrounds the library: the command line, the disk, the database and the
  terminal.
- `tests/` holds tests of the library.

## How the library meets the world

The library never touches the disk, the clock or the database; of the machine it reads the time
zone alone, to show when a file was changed. What else it has to know is handed to it as plain
values: a snapshot of the files that an edit is about, the texts that are
times or numbers, the ids that are in use. What it wants done comes back as plain values too:
steps to carry out, queries to run, text to show.

Queries are built with `sea-query`. The library describes each statement by a term, and the
contracts say which term a function builds, and which term the SQL of a plan is the text of.
