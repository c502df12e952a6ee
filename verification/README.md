# acronymy

Acronymy is a free dictionary that anyone can edit, with one catch: every
word must be defined as an acronym of other words of the dictionary ("cat"
might be "cuddly adapted tiger"). It runs as a Sandstorm grain.

`src/` is the library, verified with Verus:

- `text`: chars, decimal notation, white space, splitting, UTF-8 offsets.
- `sql`: the statements the dictionary sends to SQLite.
- `html`: the pages, and the rendering of a stored definition.
- `request`: the path and the query fields of a request.
- `link`: the SQLite connection; the calls that hand it a file, a busy
  timeout or a statement also record (as ghost state) what they handed.
- `store`: the database on that connection, and the answer each statement got.
- `session`: looking words up, checking and storing definitions, building pages.
- `initdb`: filling a new database with a word list.
- `fd`: the file descriptor the grain talks through.
- `laws`: properties that span operations: every statement a session sends
  only reads, or writes a definition that is an acronym of words the word
  list held; only alphanumeric words, which hold no quote, semicolon or
  markup, stand in the statements; the answers of the word list decide a
  check; splitting loses nothing.

`app/` holds the programs: the Cap'n Proto server that Sandstorm starts, and
the `initdb` tool that reads a word list from standard input.
