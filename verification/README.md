# ratwarren

The core of a terminal client for PostgreSQL, with its behaviour stated in contracts and proved by
Verus, and the program around it.

- `src/` is the verified library.
  - `editor`: the text buffer, the splitting of its text into statements, and what a run of the
    cursor's statement, of the selection or of the whole buffer consists of.
  - `pages`: the names of saved pages, the tabs that show them, and the record of which were open.
  - `app`: sessions and their tabs, the keys, a run of several statements with its cancellation, and
    the decisions of the worker.
  - `datasource`: making a connection, reading a result, cancelling, giving a query up.
  - `tunnel`: the ssh command line, and the opening of a tunnel step by step.
  - `config`, `secret`, `cli`, `files`: the configuration and its checks, where passwords come from,
    the command line, and how a file is replaced.
  - `text`: characters, bytes and lines.
- `tests/` runs the library on concrete values.
- `app/` is the program: files, processes, sockets and the screen. It holds no decision of its own
  beyond what is shown on the screen.

What is not proved is marked `external_body` or `assume_specification`, each with a comment that says
what is taken for granted: the tokenizer of `sqlparser`, the directories of the platform, and a few
functions of the standard library on characters, bytes, paths and numbers.

Laws that relate several functions are public proof functions whose names begin with `law_`.
