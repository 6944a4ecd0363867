# shell_rs

An interactive shell: built-in commands, programs found along `$PATH`, quoting, variables,
redirection, pipes, chains with `&&` and `||`, background jobs, history and tab completion.

The library under `src/` holds everything that the shell decides, and is verified with Verus:
each function states in its contract what it returns or changes, and the laws of the shell are
proof functions whose names begin with `law_`. The program under `app/` reads keys, looks at
files, runs processes and prints; it asks the library what comes next.

| Module | What it is about |
|--------|------------------|
| `text`, `lines`, `numbers`, `order`, `store` | characters, lines, decimal numbers, sorting, maps keyed by text |
| `tokens`, `expand` | the words of a line, and the variables in them |
| `command`, `parse` | the commands, and how a line becomes one |
| `grammar`, `nesting` | what holds of every line, and how deep pipes go within pipes |
| `lookup` | the file that a name stands for |
| `shell`, `history`, `jobs` | what the shell remembers |
| `dispatch`, `output` | what a command does to that memory, what it prints, and where that goes |
| `chain`, `pipe` | running the parts of a chain and the commands of a pipe |
| `completion`, `candidates` | completing a word, and what holds of the candidates |
| `editor` | editing a line, key by key |

A line is read by `Command::from_input`. Where the command depends on which file a name stands
for, it answers `Parse::Lookup` with that name; the program finds out, and asks again with the
answer added to its `PathTable`.
