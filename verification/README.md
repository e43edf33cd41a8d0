# lush

A Lua task runner and build helper. The library (`src/`) holds the logic the
scripting API runs on, with its behaviour stated as contracts and proved:

- `value`: the plain values scripts hand over (tables as key/value pairs).
- `text`: trimming, splitting, joining, lines and byte-order sorting.
- `numfmt`: decimal, hexadecimal, binary and octal text of integers.
- `fmt`: `{}` templates, table rendering, padding and path joining.
- `json`: conversion between script values and JSON values.
- `tasks`: task and command registration and the dependency-first run plan.
- `builder`: C/C++ build tasks, compiler arguments and CMake/Meson files.
- `sys`: command checks, failure texts, value sizes and regex line matching.
- `config`: the verbosity flag.

`app/` is the program around it: command-line parsing, the Lua runtime and its
bindings, files, processes, globbing, package probing and JSON text.
