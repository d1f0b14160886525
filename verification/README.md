# carapace-shortcutter (csc)

A command-line tool that keeps shell aliases, and aliases that run Lua scripts
("monikers"), in a settings document, and writes them into a shortcuts file that
the shell rc file sources.

`src/` is the verified library:

- `shell_string`: escaping for the shell, and writing paths relative to the home directory;
- `text`: character sequences, substring search and prefixes;
- `shell_rc`: choosing the rc file of the current shell;
- `entry`, `key_order`, `alias_table`, `monikers`, `settings`: the settings document's model,
  with the aliases kept as a key-ordered map;
- `args`, `commands`: the command line and what each command does to the settings;
- `path_ext`: file extensions;
- `shortcuts`: the shortcuts file, and which moniker scripts are stale;
- `setup`: the setup prompt's answer, the line that makes the rc file source the shortcuts file, and moniker script results;
- `laws`: properties that relate several operations.

`app/` is the program around it: argument parsing, the data directories, reading and
writing files, the setup prompt, and running moniker scripts.
