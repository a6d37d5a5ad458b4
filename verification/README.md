# mikmik_tools

The decisions behind an assistant's tools: which lines of a file were shown and
may be edited, what a command's output shrinks to, which browser frame answers
which command, when a permission is asked for, what a memory file holds after an
entry is added. Every function states in its contract what it returns, and Verus
proves it.

* `src/` holds the library. One module per tool or concern; `text`, `order`,
  `paths`, `assoc`, `json` and `table` are the vocabulary the others share. Texts
  are modelled as sequences of characters, JSON as an algebraic value, tables as
  maps.
* Calls into other crates (`regex`, `glob`, `grep-regex`, `base64`, `sha2`,
  `serde_json`, `dashmap`, `getrandom`, `uuid`) stand behind small functions whose
  contracts say what is relied on.
* `tests/` runs the library on concrete values.
* `app/` is ordinary Rust around it: files, processes, sockets, the database, and
  the traits by which a host supplies the rest.

Where a tool has to wait for the outside world, the library is split at that point:
one function plans what to do, the caller does it, and another function turns the
outcome into the answer.
