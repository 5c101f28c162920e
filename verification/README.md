# xeres

The verified core of the Xeres compiler. Xeres is a small language for web applications in which one
program holds the server's functions, the browser's screens and the models they share; the compiler
keeps the tiers apart.

* `src/` is the library. Verus proves the contract of every function in it, but for the wrappers around
  `std`, `rust_decimal`, `hmac`, `sha2` and `argon2`: these are marked `external_body`, or are stated as
  assumed specifications of functions of `std`, and their contracts are believed. The doc comment of each
  says what it claims of the function that it calls.
  * Front: `token`, `lexer`, `fmt` (the formatter) and `fmt_laws`, `ast`, `diagnostics`.
  * Modules: `modules` (loading and linking), `qualify` (calls across modules), `caps` (capabilities),
    `visibility`.
  * Checking: `table`, `resolve`, `scope`, `rules`, `flow`, `raw`, `views`, `taint`, `messages`,
    `analysis`, `boundary`, and `lower`, which rewrites money operators afterwards, with `lower_laws`.
  * Code generation: `emit`, `emit_stmt`, `emit_handler`, `emit_view`, `decode`, `types`, `uses`,
    `client`, `server`, `runtime`, `css`, `index` and `index_laws`, `codegen`.
  * Running: `value`, `arith`, `decimal`, `builtin`, `interp`, `replay`, `cookie_laws`, `json`,
    `session`, `sync`, `http`, `site`, `money`, `transaction`, `project`.
  * Texts and small structures: `text`, `scan`, `num`, `order`, `strmap`, `unicode`.
* `tests/` runs it.
* `app/` is the command around it: files, sockets, the database, and floating point.

The interpreter does no input or output. A run that needs its host (the clock, a fraction, the
database, an endpoint) stops with what it needs; the host answers and calls again, and the run goes on
from its start with the answers that it has. `replay` proves that this is sound: an answer never
changes what was computed without it. `cookie_laws` proves what several runs leave behind: the cookie
of the last login or logout.
