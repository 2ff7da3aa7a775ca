# mauveweasel

The library of a small dynamic content server: HTTP request parsing and
response writing, routing, a contact form whose submissions go to a postbox
directory, a uuid keystore, and a news generator that renders Markdown
articles with a least-recently-used cache of rendered pages.

- `src/` is the library, verified with Verus. Each module states what its
  functions return in their contracts; the laws that relate several
  functions are public proof functions next to them.
- `app/` is the server program around it: reading the options file and the
  templates, the TCP loop, and every file read and write.
- `tests/` runs the library on concrete inputs.
