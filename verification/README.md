# streamson

A memory efficient library to process large JSON data: the input is read in
parts, values are matched by their paths and handed to handlers, or kept,
removed, extracted or converted, without the whole document ever being held in
memory.

The library (`src/`) is verified with Verus:

- `streamer` reads JSON data in parts and reports where values start and end,
  keeping the path of the current value. It is proved that the byte at which
  a value is reported to start has the reported kind and the byte at which it
  is reported to end closes that kind, that the open values form a stack (a
  value ends with the path it started with), that elements are only
  separated after a value ended, and that every token but the request for
  more data makes progress, so the strategies' loops terminate. The open
  arrays and objects are modelled too: a value started inside an array gets
  the array's current index, which starts at 0 and grows by one with each
  separator, and a value inside an object gets a key. Reading is proved to
  go on without an error while a string, number, boolean or null is read,
  and where a value is awaited at the top level or in an array, or a
  separator or the end after a value in an array or an object, as long as
  the next byte which is no whitespace fits there. Which key a value gets,
  that the tokens follow the JSON grammar, and that valid JSON as a whole is
  read without an error, is not stated.
- `path` models paths (`{"key"}[0]`) and proves that reading the textual
  form of a path gives the path back, for paths without a root marker whose
  keys hold no unescaped `"`.
- `matcher` holds the simple, depth and regex matchers and their boolean
  combinations.
- `handler` holds the handlers (buffer, indexer, analyser, output, shorten,
  unstringify, replace, regex, indenter, groups) with a model of each; the
  output of the shortener does not depend on how the matched data are split.
- `strategy` holds the ways the input is processed (trigger, filter, extract,
  convert, all). Filter and extract only ever emit pieces of the input, in
  order; while no value matched, filter and convert give the input back
  unchanged, extract emits nothing and trigger leaves its handlers untouched.
  When a JSON value is awaited and the next byte can neither start one nor
  be skipped as whitespace, every strategy fails with that byte and its
  position.
- `cli` holds the rules of the command line tool: how arguments are split and
  which handlers fit which strategy.

`app/` is the command line program around the library (argument parsing, files,
standard input and output, and a codec for asynchronous readers). `tests/` holds
the tests.
