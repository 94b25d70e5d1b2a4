# rustache

A Mustache template engine whose rendering is verified with Verus.

A template goes through three stages, each a verified function with a
contract stated over mathematical values:

- `compiler`: the template text is split into tokens (text, variables,
  section tags, partials, comments); the tags are found with the `regex`
  crate.
- `parser`: the tokens become nodes; sections take the nodes up to their
  closing tag as children, dotted names become nested sections, and
  comments take their line's whitespace with them where they stand alone.
- `template`: the nodes are rendered with a hash of data. The spec
  functions there (`render_nodes` and the ones it calls) are the rules of
  rendering; `properties` proves laws of them, such as that interpolation
  escapes HTML and escaping can be undone, that falsy sections render
  nothing (nested ones too), that names inside a section are looked up in
  its hash first, and that a template renders part after part.

Data is built with `HashBuilder` and `VecBuilder` (`builder`), or converted
from JSON (`json`); `render::render_text_from_json` renders a template with
the data of JSON text, parsed with `rustc_serialize`. `memstream` is an in-memory byte stream.

Partials are handed to a `Template` as a table from names to texts, so the
library reads no files. The program under `app/` reads the template, the
JSON data and the partials from disk, and prints the result.

Data holds strings, booleans, 32-bit integers, vectors, hashes and lambdas
(`LambdaFn`, a borrowed closure from text to text). A lambda's tag hands it
the empty text and a lambda's section hands it the section's raw text; what
it returns is escaped (for a value tag), parsed and rendered
(`Template::render_lambda_result`, verified against `lambda_outcome`). What a
closure returns is its own affair, so the rendering rules give no outcome
where a lambda is called, and the handlers state the outcome for whatever it
returned. Floating-point data is not supported; JSON numbers with a
fraction are kept as their text.
