# node_tools

Custom tools that a remote node advertises to a gateway: their definitions,
the checks a node applies when loading them, the text transformations made
when one runs, and the names and call steps the gateway uses for them.

- `src/` is the verified library (Verus):
  - `tool_def`: definition types, their defaults, and the handshake schema
    that leaves the handler out.
  - `catalog`: validation of a definition, which directory entries are
    definition files, and the per-node catalog (unique names, first wins).
  - `template`: `{{param}}` substitution, the members in order, each over
    what is left of the template's own text; values go in literally and are
    never searched for placeholders again.
  - `tail`: keeping the last `n` lines of output, specified over the lines
    that `str::lines` yields.
  - `naming`: `node__<node_id>__<tool_name>` and when such names collide.
  - `invoke`: the steps and error messages of forwarding a call to a node.
  - `json`, `text`: the outside JSON value type and string helpers.
- `app/` holds the serde forms of the types, directory loading, the
  conversion of JSON parameters, and the gateway's driver of `invoke`.
- `tests/` runs the library on concrete values.
