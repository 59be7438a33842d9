# nestor

Declarative memory for agents, after ACT-R: chunks with typed slots,
practice history, spreading-activation associations, per-agent buffers and
production rules, served over HTTP and driven from a command line.

## Layout

- `src/` is the verified library. Every public function in it carries a
  contract that Verus proves:
  - `session`, `registry`, `buffers`: an agent's buffers and cognitive step,
    and the sessions of all agents;
  - `memory`: the in-process store (chunks with optimistic versions and soft
    deletion, practice events, associations, buffer pointers, rule records)
    and the retrieval candidate pool;
  - `rules`: production rules, their conditions on the buffers and on the
    retrieved chunk, their ranking and conflict resolution;
  - `retrieval`: what a retrieval decides from its ranked candidates (hit or
    miss, the chunk it commits, how many results it shows) and the response
    it answers with;
  - `numbers`: the syntax of a number that `f64::from_str` reads;
  - `api`, `service`, `counters`, `ops`, `store`: routes, problem documents,
    request building, service counters, configuration and the Cypher text;
  - `client`, `cli`: URL and response parsing, percent-encoding, request
    planning, and the command line's values and text renderings;
  - `laws`: properties that relate several operations, proved once.
- `tests/` runs the library on concrete values.
- `app/` is the program around it: the HTTP server (axum), the HTTP
  transport, JSON shapes (serde), the command line (clap), and the
  floating-point activation and utility arithmetic, which the library
  carries only as `f64` bit patterns.
