# effisuite_logic

The logic of an AI assistant's agent core — conversation memory, history
compression, to-do lists, pinned memories, speech-record search, skills,
sub-agents and the agent's tools — written in Verus and verified.

## Layout

- `src/` — the verified library. Each public function states what it returns
  (or how it changes its `&mut` argument) over spec functions on `Seq`, `Map`
  and plain values; the laws of the library stand as public proof functions
  (`lemma_*`).
  - `text`, `text_utils`, `order`, `ids`: character-sequence primitives, the
    `<content>`/CDATA unwrapping, line numbering, stable ordering by time
    stamp, and the two calls that depend on chance or time (UUIDs, the clock).
  - `models`, `error`, `config`, `agents`, `skills`, `clawhub`: the data of the
    assistant and its configuration, `SKILL.md` parsing and URL encoding.
  - `compression`, `memory`, `todo`, `pinned_memory`, `favorite_workspace`,
    `asr`: the stateful parts — what each operation does to the collection it
    works on.
  - `tools/`, `codebase/`, `web_fetch`, `web_search`: argument checks,
    matching, scoring and the text each tool answers with.
- `tests/` — tests on concrete values: the scenarios of each tool, store and
  parser, and the laws on examples.
- `app/` — the parts that touch the outside world: files, processes, HTTP,
  the floating-point ranking of the memory index, the sub-agent run loop and
  the adapters that expose the tools to the agent runtime.
