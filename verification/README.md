# Graphloom

Graphloom turns Go and TypeScript source code into an interactive visual
explanation of its behaviour: language analyzers extract a unified code model,
an OpenAI-compatible endpoint only labels the extracted entities, a validator
checks the labeled diagram against the model, and a renderer writes a
self-contained HTML report next to its `.dsl.json` diagram.

## Layout

- `src/` — the verified library (Verus). Every decision of the pipeline lives
  here, with its contract:
  - `ucm`, `dsl`, `graph` — the code model and the diagram language;
  - `semantic` — building project, file and function diagrams, cutting the
    JSON out of a reply and applying labels;
  - `validate` — snapping sources onto the model and rejecting invented
    files, symbols, element types and links;
  - `pipeline` — diagnostics, source excerpts, labeling windows and the
    labeling loop's steps, update plans, report bookkeeping, the file tree;
  - `state` — the project state kept between runs, hashes and cache keys;
  - `settings`, `llm`, `render`, `analyzer`, `testrun`, `commands` — settings
    and palette, prompts and endpoint answers, the report page, analyzer
    invocations, test commands, and what the commands answer;
  - `order`, `text` — ordering, sorting and text helpers.
- `tests/` — tests of the library on concrete values.
- `app/` — the desktop back end around the library: commands, file system,
  processes, HTTP, and serializable copies of the library's types.

The prompt templates, the DSL schema (`dsl.schema.json`) and the report page
(`render.html`) are read at run time from the resources directory
(`GRAPHLOOM_RESOURCES`, or `resources/` next to the executable).
