# fusion-design

Design tooling for local use: documents of pages and nodes, design systems, linting and mending,
code generation, export, undo, an asset library, messages to neighbouring programs, and the
client side of a language model that runs on this machine or in the private network.

## Layout

- `src/` is the library. Every function states what it returns or changes, and Verus proves it.
  - `text`, `num`, `json`: strings, numbers by their bits and their written form, and JSON values.
  - `canvas`: documents, pages and nodes. `undo`: the difference between two documents, and the
    stacks to go back and forth.
  - `css`, `codegen`: values that are safe in a style sheet; tokens resolved; pages as HTML, React and
    SwiftUI.
  - `design_system`, `sharing`: tokens, references, inheritance, the built-in systems, and systems as
    they are shared.
  - `lint`: the rules, their findings, and the fixes that need no decision.
  - `export`: what is written for each page: SVG, HTML, what JSON holds, the limits of a PNG and the
    plan of a PDF.
  - `asset`: the asset library, and the size and colours of a picture from the bytes of its file.
  - `ecosystem`: messages between tools, scene templates.
  - `mlx`: endpoints and addresses, retries, streamed answers, health and the conversation.
  - `frames`, `host`, `cli`: frames for a parent process, the window's rules, the command line's
    decisions.
- `app/` is the program around it: arguments, files, HTTP, rasterising and the JSON of documents.
  Floating-point arithmetic happens there too, and its results are handed to the library.
- `tests/` runs the library on concrete values.

## What is taken on trust

The library calls `serde_json`, `reqwest` (for URLs), `base64`, `image` and a few functions of std
that Verus knows nothing of. Each call stands in a small function of its own, whose comment says what is
claimed of it.
