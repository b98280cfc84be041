# markie

Markdown to SVG, PNG and PDF, with Mermaid diagrams and LaTeX math.

- `src/` is the verified library. Each public function states what it returns
  in its contract, over spec functions on `Seq`, `int` and the models of its
  types, and Verus proves it:
  - `mermaid/`: the Mermaid parser (flowchart, sequence, class, state, ER),
    and the ranking and barycentric ordering of layered diagram layouts;
  - `math`: the MathML tree of a formula (LaTeX through `latex2mathml`,
    MathML events through `quick-xml`);
  - `html`: inline HTML tags and their sanitised styles;
  - `renderer`: list markers, image MIME types, `data:` URLs (base64 through
    the `base64` crate) and the sizes of raster images (through
    `imagesize`);
  - `paths`: the path-traversal check for local images;
  - `markdown`: the Markdown events (through `pulldown-cmark`), in order,
    with the source line each starts on;
  - `highlight`: the syntax-highlighted spans of code blocks (through
    `syntect`);
  - `color`: `#rrggbb` colours;
  - `theme`, `export`, `xml`, `text`: theme names and colours, output formats
    and font fallbacks, XML escaping and cleaning, and character helpers.
- `app/` is the command-line program around it: text measurement, drawing
  with floating-point geometry, rasterising and I/O.
- `tests/` runs the library on concrete values.
