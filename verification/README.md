# cooklang

A parser for the [cooklang](https://cooklang.org/) recipe markup language,
with opt-in extensions, written in Verus: the functions of the library carry
contracts that the verifier proves. Temperatures in step text are not turned
into inline quantities: that extension reads numbers as floating point.

## Layout

- `src/encoding.rs` – UTF-8 widths and the correspondence between character
  positions and byte offsets.
- `src/span.rs`, `src/located.rs` – byte spans and values tagged with them.
- `src/lexer.rs` – the tokenizer. `lex` states, as a function on characters,
  which token starts where; `Cursor::advance_token` and `tokenize` are proved
  to produce exactly those tokens, and `lemma_lex_partition` that they cover
  the input, in order, without gaps.
- `src/parser/` – the line parser:
  - `token_stream.rs`: tokens with byte spans;
  - `parser.rs`: `LineParser`, the primitives that read the tokens of one
    line, the texts they make (`text`), and `parse`, whose contract
    (`parse_result`) says which lines of the recipe become metadata, sections
    and steps, what metadata and sections hold, and how the items of a step
    come one by one from the tokens of its line (`step_items_hold`), with
    the names of ingredients, cookware and timers read from those tokens
    (`ingredient_holds`, `cookware_holds`, `timer_holds` in `step.rs`);
  - `metadata.rs`, `section.rs`, `step.rs`, `quantity.rs`: the parts of a line.
    Numbers keep the form they are written in (`Number::Int`, `Decimal`,
    `Fraction`, `Mixed`).
- `src/ast.rs` – the syntax tree and its texts.
- `src/analysis/` – the walk over the syntax tree that builds the recipe:
  metadata lines and the special keys of the modes extension, steps and
  sections, and the ingredients, cookware and timers of the steps.
  References between ingredients are resolved there: `references_resolved`
  states that a reference refers to the last earlier ingredient with its
  name, letter case aside, that is not a reference itself;
  `references_consistent` that each ingredient lists exactly those that refer
  to it. `content_of` states what the model holds for every setting of the
  extensions: the sections and what their steps hold, item by item, and the
  ingredients, cookware and timers of the steps in order, each read as
  written (`read_as_written`, `cookware_read`, `timer_read`), in the modes
  that the metadata lines set; an ingredient is a reference only when it is
  read as one, refers as above, and one that finds no ingredient to refer
  to is reported. `parse_ast` proves it (`analysis_result`).
- `src/model.rs`, `src/quantity.rs`, `src/convert/` – the recipe that the
  analysis builds, its quantities, and the known units: the index that the
  checks of the advanced units extension use, units files, and the builder
  that gathers their units, expands them with SI prefixes
  (`expansions_added` and `expanded_views` say when that succeeds and what
  it adds), applies extensions (`extends_applied`) and resolves the best
  units of each physical quantity; `finish` states the table and index it
  ends with, and when it succeeds.
  Conversion ratios are floating point and are not held there.
- `src/metadata.rs` – the values of metadata keys (slug, tags, times,
  servings, emoji, author, source) and the map of all entries. A URL is
  kept as the text of the parsed URL.
- `src/human.rs` – what a recipe shows when written for people: the
  ingredients of a step, grouped by name, with their numbers of occurrence;
  the numbers of the steps; the metadata lines (author, source, times,
  servings, then the other entries); subscripts.
- `src/cooklang_text.rs` – a step written back as Cooklang text.
- `src/images.rs` – which files are images of a recipe, and of which step.
- `src/error.rs`, `src/context.rs` – results with errors and warnings.
- `src/extensions.rs`, `src/scale.rs`, `src/parser2.rs` – extension flags,
  scaling targets, and the sliding range of the second parser.
- `src/lib.rs` – `CooklangParser` and `parse`: text to recipe, with the
  errors and warnings of both passes; `recipe_from_passes` states the
  result from what the line parser and the analysis give.
- `app/main.rs` – `cook`, a command that reads a recipe file and shows the
  recipe, its errors and its warnings.

Outside crates are reached through a few trusted functions whose contracts
name what they compute: `finl_unicode` (punctuation), `regex`, `emojis`,
`humantime`, `url` and `indexmap`.
