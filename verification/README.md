# bgrag

A chatbot for board-game rules. Rulebooks are cut into chunks, the chunks are embedded and stored, and
a question is answered from the chunks that are retrieved for it. An evaluation scores routing,
retrieval and answers against a set of examples.

`src/` is the library, verified with Verus:

- `ingest`: pages, sections and paragraphs of a rulebook; the fixed-size and the paragraph chunker;
  the documents of the manifest and the ids of stored chunks
- `retrieve`, `rerank`, `store`, `pipeline`: fusion of ranked lists, mapping of replies and rows,
  whole-rulebook context
- `prompts`: the texts put to the language model
- `eval`: normalisation, quotes and refusals, coverage, metrics, summaries, and the steps an example
  goes through
- `report`, `errors`, `cli`: what is printed, and the choices of the command line
- `text`, `path`, `sorting`, `page_marker`, `tokenizer`, `model`: what the rest is built on

Files named `*_laws.rs` hold properties that span several functions. Floating-point values cross the
library as bit patterns or as exact fractions.

`app/` is the program around it: the command line, files, HTTP and the database.

`tests/` runs the library on concrete values.
