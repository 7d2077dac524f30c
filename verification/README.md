# pmwiki-nom

A verified parser for a subset of PmWiki-like markup: paragraphs with bold,
italic, links, images, forced line breaks and verbatim text; headings; horizontal
rules; bullet and numbered lists; and tables.

The grammar is stated as spec functions over the characters of the input, and
every parser is proved to return exactly what the grammar gives.

- `src/pmwiki.rs`: the parse tree `IPmwiki` and its model `Node`.
- `src/scan.rs`, `src/source.rs`: characters, runs, tags; the input as indexed characters.
- `src/inline.rs`: bold, italic, links, images, text styles, verbatim text.
- `src/steps.rs`, `src/field.rs`: scanning text for inline elements.
- `src/block.rs`, `src/list.rs`: headings, tables, lists.
- `src/doc.rs`, `src/parser.rs`: paragraphs, blocks, the document, the public API.
- `src/shape.rs`, `src/laws.rs`: the shape of parse trees and the proofs about it.
- `app/`: the command-line demo and a serde-capable copy of the parse tree.
