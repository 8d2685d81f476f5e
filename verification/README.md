# obsidian_vault_mcp

The verified core of an Obsidian vault server: the rules it applies to notes and Blueprint
documents, written in Verus with their contracts proved.

- `markdown`: the outline of a Markdown syntax tree (built with `ptdgrp_markdown`), tied node by
  node to the parser's tree.
- `parser`: notes read from that outline (headings, links, embeds, tags, block IDs,
  frontmatter), spans, anchors and relative link paths.
- `query`: which note a link leads to; ambiguous references are reported, not guessed.
- `natural`: the natural order of note paths (`natord`) and lists sorted in it.
- `docx`: the text of a DOCX body, from the XML events `quick_xml` reads.
- `mutation`: unified patches, exact edits, block ID changes, renames, the checks that an edit
  breaks no reference into a note, and the edit history.
- `blueprint`: Blueprint and Todo documents: schema checks, the Todo graph and its validation,
  readiness, and the text edits behind each Blueprint operation.
- `attachment`, `byte_size`, `logging`, `errors`, `text`: attachment kinds and read results,
  byte sizes, log previews and directives, error chains, and text helpers.

`app/` is a command-line shell around the library: it walks the vault, reads and writes notes,
opens DOCX packages and PDFs, hands the library plain values and applies the edits it plans.
