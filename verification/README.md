# udf-core

A parser for UYAP `.udf` documents (a ZIP archive holding `content.xml`) and two string
renderers, HTML and RTF, written in Verus. Every function of the library carries a
contract that Verus proves, except the few trusted items at the edge to the outside
crates and std, whose contracts Verus takes as given: the wrappers `zip::read_archive_entry`
(the `zip` crate), `xml::parse_xml` (`roxmltree`), `rtf::decode_base64` (`base64`) and
`text::utf8_text` (`str::from_utf8`), and the specification of `String::push` in
`text.rs`. Each states in its doc comment what it claims of the outside code.

Pipeline: `UDF bytes -> parse -> Document -> { to_html | to_rtf }`.

## Layout

- `src/zip.rs`: `content.xml` out of the archive (the `zip` crate does the reading).
- `src/xml.rs`: the XML tree as a flat list of nodes (`roxmltree` does the parsing) and the
  attribute readers with their fallback rules.
- `src/rune.rs`: slicing by Unicode scalar offsets.
- `src/num.rs`: exact decimal measurements (billionths of a point), their parsing (the
  finite part of the float text grammar, exponents included) and their CSS/RTF
  formatting.
- `src/parser.rs`: the document model built from the XML nodes; `spec_parse` states what
  a document is.
- `src/model.rs`: the document model and its views.
- `src/html.rs`, `src/rtf.rs`: the renderers; `spec_to_html` and `spec_to_rtf` state the
  output exactly.
- `src/color.rs`, `src/text.rs`: colours, digits, escaping helpers.
- `src/host.rs`: the pure parts of the Windows hosts: what the preview pane and the viewer
  show around the HTML, the registry values the shell registration writes and the root
  it writes them under (machine-wide, else the current user).
- `app/main.rs`: the `udf-cli` command line program.

## Proved properties

Besides each function's contract, the library proves, for all inputs:

- the RTF of every document is brace-balanced and is a single group
  (`rtf::lemma_rtf_braces_balanced`, `rtf::lemma_rtf_is_one_group`);
- the RTF font and colour tables never repeat an entry (`rtf::lemma_rtf_tables_distinct`);
- list numbering is kept per list id (`html::lemma_list_numbering_per_id`);
- escaped HTML text holds no `<` or `>` (`html::lemma_escaped_text_has_no_tags`);
- a CSS font-family value holds no `"`, so it cannot close the `style` attribute
  (`html::lemma_font_family_has_no_double_quote`);
- colour channels are exactly the bytes of the stored bit pattern
  (`color::lemma_channels_are_bytes`);
- the text runs of every parsed document hold no zero-width space
  (`parser::lemma_parsed_text_is_clean`);
- rune slices have the requested length, the lenient slice agrees with the strict one in
  range, and adjacent slices concatenate (`rune.rs`);
- an alignment's raw value reads back as that alignment
  (`model::lemma_alignment_raw_round_trip`).
