# decompiler

A binary decompiler core for x86 / x86-64 code, written in Verus: every
function in `src/` carries a `requires` / `ensures` contract that Verus
proves, stated over spec functions and views (`Seq`, `Map`, `Set`).

## Layout

- `src/disasm/` – instruction records, x86 decoding (through `iced-x86`,
  behind trusted wrappers whose results are named), and the control flow
  graph (a `petgraph` graph behind trusted wrappers, with a type invariant
  tying it to its block and edge model).
- `src/analysis/` – function detection, type inference, code patterns
  (through `regex`), and the report package: call graph, cross references,
  API insights, behavior findings and the risk score.
- `src/decompiler/` – the AST, lifting instructions to statements,
  structuring (placeholder upgrades, CFG-aware `if`/`else` recovery,
  pseudo-register declarations), signature recovery, the optimizer, C
  syntax helpers and the C generator.
- `src/binary/` – binary format detection and parsed-binary records.
- `src/text.rs` – character-level helpers shared by all passes.
- `src/utils/` – the error type.
- `app/` – the command-line program: file I/O, argument handling, and the
  serde / thiserror copies of library types.
- `tests/` – scenario tests, and tests of the laws on concrete values.

## Not included

The library decompiles flat x86 / x86-64 code. It has no ELF, PE or Mach-O
parser (formats are only recognized by their magic bytes), no ARM decoder,
no runtime detection, no CyberChef decode-recipe suggestions, no PE
data-directory inventory and no string-reference annotation of the
generated C.

## Laws

Besides the per-function contracts, `src/` proves properties that span
calls, as public proof functions, for example:

- report: `lemma_package_counts` (the summary counts what the package
  lists), `lemma_stable_sorted_*` (the stable sort keeps the elements and
  orders them);
- xrefs: `lemma_call_graph_laws` (one edge per caller and callee, in
  strictly increasing order, each counting its call sites),
  `lemma_call_graph_counts_every_call`, `lemma_call_graph_callers_are_functions`,
  `lemma_call_graph_sites` (each edge holds exactly its calls' sites, in order),
  `lemma_import_xrefs_laws` (one entry per imported function, ordered, each
  with its own address and ordered call sites);
- behavior: `lemma_risk_score_bounds`, `lemma_behavior_report_laws`
  (finding count, severity order, score and level);
- functions: `lemma_detected_functions_cover_stream`, `lemma_detected_starts_are_seeds`;
- API classes: `lemma_classify_api_ignores_case`;
- control flow: `lemma_cfg_blocks_partition`, `lemma_control_transfer_ends_block`,
  `lemma_block_out_edges`, `lemma_cfg_successors_mirror_predecessors`,
  `lemma_returning_block_has_no_successor`;
- optimizer: `lemma_fold_idempotent`, `lemma_pruned_return_is_last`,
  `lemma_optimized_body_has_no_empty`;
- C syntax and generation: `lemma_sanitized_ident_valid`,
  `lemma_sanitized_comment_never_closes`, `lemma_quoted_string_reads_back`,
  `lemma_function_text_shape`, `lemma_inline_asm_comment_closes_once`;
- lifter and signatures: `lemma_unique_names_distinct`,
  `lemma_preset_parameters_kept`.

`structure_function_with_cfg_checked` is the entry point that tests the
precondition of CFG-aware structuring (`arm_slices_fit_exec`) before it
structures.
