# xlsplice

Surgical edits to Excel packages (`.xlsx`, `.xlsm`): read and write cells by
address or defined name, read and write custom document properties, set the
calculate-on-load flag, and report which parts of two packages differ. Every
part a write does not target stays byte-identical; there is no formula engine
and no whole-file re-serialisation.

```
xlsplice set --type number -- book.xlsx Inputs!A1 42
xlsplice props set --type date -- book.xlsx Run.At 2026-09-13
xlsplice calc --full-calc-on-load -- book.xlsx
xlsplice diff -- template.xlsx book.xlsx
```

## Layout

- `src/` is the library, written in Verus and verified: the XML reading over
  the parts, the workbook, worksheet, shared-string, relationship, calc-chain
  and custom-property models, target resolution, the splices a write comes to
  and how they merge and apply, the batch-level settlements (an emptied calc
  chain, new properties, new rows), the comparison of two packages, and the
  layout of what a command prints and exits with. Each public function states
  in its contract what it returns, over spec functions of the package text;
  the `law_` proof functions state what holds across calls.
- `app/` is the program around it: the command line (clap), the zip container
  (reading parts, rebuilding it around the edited ones, and replacing the file
  in one rename), the JSON documents (serde), and floating point — reading a
  number or a date a caller wrote and spelling a double back.
- `tests/` runs the library on concrete packages' parts.

## What it guarantees, and how each is shown

Proved in `src/` (Verus checks these against the library's contracts):

- **A write that changes nothing writes nothing.** What a batch's edits come to
  holds no content where every splice leaves its part as it was
  (`law_a_write_that_changes_nothing_writes_nothing`).
- **Only the parts a write names are touched.** What a batch's edits come to
  names no part that none of its edits names
  (`law_only_the_parts_edited_are_touched`).
- **The order splices are given in does not matter.** Any two lists holding
  the same splices, each as often, splice a part the same way or fail at the
  same splice (`law_splices_land_however_they_were_ordered`); insertions
  merged at one byte go in in the order they were asked for.
- **A credited operation stays credited.** No call on `Wanted` takes back the
  record that an operation changed something (`credits_kept` in each
  contract, `law_applying_keeps_every_credit`).
- **The rebuilt container copies every part no edit names.** The plan it is
  written by copies each such entry as it is, in the container's order,
  writes each edited one anew, and writes nothing for one taken out
  (`law_the_rebuilt_container_copies_what_no_edit_names`).
- **A reference the library writes reads back** as the sheet and cell it was
  written from (`law_a_written_reference_reads_back`).
- **A part is read only where the parse's byte ranges fall on whole
  characters**; anything else is refused as unreadable.

Resting on the program in `app/`, which Verus does not see, and shown only by
reading it:

- Each step of that plan is carried out on the zip container as it says.
- Any non-zero exit means nothing was written: every edit is worked out before
  the package is touched, and the result is written beside it and renamed over
  it.
- `--json` is the stable interface, and changes to the envelope are additive.
