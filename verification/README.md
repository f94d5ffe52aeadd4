# applicant_advocate

A local-first engine that turns one master CV into a tailored CV and a draft cover
letter for a job ad, with every claim traceable to evidence in the master CV. The
engine is written in Verus: its functions carry contracts over mathematical models of
the data, and the central promises are proved.

## Layout

- `src/` — the verified library.
  - `types` — the master-CV model; `job` — the normalised job.
  - `text`, `normalize`, `order` — strings, token normalisation and aliases, the stable sort.
  - `matching`, `coverage`, `keyword_coverage` — requirement matching and coverage.
  - `tailor` — ranking, the summary pick and the tailored view.
  - `ledger` — the evidence ledger and its guard.
  - `application` — the cover letter and the guarded application.
  - `ats`, `render`, `docx`, `samples` — ATS checks, templates, Word documents, sample values.
  - `jobparse` — the job-ad parser; `cvimport` — résumé extraction, segmentation,
    mapping and JSON mining; `advocate` — the rewrite layer's redaction and replies;
    `session`, `tracker` — the desktop session and the tracker's path rules.
- `tests/` — tests over concrete values.
- `app/` — the command-line tool and the I/O around the library: JSON files, the
  `typst` renderer, HTTP providers, the tracker store, and the PDF text extractor
  (run in isolation, since it can abort on malformed documents; the library takes
  its text or its error).

## Proved properties (selection)

- A view tailored from a master CV always passes the evidence-ledger guard, also after
  the user rejects bullets; a claim citing an unknown id always blocks it.
- The tailored view keeps at most N achievements per role, drops hidden roles, and
  lists roles and achievements best first.
- A sample-bearing export is never written under the normal file names.
- Coverage ratios never exceed one; a keyword is found exactly when surfaced evidence
  backs it.
- Every candidate matches each phrase its own CV states (skill names, tags,
  achievement texts) once the phrase has a token; evidence ids come in strictly
  increasing order, each naming a record of its kind.
- Every job ad parses; DOCX import yields one line per paragraph exactly when the
  archive, the document part, its UTF-8 and its XML all read.
- A generated CV or cover-letter document reads back through the importer as its
  paragraphs, one line each (for texts free of characters the writer escapes), and a
  CV without the sample watermark reads back with its name.
- Matching an ASCII requirement ignores ASCII case.
