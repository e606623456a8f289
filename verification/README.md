# junit-report

Collects JUnit XML test reports (`TEST-*.xml`, or `.xml` files below
`surefire-reports`, `test-results` or `surefire-it-reports`) and prints the
directories that hold them, a markdown summary of the results, or the
`system-out` / `system-err` text of one report.

- `src/` is the verified library (Verus): path rules (`path`), decimal and
  text helpers (`text`), the XML node model and report reading (`xml`,
  `report`), totals and markdown (`summary`), file selection, directory
  listing and output choice (`listing`). XML parsing itself is done by
  `roxmltree` behind one trusted function in `xml`.
- `app/main.rs` is the command line: argument parsing (`clap`), directory
  walking (`walkdir`), file reading and printing.
- `tests/` runs the library on concrete inputs.
