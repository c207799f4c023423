# pcb_impedance

A desktop helper for controlled-impedance PCB design. It lists the
fabricator's standard stack-ups for a board, asks the fabricator's
impedance solver for the trace widths that meet each requirement, keeps the
answers in a local cache and shows them per stack-up.

Layout:

- `src/` — the verified library (Verus). Quantities are exact thousandths
  of their unit in unsigned integers.
  - `text.rs`: decimal formatting, digit runs, substring search.
  - `number.rs`: reading a typed number as `f64::from_str` reads it,
    exactly, into thousandths.
  - `models.rs`: board settings, requirements, stack-ups, results and their
    views.
  - `cache.rs`: the result cache, its key format and hit-rate text.
  - `ids.rs`: random requirement and session ids (through `uuid`).
  - `solver.rs`: the solver request for a requirement, and the result built
    from its answer.
  - `templates.rs`: the template query and the rules that turn the listed
    constructions into the template list.
  - `desk.rs`: the front end's state and every decision it takes on a user
    action or a finished background task.
  - `laws.rs`: properties that span several operations.
- `tests/` — tests of the library on concrete values.
- `app/` — the gpui window, the HTTP client and the floating-point width
  estimate used when the solver does not answer.
