# ui_kit

The logic of a component kit, verified with Verus.

- `src/` is the verified library: the dynamic form flow (`form/`), dates
  (`datetime`), colours (`color`), the hierarchy graph editor and its
  queries (`graph`, `branches`), what a hierarchy view shows and how it
  paints it (`viewer`), flow-graph columns (`flow`), the horizontal menu's
  state machine (`menu`), label and editor markup (`markup`), one-time-code
  input decisions (`otp`), bill formatting decisions (`bill`), the style
  enums (`style`) and the character helpers they share (`text`). Each public
  function states its result in `ensures`; the `law_*` proof functions state
  what holds across calls.
- `tests/` runs the library on concrete values.
- `app/` holds what works in floating point (bill arithmetic, colour
  spaces, progress, graph geometry) and the serde forms of the form types,
  built on the library's decisions.
