# updown_bot

The logic of a trading bot for short up/down prediction windows, written in Verus, which proves
the contracts of its functions. Only calls into other crates are believed: each stands in a private
function whose doc comment says what its contract claims.

- `src/` is the library. It holds the analytics (attribution, markouts, roll-ups, adverse-selection
  alarm, strategy matrix, order activity), the replay driver and the parameter sweep, the control
  plane, the command line, the views that the terminal sessions draw, the daily digest, and the
  decisions that the sessions' loops make.
- `tests/` runs the library on concrete values.
- `app/` is the program around it: files, sockets, timers, and all floating-point arithmetic. It
  hands the library plain values and carries out what the library decides.

Money is a decimal of `rust_decimal`, held as an `Amount`; the library calls that crate through a
few private functions whose contracts stand at the head of `src/decimal.rs`. An `Amount` is
normalized, as prices and dollars are stored; a decimal that is shown as it was written or computed
is a `Figure`, which keeps its trailing zeros. Decimals are bounded: a function that computes with
them has a `checked_` form, which gives a result exactly where every step has one. Floating-point
readings reach the library as order keys (`src/floatkey.rs`): integers that compare as the readings
do.

What holds of the library as a whole is stated in public proof functions whose names begin with
`law_`, each in the module that it is about.
