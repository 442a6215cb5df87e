# voltic

Black-Scholes implied volatility, written in Rust and verified with Verus.

A premium, with the spot, the strike, the expiry, the rate and the kind of an
option, determines a volatility. The library works it out in several ways, over
batches of options taken eight at a time:

| module        | method                                                        |
|---------------|---------------------------------------------------------------|
| `direct`      | Newton's method on the price; a volatility or a NaN           |
| `typed`       | a third-order step in a wide bracket; a status for every case |
| `schadner`    | a quantile of the inverse Gaussian law                        |
| `jackel`      | a rational guess and two third-order steps                    |
| `otm_context` | what depends on strike and expiry alone is done once          |
| `naive`       | one option at a time, as a baseline                           |

## What is proved

Numbers are held by their IEEE 754 encodings, and their order, signs,
neighbours, extremes and clamps are exact. Rounded arithmetic is done by a
machine that the caller supplies: an implementation of `arith::Arith` with seven
operations.

- For a machine that always answers alike, each result equals a spec function
  over the machine's operations: which formula is evaluated, on what, in which
  order, how an iteration runs, and when an answer is accepted.
- For any machine at all: a reported volatility is a NaN or lies strictly inside
  the reported range, iterates never leave their bracket, an option without
  plausible terms is refused, a status always carries the value that belongs to
  it, and no function panics on inputs that meet its `requires`.
- The laws of the library stand beside the functions as public proof functions
  whose names begin with `law_`: a batch gives each option what it gets on its
  own, a reported volatility prices back to its premium, what the typed solver
  refuses is a NaN from the direct one, a converged lane is frozen, a table reads
  back as it was written, and others.

How close a computed volatility comes to the true one is a question of rounding
errors. It is measured by the tests, not proved.

## Layout

- `src/`: the verified library.
- `tests/`: tests of the library on hardware numbers.
- `app/`: hardware arithmetic, the entry points on hardware numbers, the
  benchmark programs, files, and the Python module.
