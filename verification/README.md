# symbolic_regression

Building blocks of a symbolic regression tool, verified with Verus.

- `src/` is the verified library: expression trees (`types`), their
  pre-order traversal (`traversal`), the operators, functions and
  converters of the settings (`settings`, `defaults`), the lexer and the
  shunting-yard parser (`lexer`, `parser`, `error`), substitution of
  values (`subs`), what stops a computation (`compute`), complexity and the
  substitution of input rows (`fitness`), output conversion (`output`),
  printing as infix text (`display`), random choices of nodes (`random`),
  crossing and the mutations (`crossing`, `mutations`), input data checks
  (`input_data`) and identifiers (`utils`). Constants are held as IEEE-754
  binary64 bit patterns (`u64`); reading and printing a constant is done
  by a function the caller hands over, and the new subtrees and shifted
  constants of the mutations come from functions the caller hands over.
  A random source keeps a ghost record of its draws (the range asked for
  and the number given), and each random choice states which draw picks
  what, so its result is fixed by the draws.
- `app/` is the command line program: it reads input data (JSON or xlsx)
  and a JSON configuration, runs the evolution loop, and prints the best
  function. Everything that computes with floating-point numbers (values
  of trees, errors, probabilities, new random subtrees and constants,
  the text of a constant) lives there.
- `tests/` exercises the library.
