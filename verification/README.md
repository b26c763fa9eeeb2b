# fuzzcheck_mutators

Building blocks of a structure-aware fuzzer, written in Verus and proved against their
contracts.

- `grammar`: grammars over characters (`grammar`), the syntax trees they produce (`ast`),
  a backtracking parser from strings to syntax trees (`parser`) and the conversion of
  regular expressions into grammars (`regex`). The language of a grammar is defined by
  derivations (`language`). Every parse is the syntax tree of a derivation (a
  concatenation gives one tree per part, each for its piece of the string) and prints
  back as the text it was parsed from. Whenever the parser's search ends, it finds a
  parse of a string exactly when the string belongs to the language. The search may run
  forever on a grammar that recurses without consuming a character (left recursion); it
  always ends on a grammar without left recursion, among them every grammar built from a
  regular expression (`termination`). The parses of a concatenation come part by part,
  and those of a repetition stop first and then go on (`order`). Positions in a string handed to or returned by
  `grammar_parser` are byte offsets in its UTF-8 encoding.
- `integer`, `integer_within_range`: the order in which the values of a range are
  generated (the middle first, then the middles of the halves), proved to give every
  value of the range exactly once, and mutators of integers bounded by a range.
- `char`, `character_classes`, `bool`: mutators of characters within a range of code
  points or within a list of ranges, and of booleans.
- `range`: conversions between inclusive ranges and the pairs of their bounds.
- `vector`: mutations of vectors (insertions, removals, swaps, copies, crossovers, ...).
  Each one gives back a token (`mutations::RevertMutation`) that undoes it, and the
  library proves that applying the token gives back the vector that was there.

Complexities are whole numbers of bits. Where a mutation needs what another mutator makes
of an element, it takes that outcome as an argument.

`app/` holds what stays outside the proofs: syntax trees that serde can read and write,
ranges given as `RangeBounds`, and the loops that draw random characters again until they
fall on one.

Not part of this crate: a common trait for mutators and the mutators that combine others
through it (alternations, fixed-length vectors, tuples, options, maps, and the mutator of
syntax trees driven by a grammar), and complexities given as floating-point numbers. The
trait is not defined here, so nothing in `app/` stands for them either.
