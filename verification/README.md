# easyparse

Parser combinators with a small arithmetic language, verified with Verus.

- `src/parser.rs`: the `Parser` trait (each parser has a meaning `spec_parse` on
  character sequences and a `parse` proved to compute it), `ParseError`, the
  `Mapper` and `CharPredicate` traits that `map` and `satisfy` take.
- `src/text.rs`: character classes; the Unicode ones are computed by the
  standard library and named in specs.
- `src/combinators.rs`: `char`, `string`, `satisfy`, `seq`, `choice`, `map`,
  `many`, `many1`, `optional`, `between`, `skip_whitespace`, `number`, and laws
  relating them.
- `src/toy_language.rs`: the expression language, its grammar as spec
  functions, the recursive parsers, and laws on precedence and white space.
- `src/evaluation.rs`: the variable `Context`, evaluation, `parse_and_evaluate`.
- `app/main.rs`: a demo program.

`seq` and `map` are reached by path: `easyparse::combinators::seq`,
`easyparse::combinators::map`.
