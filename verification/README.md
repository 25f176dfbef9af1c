# filt-rs

A human-friendly filter expression language for matching objects against
user-provided queries, such as

```text
repo.public && !repo.fork && repo.name in ["git-tool", "grey"]
```

## Layout

- `src/` is the verified library. It scans expressions into tokens
  (`lexer`, `token`, `location`), parses them into expression trees
  (`parser`, `expr`, `filter`), which users walk with their own
  `ExprVisitor`, checks function calls against the built-in functions
  (`functions`) and duration literals against their units (`duration`), words the
  messages and advice of rejected filters (`message`), and holds
  the case-insensitive string operations (`case_sensitivity`) and the glob
  and regular-expression patterns (`pattern`) which the operators use. Every
  function has a contract, and the laws of the language (how `like` relates
  to equality, where tokens are located, what `trim` removes, ...) are proof
  functions beside the code they are about.
- `app/` evaluates parsed filters against objects. Values hold 64-bit
  floats and datetimes, so evaluation, the value type, the functions'
  run-time behaviour and the printing of literals live there.
- `tests/` exercises the library on concrete inputs.
