# ttt — terminal testing tool

Reads `.test` files (see the format below) and runs their test cases against
real programs.

- `src/` is the library, with its contracts and proofs: the grammar of `.test` files and
  its parser (`grammar`), the test suite model (`common`), the conversion of
  the syntax into test suites and the printable parse tree (`test_parser`,
  `ast`), and the decisions of a test run as a state machine (`test_runner`).
- `app/` is the program: it reads `sample.test`, performs the actions that the
  runner asks for on real processes (through `expectrl`) and prints the results.
- `tests/` holds the tests of the library.

## File format

```
{program_name} = echo

[Test 1]
# a comment
$ {program_name} foo
> foo
? 0
```

- `[name]` starts a test case; `{name} = value` sets a variable (only in front
  of the first test case);
- `$ command` launches a program (`{var}` at its start is replaced by the
  variable's value), `< text` writes a line to its input, `> text` expects
  that output, `r regex` expects output that matches, `^ c` sends a control
  character, `? code` (or `? <code`, `? >code`) expects an exit code;
- an instruction may start with a process number (`1$ cat`); without one it
  addresses process 0.
