# cat

The logic of the `cat` utility, with contracts that Verus proves, and a thin
program part that performs the input and output.

The library never reads or writes. `session::Session` says what to do next
(`Action`), is told what came of it (`Event`), and goes on until it orders to
finish. Whoever drives it opens the files, reads blocks of them, and performs the
operations it lists.

- `src/text.rs`: what each byte of input puts out, over sequences of bytes
- `src/line.rs`: putting out the bytes of one line; line numbers
- `src/lines.rs`: the operations for one block of a file
- `src/options.rs`, `src/args.rs`: options, and what the command line asks for
- `src/input.rs`: file types and how files are opened
- `src/error.rs`: errors and their messages
- `src/session.rs`, `src/cat.rs`: a run over all its files, and how one begins
- `src/laws.rs`, `src/trace.rs`: laws of the output and of whole runs
- `app/`: the command line, files, sockets and streams
