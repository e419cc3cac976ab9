# Wombat

Wombat evaluates the Lua configuration of a dotfiles repository into an explicit plan
that can be read before anything happens. This crate is its library, written in
[Verus](https://github.com/verus-lang/verus): every function of `src/` carries a
contract that says what it returns, for every input, and Verus proves it.

## Layout

- `src/` is the library. It reads no files, runs no processes and holds no Lua state:
  what was found out about them is handed to it as plain values.
  - `text`, `number`, `order`, `sorting`: strings, numbers and orders.
  - `error`: errors, and the words that contracts speak of them in.
  - `json`, `codec`, `glob`, `digest`: what is taken from `serde_json`, `toml`,
    `serde-saphyr`, `globset` and `sha2`. These hold the declarations that are trusted
    rather than proved; `text` holds those of the standard library.
  - `model`: platforms, frozen values, paths, selectors, ladders, plans and products.
  - `lua`: what configuration code declares and observes, and how that becomes a
    manifest.
  - `project`: settings of a repository, of its inputs and of the user.
  - `inspection`: what is shown of plans and products.
  - `requirements`: how requirements are checked and met.
  - `presentation`, `initialize`: terminal output and new repositories.
- `tests/` runs the library on concrete values.
- `app/` is the program around it: arguments, files, processes, the Lua states, the
  template renderer, and the records that are read and written with `serde`.

## Contracts

Contracts describe outcomes by the first problem that an input has. `reports(r, p)` says
that `r` is a success exactly where `p` is `None`, and otherwise a configuration error
whose message is the one in `p`; `settles` does the same for errors of several kinds.
A `*_problem` function gives that message for an input.

Functions whose names begin with `law_` are proofs about several functions at once: that
reading undoes writing, that what was accepted holds together, that a step brings an end
nearer.
