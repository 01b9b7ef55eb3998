# nobox

The policy of a small stacking window manager, written in Verus: the functions of the library
carry contracts, and Verus proves them.

The library knows no display server and touches no file. It decides; whoever uses it draws,
reads, and writes.

## Layout

`src/` is the verified library.

- Desktop: `geometry`, `size`, `outputs`, `workspace`, `policy`, `arrange`, and `placement` hold
  the values and the arithmetic of windows on screens. `desk` says what a desktop of managed
  clients is and how each operation changes it; `clients` is the set that runs; `desk_laws`
  relates the operations to each other.
- Configuration: `config` holds each section with its limits, the first fault that a
  configuration has, bindings and menus, the import of Openbox themes, and documents that are
  edited without losing their comments.
- Agents: `agent` says what a session may do, which clients it perceives, and what it is told of
  them.
- Applications: `desktop` walks directories, reads desktop entries, takes command lines apart,
  and orders the catalog.
- `text`, `path`, and `num` are what the others are made of.

`app/` is ordinary Rust around the library: TOML through `serde`, files, environment variables,
and error messages. Floating-point values are rounded there.

`tests/` runs the library from outside.

## Contracts

A type that the library checks has a `fault`: the first thing wrong with it, or nothing. Its
`validate` returns exactly that. A type that runs has a view, such as `Desk` for a set of
clients, and its methods say what view they leave behind. Functions whose names start with `law_`
state what holds across several operations.

A few functions of other crates and of `std` are believed rather than proved. Each of them stands
behind one small function whose documentation says what is claimed of it.
