# vynkor_plugins

The logic of a set of kernel plugins, written in Verus and proved against its
contracts, with ordinary Rust around it that talks to the kernel, the disk, the
network and the desktop.

## The library (`src/`)

| Module | What it decides |
| --- | --- |
| `network` | Which HTTP requests are accepted, where they may go (`ssrf`), how bodies, multipart forms and cookies are written, when an attempt is tried again, what the cache keeps, and how many requests a caller may have in flight. |
| `database`, `sync`, `secrets` | Requests against a caller's key-value file, the shared versioned store with its deltas and heartbeats, and a caller's vault. |
| `notes`, `calendar`, `scheduler` | Documents kept by `database`: each action and each timer scan is a state machine that says what to ask next. |
| `ai`, `search` | Requests to completion and search providers, the tables of models and agents, and usage statistics. |
| `notify`, `sound`, `clipboard`, `media` | Which host program or player is used, with which arguments, and what its outcome means. The inbox of `notify`. |
| `filesystem` | The sandbox: which paths lie inside the allowed roots. |
| `sync_client`, `serving`, `rpc`, `action` | The message loops, replies, calls between plugins and reconnecting. |
| `text`, `fields`, `number`, `json`, `strmap`, `sorting`, `listing`, `settings`, `caller` | What the plugins share: strings, lists in settings, decimal numbers, JSON text, maps keyed by text, sorting, paging, settings, caller ids. |
| `trusted` | The outside functions that the library calls, with the contracts that are believed of them. |

Where an outside crate computes something in the middle of a decision (URLs,
base64, cron expressions, JSON text), the call stands in `trusted` and the
result has a name in the contracts. Beside each such function stands one that
takes the result as an argument.

Contracts are exact: they say what comes back for every input, and which
complaint comes when. Laws that relate several functions are the public proof
functions named `lemma_…`.

## The program (`app/`)

`vynkor-plugins <plugin>` serves one plugin. It holds what cannot be proved
here: sockets, processes, SQLite, D-Bus, files, the clock, floating-point
volumes, and the types that carry serde's derives.

## Tests (`tests/`)

Ordinary Rust tests of the public functions, run with the real outside crates.
