# Le Grinder

The verified core of a bot for five-minute "up or down" windows of a crypto
asset. On each window it buys the favourite with its whole stack when the price
is in the band and the guard confirms it, compounds what it wins, and sells in a
hurry when the guard turns red. A window that is lost is a wipe: the next run
starts from the base.

Every quantity is a fixed-point integer (`src/fixed.rs`), so each rule is an
exact statement about integers, proved with Verus.

| Module | What it holds |
|---|---|
| `fixed`, `text`, `clock` | fixed-point numbers, texts, instants |
| `types`, `engines::radar`, `tokyo` | the spot exchange's book, the runaway detector, the local guard |
| `remote_guard` | the datagrams of the remote radar |
| `book`, `paper`, `sweep_laws` | the books of the two tokens, simulated execution, and what it is worth |
| `position`, `settle`, `state` | the position, the accounts, what is remembered |
| `grinder` | the bot: entries, exits, the close of a window, the slow loop |
| `live` | real orders: what is checked, what a reply means, the sale of everything |
| `config`, `dashboard` | settings from the environment, and the monitoring page |

`app/` is the program around it: the loop, the network, the files. It reads what
the library asks for, does what it decides, and holds the floating point at the
edge (the logarithm of the spot over the strike, and the drift and volatility
estimates).
