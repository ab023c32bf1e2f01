# polybot

Research tooling for a regulated sports-prediction venue. It reads moneyline
quotes from independent sources, builds a fair price from them, compares it with
the venue's executable book, and says which sides clear every gate. Positions are
paper only: nothing here places an order.

`src/` is the library. Every function in it states what it does in `requires` and
`ensures` clauses, and Verus proves them; laws that span several functions stand
beside them as public proof functions.

| module | what it holds |
| --- | --- |
| `decimal`, `time`, `text`, `textmap`, `seqs` | numbers, instants, texts, maps by text, sequences and sorting |
| `domain`, `error` | markets, quotes, rows, the paper book, news, failures |
| `config` | the settings in force and their bounds |
| `matching`, `consensus` | which quote belongs to which market; the fair price |
| `risk`, `sizing`, `opportunity` | fees, sizing and what it keeps to, exposure; the classification of a side |
| `scanner`, `scan` | the decisions of a scan; a scan from its first question to what it leaves behind |
| `paper`, `storage` | the paper book; leases, paths, loading |
| `news` | search terms, evidence, what it does to a candidate |
| `sources` | one reader per odds feed, and the catalog |
| `polymarket` | the venue's payloads, paging, pacing, closing lines |
| `history`, `records`, `replay`, `metrics`, `audit` | the archive, grading, replay over it, and its audit |
| `accounts`, `exposure` | what adds up in every replay: orders, positions, bankroll, what is at risk |
| `health`, `dashboard`, `tui` | what an operator sees |

`app/` is the program around it: command line, files, network, database, the
terminal. It decides nothing that the library decides.

`tests/` runs the library on concrete values.
