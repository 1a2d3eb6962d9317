# snapcoin-db-inspector

Inspection and anomaly detection for the transaction-output store of a Snap-Coin node. The store
is a sled database whose default tree maps the base-36 id of a transaction to its outputs.

`src/` is the verified library. It works on what was read from the store (`store::Snapshot`,
`store::Lookup`) and decides everything that is shown, answered or raised:

- `text`, `amounts`, `keys`, `codec`, `outputs`: numerals, amounts, base-36 names, hexadecimal and
  the stored form of outputs
- `model`: the mathematical picture of the store that the contracts speak of
- `rank`, `index`, `tally`: rankings, leaders, numbered names and running totals
- `db`, `wallet_stats`, `intelligence`, `utxos`: the scans
- `buckets`, `inspect`: the keys of the default tree
- `events`, `json`, `rules`, `scanner`, `sentinel`: anomaly rules and their events
- `cli`, `lines`, `api`, `ws`: what the command line prints and what the server answers
- `laws`: what holds between all of these

`app/` is the program around it: it reads sled, parses arguments, serves HTTP and WebSocket, and
renders JSON. The dashboard page is served from `static/db_dashboard.html`.

`tests/` runs the library on concrete stores.
