# ypbank_tools

A verified library for two small services:

* **Transactions** (`format`, `csv_format`, `text_format`, `bin_format`,
  `model`, `error`, and the functions at the crate root): reading and
  writing lists of financial transactions as CSV, as `;`-separated text
  and in the binary `YPB1` format; converting between formats; comparing
  two lists and reporting their first difference.
* **Quote streaming** (`streaming_quotes`): reading ticker lists, reading
  client commands (`PING`, `STREAM <udp-address> <tickers>`), reading quote
  lines, and the decisions of a client session and of a quote stream.

Every function states its result exactly in its contract, over the models
in `text` (lines, trimming, splitting), `decimal` (integer text) and vstd's
UTF-8 specification. `laws` and `streaming_quotes::laws` prove what holds
across calls: each format reads back what it wrote, a comparison finds no
difference exactly between equal lists, a granted stream only carries
allowed tickers, and a quote line reads back its fields.

`app/` holds the programs: file and console I/O, sockets and threads, and
the floating-point quote prices.
