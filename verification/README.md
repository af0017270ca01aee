# exch

A mock exchange: limit order books in price-time priority, venues with balances, reservations and
maker/taker fees, a log of public events that can be replayed, gateways for order entry and market
data, and a simulator. The library is written in Verus; every function in `src/` states what it
does in its contract, and the contracts are proved.

## Layout

- `types`, `model`, `side`, `book`: the matching engine. A book is modelled as two queues, best
  order first; `book::OrderBook` is proved to follow that model.
- `validity`, `book_laws`, `rebuild`: what every operation on a book keeps, conserves and tells.
- `checksum`: the CRC-32 over the visible levels.
- `fees`, `ledger`, `instrument`, `risk`, `settlement`, `venue_model`, `venue`, `venue_laws`: a
  venue. Every reservation is exactly what the resting orders call for, and no command makes an
  asset more or less.
- `events`, `feed_log`, `feed_laws`, `runtime`, `command_laws`: events as text, the log of public
  events and what it gives back after a restart, and laws over whole series of commands.
- `text`, `protocol`, `order_entry`, `market_data`, `sessions`, `rate_limit`, `seeding`,
  `line_laws`: the line and message protocols.
- `sim_config`, `sim_world`, `sim_feed`, `sim_run`, `research`: generated worlds and their shape.
- `sim_single`, `sim_global`, `sim_shock`, `sim_laws`, `shock_laws`, `chart`: the simulations, what
  they count, and the figures of the chart of a shock.

`app/` holds the programs around the library: sockets, files and threads. The items that are
believed rather than proved are `sim_run::sort_unstable`, which calls the standard library's sort,
and the readings of the clock in `clock`, of which nothing is stated.

Prices and quantities are integers. Public proof functions whose names begin with `law_` state
what holds of the library as a whole.
