# jafgen

A generator of synthetic data for a fictional sandwich shop: customers with
personas place orders at stores over simulated days, sometimes tweet about
them, and the results are written as CSV files. The library under `src/` is
verified with Verus; `app/` is the web server around it.

## Layout

- `src/models/`: products, supplies, stores, customers and their personas,
  orders and tweets, each with the rows it is saved as.
- `src/simulation/`: days and seasons, a store's market and its day, the
  whole run and how it is cut down to a plausible dataset, and the CSV tables.
- `src/web/`: what a generation request becomes and what it is answered.
- `src/calendar.rs`, `src/text.rs`, `src/ids.rs`, `src/random.rs`: dates
  through `chrono`, decimal texts, UUIDs through `uuid`, random draws through
  `rand`.
- `src/laws.rs`: properties that span several functions.
- `app/`: the `axum` server, the floating-point demand model (seasonality,
  weekend dip, growth, market penetration, normal draws for order times), the
  name pool, and the CSV writer.

## Units

Money is held in cents, a store's popularity and tax rate in millionths, a
persona's chance to buy or tweet in thousandths. Dates are day numbers
(January 1 of year 1 is day 1) and moments are minutes since the start of day
0. The demand model hands the library, for each day and store, the store's
pull in millionths, how many customers are active, and one standard normal
draw (scaled by a million) for each active customer's order time.
