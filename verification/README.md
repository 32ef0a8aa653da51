# tcgscan

A trading-card scanner: scrapers that collect card listings and images from
a card marketplace into a SQLite database, and a camera program that
recognises a card by matching image descriptors against the stored cards.

- `src/` is the verified library (Verus): decimal text of numbers, string
  replacement, the addresses and request bodies the scrapers use, the page
  count read from the listing, the driver ports, grouping and ranking of
  descriptor matches (through `keyed_priority_queue`), and the camera key
  decisions.
- `app/` holds the programs around it: the browser and HTTP scrapers, the
  database layer, and the OpenCV camera views. Float geometry and float
  scores stay there.
- `tests/` exercises the library on concrete values.
