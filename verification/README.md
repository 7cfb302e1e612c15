# hotel_reservation

The decisions of a hotel recommendation service, verified with Verus.

* `src/` — the verified library: rate-plan selection by favourite features
  (`rate`), popularity-based recommendation (`recommendation`), nearest-first
  ranking and hotel-info peeks (`geo`), pairing of nearby hotels with their
  distances (`research`), grouped caches (`cache`), comment records and their
  reading from BSON documents (`profile`, `document`), credential checks
  (`user`), byte-wise string order (`order`), and the properties that tie the
  operations together (`laws`).
* `app/` — the monolithic service around it: MongoDB access, timing, the
  floating-point distance computation, and the benchmark commands.
* `tests/` — tests of the library on concrete values.
