# credit_exchanger

An exchange service for blocs, zones, individuals and units: users book
money and resource credits to each other, and standing subscriptions are
evaluated every hour and averaged every day.

## Layout

- `src/` is the library, verified with Verus. Amounts are a type parameter
  `A`: the library decides and records, the service computes.
  - `subscription` – subscriptions and the order in which they are booked
    (`Sr` before `Contract`, higher priority first, then by id).
  - `credit`, `resources`, `user` – credits, named resource credits, users.
  - `evaluation` – one credit's hourly evaluation: what each decision
    records, run in booking order.
  - `hourly` – settling an hourly evaluation across all users.
  - `daily` – closing the day of every user but units.
  - `directory` – finding, listing, removing and attaching subscriptions,
    bookings between credits.
  - `object_id`, `record` – the stored forms of credits and subscriptions.
  - `api`, `error` – requests, responses and the status of each failure.
  - `laws` – properties that hold across operations.
- `app/` is the HTTP service around the library: actix-web handlers,
  MongoDB access, the `f32` arithmetic on amounts, configuration.
- `tests/` exercises the library on concrete values.
