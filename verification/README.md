# lsd

The rules of an event site, verified with Verus: how many spots a guest may still
reserve, how the RSVP forms are read and checked, how coupon codes are judged, how Stripe
webhook deliveries are authenticated and what each one leads to, how checkout line items
are grouped, how the flyer caches behave, and the small decisions that the web handlers
make.

Layout:

- `src/` — the verified library. `db/` holds the stored records and the rules on them
  (limits, statistics, coupons, sessions, tokens, caches); `app/` holds what the request
  handlers decide (form parsing, redirects, messages, webhook decisions); `text.rs` holds
  the verified string helpers; `calendar.rs` holds calendar days (leap years, the day
  after a day) and the calls into `chrono` and `chrono-tz` that turn an instant into a
  local date and a local time back into an instant; `cookies.rs` and `clock.rs` hold the
  calls into the `cookie` crate and the system clock.
- `tests/` — concrete cases, run against the compiled library.
- `app/` — a small command-line front end that reads JSON forms, webhook deliveries and
  pasted email lists, and keeps the process-wide caches.

Timestamps are `i64` microseconds since the Unix epoch (UTC) throughout.
