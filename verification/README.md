# roundhouse

A small web app for MARTA, Atlanta's transit system: an arrivals board for the
trains, a page per station and per train, and pages for the buses on a route.

- `src/` is the library, verified with Verus: how the rail feed is normalised and
  grouped by station, which arrivals the board shows and in what order, how station
  paths, train ids and the starred-stations cookie are read, how realtime bus trips
  are matched to routes and schedule rows and how late a bus is, the stop search,
  and which GTFS schedule file fills which table. Calls into `chrono` and
  `fastrand` stand behind small trusted wrappers in `src/clock.rs` and
  `src/views.rs`.
- `app/` is the server around it: fetching the feeds, the database, the HTML
  pages, and the schedule import tasks.
- `tests/` exercises the library on concrete values.
