//! Roundhouse: the decision logic behind a MARTA (Atlanta transit) arrivals board.
//!
//! The library holds what the web front end computes: how a train arrival from
//! the MARTA feed is normalised, grouped by station and ordered, how stations are
//! named in URLs and on screen, how the starred-station cookie is read and written,
//! how bus trips are matched to routes, and how delays are described.
pub mod text;

pub mod uri;

pub mod ordering;

pub mod marta;

pub mod store;

pub mod trains;

pub mod transit;

pub mod clock;

pub mod bus;

pub mod stops;

pub mod schedule;

pub mod views;

pub mod app;
