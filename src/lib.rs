//! Road network and vehicle behaviour for a city traffic simulation.
//!
//! `map` is the road graph store: intersections, roads, lanes and parking spots,
//! kept consistent by every edit. `traffic` derives the signal of each lane,
//! `vehicles` decides and integrates each vehicle's motion per tick, and
//! `itinerary`, `parking` and `souls` hold the per-agent state they work on.
//! Geometry is integral: positions in centimetres, headings scaled to a thousand.


pub mod arena;
pub mod geom;
pub mod inspect;
pub mod itinerary;
pub mod map;
pub mod parking;
pub mod resources;
pub mod souls;
pub mod spline;
pub mod traffic;
pub mod vehicles;
