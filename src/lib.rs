//! Sidereal longitudes of the seven classical bodies and the lunar nodes by
//! the manda (equation of the centre) and sighra (conjunction) corrections,
//! worked in exact fixed-point integer arithmetic.
//!
//! Angles are integers of nano-degrees, elapsed time is in nano-days since
//! the epoch, rates are in hundred-millionths of a revolution per great
//! cycle, and sines are given in fine units of the classical sine-table
//! radius 3438, computed by a fixed-point Taylor series; arcs are found by
//! halving to the nano-degree.
//!
//! Of the method's variants this one is followed: every apogee moves (the
//! Moon's fast), the conjunction correction goes through the sine and cosine
//! components of the epicycle and their hypotenuse, and no latitude is found.

pub mod angle;
pub mod trig;
pub mod motion;
pub mod correction;
pub mod position;
pub mod calendar;
pub mod bodies;
