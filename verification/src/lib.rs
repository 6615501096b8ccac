//! Pose markers: the logic that turns a stream of decoded human-pose frames
//! into smoothed on-screen markers, one per tracked person and body part.
//!
//! A tick of the pipeline has two steps. [`figures::Figures::receive_data`]
//! takes in what the network brought, keeping the frame held before unless a
//! new one was decoded. [`figures::Figures::update_figures`] then lets every
//! marker follow the held frame: the landmarks of its body part are averaged
//! ([`marker`]), the average is mapped to the screen and the marker is moved
//! halfway toward it ([`screen`]), or hidden where the frame has nothing for
//! it.
//!
//! All coordinates are fixed-point integers with [`fixed::FRACTION_BITS`]
//! fractional bits, so every formula of the pipeline is exact integer
//! arithmetic with a stated rounding. Coordinates that arrive as binary64
//! numbers are read onto the grid by [`pose::Point::from_double_bits`].

pub mod buffer;
pub mod figures;
pub mod fixed;
pub mod marker;
pub mod pose;
pub mod screen;
