//! NGX DLSS fetcher: what the NVIDIA NGX update servers offer, and how it is
//! downloaded.

pub mod arrange;
pub mod gui;
pub mod ngx;
pub mod number;
pub mod order;
pub mod size;
pub mod text;
