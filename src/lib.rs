//! Host uptime reporting: parsing of the kernel's uptime, load-average and
//! login-record sources, and rendering of the elapsed time since boot.

pub mod elapsed;
pub mod loadavg;
pub mod number;
pub mod render;
pub mod sessions;
pub mod text;
