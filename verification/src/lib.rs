//! Log tail scanner: finds the last line of a log document that contains the
//! marker phrase "Generating level" and extracts the fourth space-delimited
//! token after the marker, trimmed of surrounding whitespace and with all
//! double quotes removed.

pub mod scan;
pub mod text;

pub use scan::extract_area_name;
pub use scan::extract_area_name_chars;
pub use scan::ScanError;
