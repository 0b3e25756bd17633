//! Grouping-and-selection policy for an interactive duplicate-variant
//! cleaner: files sharing a stem are grouped, the variant whose extension
//! ranks first in a priority list is kept, and the rest become candidates
//! for a confirmed move or delete.

pub mod ascii;
pub mod bytes;
pub mod group;
pub mod keep;
pub mod name;
pub mod options;
pub mod paths;
pub mod plan;
