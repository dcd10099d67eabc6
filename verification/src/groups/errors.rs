//! Rules on code that is most likely a mistake.

pub mod no_extra_semi;
