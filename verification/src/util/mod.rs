/// Values that are borrowed or owned.
pub mod maybe_owned;
