//! The order of dates.
use crate::types::Date;
use std::cmp::Ordering;
use vstd::prelude::*;
use vstd::std_specs::cmp::PartialOrdSpecImpl;

verus! {

/// How two dates compare: by their years, then their months, then their days, then
/// their hours. No field is held to a calendar.
pub open spec fn compare(left: Date, right: Date) -> Ordering {
    if left.years != right.years {
        if left.years < right.years {
            Ordering::Less
        } else {
            Ordering::Greater
        }
    } else if left.months != right.months {
        if left.months < right.months {
            Ordering::Less
        } else {
            Ordering::Greater
        }
    } else if left.days != right.days {
        if left.days < right.days {
            Ordering::Less
        } else {
            Ordering::Greater
        }
    } else if left.hours != right.hours {
        if left.hours < right.hours {
            Ordering::Less
        } else {
            Ordering::Greater
        }
    } else {
        Ordering::Equal
    }
}

impl PartialOrd for Date {
    fn partial_cmp(&self, other: &Date) -> (order: Option<Ordering>) {
        if self.years != other.years {
            if self.years < other.years {
                Some(Ordering::Less)
            } else {
                Some(Ordering::Greater)
            }
        } else if self.months != other.months {
            if self.months < other.months {
                Some(Ordering::Less)
            } else {
                Some(Ordering::Greater)
            }
        } else if self.days != other.days {
            if self.days < other.days {
                Some(Ordering::Less)
            } else {
                Some(Ordering::Greater)
            }
        } else if self.hours != other.hours {
            if self.hours < other.hours {
                Some(Ordering::Less)
            } else {
                Some(Ordering::Greater)
            }
        } else {
            Some(Ordering::Equal)
        }
    }
}

impl PartialOrdSpecImpl for Date {
    open spec fn obeys_partial_cmp_spec() -> bool {
        true
    }

    open spec fn partial_cmp_spec(&self, other: &Date) -> Option<Ordering> {
        Some(compare(*self, *other))
    }
}

/// The order of dates is that of their fields taken one after the other: a date
/// comes before another exactly if, at the first field in which they differ, it has
/// the smaller number.
pub proof fn lemma_order_is_lexicographic(left: Date, right: Date)
    ensures
        compare(left, right) == Ordering::Equal <==> left == right,
        compare(left, right) == Ordering::Less <==> {
            ||| left.years < right.years
            ||| left.years == right.years && left.months < right.months
            ||| left.years == right.years && left.months == right.months && left.days < right.days
            ||| left.years == right.years && left.months == right.months && left.days == right.days
                && left.hours < right.hours
        },
        compare(left, right) == Ordering::Less <==> compare(right, left) == Ordering::Greater,
{
}

} // verus!
