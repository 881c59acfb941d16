//! The simulated days: their dates and what the calendar says of them.

use vstd::prelude::*;
use crate::calendar::{
    day_number_of,
    calendar_fields, calendar_of, day_in_range, day_number_from_ymd, valid_ymd, weekday_from_monday,
    weekday_of,
};

verus! {

#[derive(Debug, Clone, Copy, PartialEq, Eq, Structural)]
pub enum Season {
    Winter,
    Spring,
    Summer,
    Fall,
}

/// The season of a date by its month and day: each season starts on the
/// 21st of March, June, September and December.
pub open spec fn season_of(month: int, day: int) -> Season {
    if month == 1 || month == 2 {
        Season::Winter
    } else if month == 3 {
        if day <= 20 {
            Season::Winter
        } else {
            Season::Spring
        }
    } else if month == 4 || month == 5 {
        Season::Spring
    } else if month == 6 {
        if day <= 20 {
            Season::Spring
        } else {
            Season::Summer
        }
    } else if month == 7 || month == 8 {
        Season::Summer
    } else if month == 9 {
        if day <= 20 {
            Season::Summer
        } else {
            Season::Fall
        }
    } else if month == 10 || month == 11 {
        Season::Fall
    } else if month == 12 {
        if day <= 20 {
            Season::Fall
        } else {
            Season::Winter
        }
    } else {
        Season::Winter
    }
}

/// The first day of the default simulation, September 1, 2023.
pub fn epoch() -> (r: i32)
    ensures
        day_in_range(r as int),
        calendar_of(r as int).0 == 2023,
        calendar_of(r as int).1 == 9,
        calendar_of(r as int).2 == 1,
        calendar_of(r as int).3 == 244,
        r == 738_764,
{
    assert(valid_ymd(2023, 9, 1));
    assert(day_number_of(2023, 9, 1) == 738_764);
    assert(day_number_of(2023, 1, 1) == 738_521);
    day_number_from_ymd(2023, 9, 1).unwrap()
}

/// A day of the simulation: its index from the first simulated day, a
/// minute of that day, and its date with the calendar fields of that date.
#[derive(Debug, Clone, Copy)]
pub struct Day {
    date_index: i64,
    minutes: u32,
    date: i32,
    year: i32,
    month: u32,
    day_of_month: u32,
    day_of_year: u32,
    weekday: u32,
}

impl Day {
    /// The fields hold what the calendar says of the date.
    #[verifier::type_invariant]
    spec fn wf(&self) -> bool {
        &&& day_in_range(self.date as int)
        &&& calendar_of(self.date as int) == (
            self.year as int,
            self.month as int,
            self.day_of_month as int,
            self.day_of_year as int,
        )
        &&& self.weekday == weekday_of(self.date as int)
        &&& 1 <= self.month <= 12
        &&& 1 <= self.day_of_month <= 31
        &&& 1 <= self.day_of_year <= 366
    }

    /// The day number of the date.
    pub closed spec fn spec_date(&self) -> int {
        self.date as int
    }

    pub closed spec fn spec_date_index(&self) -> int {
        self.date_index as int
    }

    pub closed spec fn spec_minutes(&self) -> int {
        self.minutes as int
    }

    /// The index of the day from the first simulated day.
    pub fn date_index(&self) -> (r: i64)
        ensures
            r as int == self.spec_date_index(),
    {
        self.date_index
    }

    /// The minute of the day.
    pub fn minutes(&self) -> (r: u32)
        ensures
            r as int == self.spec_minutes(),
    {
        self.minutes
    }

    /// The day `date_index` days after `start_date`.
    pub fn new(date_index: i64, minutes: u32, start_date: i32) -> (r: Day)
        requires
            day_in_range(start_date + date_index),
        ensures
            r.spec_date_index() == date_index,
            r.spec_minutes() == minutes,
            r.spec_date() == start_date + date_index,
    {
        let date = (start_date as i64 + date_index) as i32;
        let fields = calendar_fields(date);
        let weekday = weekday_from_monday(date);
        Day {
            date_index,
            minutes,
            date,
            year: fields.0,
            month: fields.1,
            day_of_month: fields.2,
            day_of_year: fields.3,
            weekday,
        }
    }

    /// The date, as its day number.
    pub fn date(&self) -> (r: i32)
        ensures
            r as int == self.spec_date(),
            day_in_range(r as int),
    {
        proof {
            use_type_invariant(self);
        }
        self.date
    }

    /// Monday is 0, Sunday is 6.
    pub fn day_of_week(&self) -> (r: u32)
        ensures
            r as int == weekday_of(self.spec_date()),
            r < 7,
    {
        proof {
            use_type_invariant(self);
        }
        self.weekday
    }

    pub fn is_weekend(&self) -> (r: bool)
        ensures
            r == (weekday_of(self.spec_date()) >= 5),
    {
        self.day_of_week() >= 5
    }

    pub fn day_of_year(&self) -> (r: u32)
        ensures
            r as int == calendar_of(self.spec_date()).3,
    {
        proof {
            use_type_invariant(self);
        }
        self.day_of_year
    }

    pub fn month(&self) -> (r: u32)
        ensures
            r as int == calendar_of(self.spec_date()).1,
    {
        proof {
            use_type_invariant(self);
        }
        self.month
    }

    pub fn year(&self) -> (r: i32)
        ensures
            r as int == calendar_of(self.spec_date()).0,
    {
        proof {
            use_type_invariant(self);
        }
        self.year
    }

    /// The day of the month.
    pub fn day(&self) -> (r: u32)
        ensures
            r as int == calendar_of(self.spec_date()).2,
    {
        proof {
            use_type_invariant(self);
        }
        self.day_of_month
    }

    pub fn season(&self) -> (r: Season)
        ensures
            r == season_of(calendar_of(self.spec_date()).1, calendar_of(self.spec_date()).2),
    {
        proof {
            use_type_invariant(self);
        }
        let month = self.month();
        let day = self.day_of_month;
        if month == 1 || month == 2 {
            Season::Winter
        } else if month == 3 {
            if day <= 20 {
                Season::Winter
            } else {
                Season::Spring
            }
        } else if month == 4 || month == 5 {
            Season::Spring
        } else if month == 6 {
            if day <= 20 {
                Season::Spring
            } else {
                Season::Summer
            }
        } else if month == 7 || month == 8 {
            Season::Summer
        } else if month == 9 {
            if day <= 20 {
                Season::Summer
            } else {
                Season::Fall
            }
        } else if month == 10 || month == 11 {
            Season::Fall
        } else if day <= 20 {
            Season::Fall
        } else {
            Season::Winter
        }
    }
}

} // verus!
