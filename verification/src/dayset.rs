//! Days-of-week sets for time-of-day schedules, packed into one byte.

use vstd::prelude::*;

verus! {

/// A day of the week.
#[derive(Copy, Clone, PartialEq, Eq, Structural, Debug)]
pub enum Weekday {
    Sunday,
    Monday,
    Tuesday,
    Wednesday,
    Thursday,
    Friday,
    Saturday,
}

impl Weekday {
    /// The day's index counting from Sunday.
    pub open spec fn spec_num(self) -> u8 {
        match self {
            Weekday::Sunday => 0,
            Weekday::Monday => 1,
            Weekday::Tuesday => 2,
            Weekday::Wednesday => 3,
            Weekday::Thursday => 4,
            Weekday::Friday => 5,
            Weekday::Saturday => 6,
        }
    }

    /// The day's index counting from Sunday.
    pub fn num_days_from_sunday(self) -> (r: u8)
        ensures
            r == self.spec_num(),
            r < 7,
    {
        match self {
            Weekday::Sunday => 0,
            Weekday::Monday => 1,
            Weekday::Tuesday => 2,
            Weekday::Wednesday => 3,
            Weekday::Thursday => 4,
            Weekday::Friday => 5,
            Weekday::Saturday => 6,
        }
    }
}

/// A set of weekdays, one bit per day counting from Sunday.
#[derive(Copy, Clone, PartialEq, Eq, Structural, Debug)]
pub struct DaySet(u8);

impl DaySet {
    /// The packed mask, one bit per day counting from Sunday.
    pub closed spec fn spec_mask(self) -> u8 {
        self.0
    }

    /// Whether a day is in the set, by the packed mask.
    pub open spec fn spec_enabled(self, day: Weekday) -> bool {
        self.spec_mask() & (1u8 << day.spec_num()) != 0
    }

    /// The empty set.
    pub fn new() -> (r: DaySet)
        ensures
            forall|d: Weekday| !r.spec_enabled(d),
    {
        let r = DaySet(0);
        proof {
            assert forall|d: Weekday| !r.spec_enabled(d) by {
                let n = d.spec_num();
                assert(0u8 & (1u8 << n) == 0) by (bit_vector);
            }
        }
        r
    }

    /// The set of every day.
    pub fn all() -> (r: DaySet)
        ensures
            forall|d: Weekday| r.spec_enabled(d),
    {
        let r = DaySet(0xff);
        proof {
            assert forall|d: Weekday| r.spec_enabled(d) by {
                let n = d.spec_num();
                assert(n < 7);
                assert(0xffu8 & (1u8 << n) != 0) by (bit_vector)
                    requires
                        n < 7,
                ;
            }
        }
        r
    }

    /// Whether a day is in the set.
    pub fn enabled(&self, day: Weekday) -> (r: bool)
        ensures
            r == self.spec_enabled(day),
    {
        self.0 & Self::flag_for(day) != 0
    }

    /// Add a day to the set.
    pub fn enable(&mut self, day: Weekday)
        ensures
            forall|d: Weekday|
                final(self).spec_enabled(d) == (old(self).spec_enabled(d) || d == day),
    {
        self.0 = self.0 | Self::flag_for(day);
        proof {
            assert forall|d: Weekday|
                self.spec_enabled(d) == (old(self).spec_enabled(d) || d == day) by {
                let a = day.spec_num();
                let b = d.spec_num();
                let m = old(self).0;
                assert((m | (1u8 << a)) & (1u8 << b) != 0 <==> (m & (1u8 << b) != 0 || a == b))
                    by (bit_vector)
                    requires
                        a < 7 && b < 7,
                ;
            }
        }
    }

    /// Drop a day from the set.
    pub fn disable(&mut self, day: Weekday)
        ensures
            forall|d: Weekday|
                final(self).spec_enabled(d) == (old(self).spec_enabled(d) && d != day),
    {
        self.0 = self.0 & !Self::flag_for(day);
        proof {
            assert forall|d: Weekday|
                self.spec_enabled(d) == (old(self).spec_enabled(d) && d != day) by {
                let a = day.spec_num();
                let b = d.spec_num();
                let m = old(self).0;
                assert((m & !(1u8 << a)) & (1u8 << b) != 0 <==> (m & (1u8 << b) != 0 && a != b))
                    by (bit_vector)
                    requires
                        a < 7 && b < 7,
                ;
            }
        }
    }

    /// The bit standing for a day.
    fn flag_for(day: Weekday) -> (r: u8)
        ensures
            r == 1u8 << day.spec_num(),
    {
        1u8 << day.num_days_from_sunday()
    }
}

impl Default for DaySet {
    /// The default set is empty.
    fn default() -> (r: Self)
        ensures
            forall|d: Weekday| !r.spec_enabled(d),
    {
        DaySet::new()
    }
}

} // verus!
