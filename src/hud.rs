use vstd::prelude::*;

verus! {

/// Elapsed time as the status bar shows it: seconds alone under a minute,
/// minutes and seconds under an hour, otherwise hours, minutes and seconds.
#[derive(Clone, Copy, Debug, PartialEq, Eq, Structural)]
pub enum Clock {
    Seconds(u32),
    Minutes(u32, u32),
    Hours(u32, u32, u32),
}

/// Splits a whole number of elapsed seconds for display.
pub fn clock(total: u32) -> (r: Clock)
    ensures
        match r {
            Clock::Hours(h, m, s) => h >= 1 && m < 60 && s < 60 && total == h * 3600 + m * 60 + s,
            Clock::Minutes(m, s) => total < 3600 && m >= 1 && s < 60 && total == m * 60 + s,
            Clock::Seconds(s) => total < 60 && s == total,
        },
{
    let h = total / 3600;
    let m = (total % 3600) / 60;
    let s = total % 60;
    assert(total == h * 3600 + m * 60 + s) by (nonlinear_arith)
        requires
            h == total / 3600,
            m == (total % 3600) / 60,
            s == total % 60,
    ;
    if h >= 1 {
        Clock::Hours(h, m, s)
    } else if m >= 1 {
        Clock::Minutes(m, s)
    } else {
        Clock::Seconds(s)
    }
}

} // verus!
