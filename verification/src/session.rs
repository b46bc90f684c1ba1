//! A session of several drivers: it runs until one of them ends or the operator stops it, and is
//! over once all have ended.

use vstd::prelude::*;
use vstd::string::*;

use crate::text;

verus! {

/// How a driver ended.
#[derive(Clone, Debug)]
pub enum DriverEnd {
    /// As it should.
    Clean,
    /// With an error.
    Failed(String),
    /// It panicked.
    Panicked,
}

/// A session's drivers: how each ended, where it did, and whether the session is closing.
#[derive(Clone, Debug)]
pub struct Session {
    ends: Vec<Option<DriverEnd>>,
    closing: bool,
}

/// The same as plain values.
pub struct SessionView {
    pub ends: Seq<Option<DriverEnd>>,
    pub closing: bool,
}

impl View for Session {
    type V = SessionView;

    closed spec fn view(&self) -> SessionView {
        SessionView { ends: self.ends@, closing: self.closing }
    }
}

impl SessionView {
    /// After a driver ended: the session closes.
    pub open spec fn ended(self, driver: int, end: DriverEnd) -> SessionView {
        SessionView { ends: self.ends.update(driver, Some(end)), closing: true }
    }

    /// After the operator stopped it.
    pub open spec fn stopped(self) -> SessionView {
        SessionView { closing: true, ..self }
    }

    /// Whether every driver has ended.
    pub open spec fn over(self) -> bool {
        forall|i: int| 0 <= i < self.ends.len() ==> (#[trigger] self.ends[i]) is Some
    }
}

/// The message of a driver's end, where it is bad.
pub open spec fn problem(name: Seq<char>, end: Option<DriverEnd>) -> Option<Seq<char>> {
    match end {
        Some(DriverEnd::Failed(e)) => Some(name + " failed: "@ + e@),
        Some(DriverEnd::Panicked) => Some(name + " panicked"@),
        _ => None,
    }
}

/// The first bad end among the first `n` drivers.
pub open spec fn first_problem(ends: Seq<Option<DriverEnd>>, names: Seq<String>, n: int) -> Option<
    Seq<char>,
>
    decreases n,
{
    if n <= 0 {
        None
    } else {
        match first_problem(ends, names, n - 1) {
            Some(p) => Some(p),
            None => problem(names[n - 1]@, ends[n - 1]),
        }
    }
}

impl Session {
    /// A session of so many drivers, all running.
    pub fn new(drivers: usize) -> (r: Session)
        ensures
            r@.ends.len() == drivers,
            forall|i: int| 0 <= i < drivers ==> (#[trigger] r@.ends[i]) is None,
            !r@.closing,
    {
        let mut ends: Vec<Option<DriverEnd>> = Vec::new();
        let mut i: usize = 0;
        while i < drivers
            invariant
                i <= drivers,
                ends@.len() == i,
                forall|j: int| 0 <= j < i ==> (#[trigger] ends@[j]) is None,
            decreases drivers - i,
        {
            ends.push(None);
            i = i + 1;
        }
        Session { ends, closing: false }
    }

    /// Takes in that a driver ended.
    pub fn on_end(&mut self, driver: usize, end: DriverEnd)
        requires
            driver < old(self)@.ends.len(),
        ensures
            final(self)@ == old(self)@.ended(driver as int, end),
    {
        self.ends.set(driver, Some(end));
        self.closing = true;
    }

    /// Takes in that the operator stopped the session.
    pub fn on_stop(&mut self)
        ensures
            final(self)@ == old(self)@.stopped(),
    {
        self.closing = true;
    }

    /// Whether a driver is still running.
    pub fn runs(&self, driver: usize) -> (r: bool)
        requires
            driver < self@.ends.len(),
        ensures
            r == (self@.ends[driver as int] is None),
    {
        self.ends[driver].is_none()
    }

    /// Whether the session is closing.
    pub fn is_closing(&self) -> (r: bool)
        ensures
            r == self@.closing,
    {
        self.closing
    }

    /// Whether every driver has ended.
    pub fn is_over(&self) -> (r: bool)
        ensures
            r == self@.over(),
    {
        let mut i: usize = 0;
        while i < self.ends.len()
            invariant
                i <= self.ends@.len(),
                forall|j: int| 0 <= j < i ==> (#[trigger] self.ends@[j]) is Some,
            decreases self.ends.len() - i,
        {
            if self.ends[i].is_none() {
                assert(self@.ends[i as int] is None);
                return false;
            }
            i = i + 1;
        }
        true
    }

    /// What the session came to: the first driver's bad end, in order, where there is one.
    pub fn outcome(&self, names: &Vec<String>) -> (r: Result<(), String>)
        requires
            names@.len() == self@.ends.len(),
        ensures
            match first_problem(self@.ends, names@, names@.len() as int) {
                Some(p) => r is Err && r->Err_0@ == p,
                None => r is Ok,
            },
    {
        let mut found: Option<String> = None;
        let mut i: usize = 0;
        while i < names.len()
            invariant
                i <= names@.len(),
                names@.len() == self@.ends.len(),
                match found {
                    Some(p) => first_problem(self@.ends, names@, i as int) == Some(p@),
                    None => first_problem(self@.ends, names@, i as int) is None,
                },
            decreases names.len() - i,
        {
            if found.is_none() {
                match &self.ends[i] {
                    Some(DriverEnd::Failed(e)) => {
                        found = Some(text::join3(names[i].as_str(), " failed: ", e.as_str()));
                    },
                    Some(DriverEnd::Panicked) => {
                        found = Some(text::join2(names[i].as_str(), " panicked"));
                    },
                    _ => {},
                }
            }
            i = i + 1;
        }
        match found {
            Some(p) => Err(p),
            None => Ok(()),
        }
    }
}

/// A session that is closing stays so, and a driver that has ended stays ended.
pub proof fn law_closing_is_for_good(s: SessionView, driver: int, end: DriverEnd, other: int)
    requires
        0 <= driver < s.ends.len(),
        0 <= other < s.ends.len(),
        s.closing,
    ensures
        s.ended(driver, end).closing,
        s.stopped().closing,
        s.ends[other] is Some ==> s.ended(driver, end).ends[other] is Some,
        s.ends[other] is Some ==> s.stopped().ends[other] is Some,
{
}

/// The first driver that failed or panicked is the session's problem, whatever came of those after
/// it; where none did, there is none.
pub proof fn law_first_failure_is_told(
    ends: Seq<Option<DriverEnd>>,
    names: Seq<String>,
    n: int,
    i: int,
)
    ensures
        0 <= i < n && (ends[i] matches Some(e) && (e is Failed || e is Panicked)) && (forall|j: int|
            0 <= j < i ==> !((#[trigger] ends[j]) matches Some(e) && (e is Failed || e is Panicked)))
            ==> first_problem(ends, names, n) == problem(names[i]@, ends[i]) && first_problem(
            ends,
            names,
            n,
        ) is Some,
        (forall|j: int|
            0 <= j < n ==> !((#[trigger] ends[j]) matches Some(e) && (e is Failed || e is Panicked)))
            ==> first_problem(ends, names, n) is None,
    decreases n,
{
    if n > 0 {
        law_first_failure_is_told(ends, names, n - 1, i);
    }
}

/// The end of any driver, and the operator's stop, close the session; it is over once every driver
/// has ended, and not before.
pub proof fn law_any_end_closes(s: SessionView, driver: int, end: DriverEnd, other: int)
    requires
        0 <= driver < s.ends.len(),
        0 <= other < s.ends.len(),
    ensures
        s.ended(driver, end).closing,
        s.stopped().closing,
        s.stopped().ends == s.ends,
        s.ended(driver, end).ends[driver] == Some(end),
        other != driver ==> s.ended(driver, end).ends[other] == s.ends[other],
        s.ends[other] is None ==> !s.over(),
{
}

} // verus!
