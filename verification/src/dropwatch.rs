//! A stopwatch for coarse progress timing: created stopped or started, read
//! out by the surrounding program when it reports how long a stage took.

use vstd::prelude::*;
use vstd::string::*;

verus! {

/// `std::time::Instant`, declared so a moment can be held in a verified
/// struct; Verus sees nothing inside a value of it.
#[verifier::external_type_specification]
#[verifier::external_body]
pub struct ExInstant(std::time::Instant);

/// Relies on std::time::Instant::now: returns the moment of the call;
/// nothing is promised of its value.
#[verifier::external_body]
fn instant_now() -> std::time::Instant {
    std::time::Instant::now()
}

/// Measures time from when `begin` is called to whenever the surrounding
/// program reads the watch out.
pub struct Dropwatch {
    start: Option<std::time::Instant>,
    id: String,
}

impl Dropwatch {
    /// The watch has been started.
    pub closed spec fn running(self) -> bool {
        self.start is Some
    }

    /// The label the watch reports under.
    pub closed spec fn label(self) -> Seq<char> {
        self.id@
    }

    /// A stopped watch labelled `id`.
    pub fn new(id: &str) -> (r: Dropwatch)
        ensures
            !r.running(),
            r.label() == id@,
    {
        Dropwatch { start: None, id: id.to_owned() }
    }

    /// Starts the watch at the present moment.
    pub fn begin(&mut self)
        ensures
            final(self).running(),
            final(self).label() == old(self).label(),
    {
        self.start = Some(instant_now());
    }

    /// A watch labelled `id`, started at the present moment.
    pub fn new_begin(id: &str) -> (r: Dropwatch)
        ensures
            r.running(),
            r.label() == id@,
    {
        let mut s = Dropwatch::new(id);
        s.begin();
        s
    }
}

} // verus!
