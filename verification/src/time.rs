//! Points in time of a bundle, held as a UNIX timestamp together with the
//! text that `chrono` renders for it.

use chrono::{DateTime, Utc};
use vstd::prelude::*;

verus! {

/// What `chrono::DateTime::<Utc>::from_timestamp(secs, nanos)` rendered with
/// `to_string` gives; `None` where `from_timestamp` rejects the arguments.
pub uninterp spec fn utc_rendering(secs: i64, nanos: u32) -> Option<Seq<char>>;

/// `chrono::DateTime::<Utc>::from_timestamp` followed by its `Display`
/// rendering (`to_string`); the result is named by `utc_rendering`.
#[verifier::external_body]
fn render_utc(secs: i64, nanos: u32) -> (text: Option<String>)
    ensures
        match text {
            Some(t) => utc_rendering(secs, nanos) == Some(t@),
            None => utc_rendering(secs, nanos) is None,
        },
{
    match DateTime::<Utc>::from_timestamp(secs, nanos) {
        Some(d) => Some(d.to_string()),
        None => None,
    }
}

/// A UTC instant: whole seconds since the UNIX epoch and the sub-second
/// nanoseconds (at or above one second only inside a leap second), as
/// `chrono::DateTime<Utc>` holds it, with its rendered text.
#[derive(Debug)]
pub struct Timestamp {
    secs: i64,
    nanos: u32,
    text: String,
}

impl Timestamp {
    #[verifier::type_invariant]
    spec fn well_formed(self) -> bool {
        utc_rendering(self.secs, self.nanos) == Some(self.text@)
    }

    /// Whole seconds since the UNIX epoch.
    pub closed spec fn seconds(self) -> i64 {
        self.secs
    }

    /// Nanoseconds past `seconds`.
    pub closed spec fn subsec(self) -> u32 {
        self.nanos
    }

    /// The text that `Display` gives for this instant.
    pub open spec fn rendered(self) -> Seq<char> {
        utc_rendering(self.seconds(), self.subsec())->0
    }

    /// The instant `secs` seconds and `nanos` nanoseconds after the UNIX
    /// epoch; `None` where `chrono` cannot represent it.
    pub fn from_unix(secs: i64, nanos: u32) -> (t: Option<Timestamp>)
        ensures
            t is Some <==> utc_rendering(secs, nanos) is Some,
            t matches Some(t) ==> t.seconds() == secs && t.subsec() == nanos,
    {
        match render_utc(secs, nanos) {
            Some(text) => Some(Timestamp { secs, nanos, text }),
            None => None,
        }
    }

    /// Whole seconds since the UNIX epoch.
    pub fn unix_seconds(&self) -> (s: i64)
        ensures
            s == self.seconds(),
    {
        self.secs
    }

    /// Nanoseconds past the whole second.
    pub fn subsec_nanos(&self) -> (n: u32)
        ensures
            n == self.subsec(),
    {
        self.nanos
    }

    /// The text that `Display` gives for this instant.
    pub fn to_text(&self) -> (s: String)
        ensures
            s@ == self.rendered(),
            utc_rendering(self.seconds(), self.subsec()) is Some,
    {
        proof {
            use_type_invariant(self);
        }
        self.text.clone()
    }

    /// Whether this instant comes strictly before `other`.
    pub fn is_before(&self, other: &Timestamp) -> (r: bool)
        ensures
            r == instant_before(*self, *other),
    {
        self.secs < other.secs || (self.secs == other.secs && self.nanos < other.nanos)
    }
}

impl Clone for Timestamp {
    fn clone(&self) -> (t: Self)
        ensures
            t == *self,
    {
        proof {
            use_type_invariant(self);
        }
        Timestamp { secs: self.secs, nanos: self.nanos, text: self.text.clone() }
    }
}

/// Strict order of instants: by seconds, then by nanoseconds.
pub open spec fn instant_before(a: Timestamp, b: Timestamp) -> bool {
    a.seconds() < b.seconds() || (a.seconds() == b.seconds() && a.subsec() < b.subsec())
}

/// The order on instants is chronological: whole seconds decide, and only
/// equal seconds fall back to the sub-second nanoseconds. An instant with
/// more whole seconds is never before one with fewer, whatever their
/// sub-second parts.
pub proof fn lemma_instant_order_chronological(a: Timestamp, b: Timestamp)
    ensures
        a.seconds() < b.seconds() ==> instant_before(a, b),
        a.seconds() > b.seconds() ==> !instant_before(a, b),
        a.seconds() == b.seconds() ==> (instant_before(a, b) <==> a.subsec() < b.subsec()),
        a.seconds() as int * 0x1_0000_0000 + a.subsec() < b.seconds() as int * 0x1_0000_0000
            + b.subsec() <==> instant_before(a, b),
{
    let (sa, na, sb, nb) = (a.seconds() as int, a.subsec() as int, b.seconds() as int, b.subsec() as int);
    assert(sa * 0x1_0000_0000 + na < sb * 0x1_0000_0000 + nb <==> (sa < sb || (sa == sb && na < nb)))
        by (nonlinear_arith)
        requires
            0 <= na < 0x1_0000_0000,
            0 <= nb < 0x1_0000_0000,
    {
        if sa < sb {
            assert(sa * 0x1_0000_0000 + 0x1_0000_0000 <= sb * 0x1_0000_0000);
        } else if sa > sb {
            assert(sb * 0x1_0000_0000 + 0x1_0000_0000 <= sa * 0x1_0000_0000);
        }
    }
}

/// The order on instants is a strict total order: irreflexive,
/// transitive, and any two instants with different (seconds, nanoseconds)
/// are ordered one way or the other.
pub proof fn lemma_instant_order_strict_total(a: Timestamp, b: Timestamp, c: Timestamp)
    ensures
        !instant_before(a, a),
        instant_before(a, b) ==> !instant_before(b, a),
        instant_before(a, b) && instant_before(b, c) ==> instant_before(a, c),
        instant_before(a, b) || instant_before(b, a) || (a.seconds() == b.seconds()
            && a.subsec() == b.subsec()),
{
}

} // verus!
