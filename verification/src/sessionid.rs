use core::cmp::Ordering;
use vstd::prelude::*;
use vstd::std_specs::cmp::PartialOrdSpecImpl;

verus! {

/// Identifies one client connection for as long as it lasts.
#[derive(Clone, Copy, PartialEq, Eq, Structural, Debug, Ord)]
pub struct SessionID(pub u64, pub u64);

/// Draws a number from `rand::random::<u64>`, the thread-local generator of
/// the `rand` crate. Nothing is stated of the value: it is random. The call
/// panics only when the operating system's source of randomness fails while
/// the generator is seeded or reseeded; that depends on the machine, not on
/// anything passed in, so no `requires` can rule it out.
#[verifier::external_body]
fn random_u64() -> u64 {
    rand::random::<u64>()
}

/// The order of two session ids: by their first halves, and by their second
/// halves where the first ones are equal.
pub open spec fn lexicographic(a: SessionID, b: SessionID) -> Ordering {
    if a.0 < b.0 {
        Ordering::Less
    } else if a.0 > b.0 {
        Ordering::Greater
    } else if a.1 < b.1 {
        Ordering::Less
    } else if a.1 > b.1 {
        Ordering::Greater
    } else {
        Ordering::Equal
    }
}

impl SessionID {
    /// A fresh session id made of two random halves.
    pub fn new() -> SessionID {
        let a = random_u64();
        let b = random_u64();
        SessionID(a, b)
    }

    /// The pair of halves, which keys the tables of sessions; it orders as
    /// the id does.
    pub open spec fn key_of(self) -> (u64, u64) {
        (self.0, self.1)
    }

    /// The pair of halves, which keys the tables of sessions.
    pub fn key(&self) -> (k: (u64, u64))
        ensures
            k == self.key_of(),
    {
        (self.0, self.1)
    }

    /// The text of the id, in the form `SessionID(first, second)` with both
    /// halves in decimal.
    pub open spec fn text_of(self) -> Seq<char> {
        "SessionID("@ + crate::text::decimal(self.0 as nat) + ", "@
            + crate::text::decimal(self.1 as nat) + ")"@
    }

    /// The text of the id, in the form `SessionID(first, second)`.
    pub fn to_text(&self) -> (s: String)
        ensures
            s@ == self.text_of(),
    {
        let mut s = String::from_str("SessionID(");
        let first = crate::text::decimal_text(self.0);
        s.append(first.as_str());
        s.append(", ");
        let second = crate::text::decimal_text(self.1);
        s.append(second.as_str());
        s.append(")");
        s
    }
}

impl PartialOrd for SessionID {
    fn partial_cmp(&self, other: &SessionID) -> (r: Option<Ordering>) {
        if self.0 < other.0 {
            Some(Ordering::Less)
        } else if self.0 > other.0 {
            Some(Ordering::Greater)
        } else if self.1 < other.1 {
            Some(Ordering::Less)
        } else if self.1 > other.1 {
            Some(Ordering::Greater)
        } else {
            Some(Ordering::Equal)
        }
    }
}

impl PartialOrdSpecImpl for SessionID {
    open spec fn obeys_partial_cmp_spec() -> bool {
        true
    }

    open spec fn partial_cmp_spec(&self, other: &SessionID) -> Option<Ordering> {
        Some(lexicographic(*self, *other))
    }
}

/// Session ids are totally ordered: two ids compare equal exactly when they
/// are the same id, and swapping them reverses the result.
pub proof fn lemma_session_order_total(a: SessionID, b: SessionID)
    ensures
        (lexicographic(a, b) == Ordering::Equal) <==> a == b,
        lexicographic(a, b) == Ordering::Less <==> lexicographic(b, a) == Ordering::Greater,
{
}

/// The order of session ids is transitive.
pub proof fn lemma_session_order_transitive(a: SessionID, b: SessionID, c: SessionID)
    requires
        lexicographic(a, b) == Ordering::Less,
        lexicographic(b, c) == Ordering::Less,
    ensures
        lexicographic(a, c) == Ordering::Less,
{
}

} // verus!
