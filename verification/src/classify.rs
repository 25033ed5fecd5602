//! Classification of one read character into the five counted symbol classes.

use vstd::prelude::*;

verus! {

/// The five symbol classes whose occurrences are counted per position.
#[derive(Clone, Copy, PartialEq, Eq, Structural, Debug)]
pub enum Base {
    A,
    C,
    G,
    T,
    N,
}

/// Case-insensitive classification of one character: `'a'` and `'A'` both
/// fall in class `A`, and so on for the other four classes. A character
/// outside the five classes (for example an IUPAC ambiguity letter other
/// than `N`) is unclassified and yields `None`.
pub open spec fn classify_spec(ch: char) -> Option<Base> {
    if ch == 'A' || ch == 'a' {
        Some(Base::A)
    } else if ch == 'C' || ch == 'c' {
        Some(Base::C)
    } else if ch == 'G' || ch == 'g' {
        Some(Base::G)
    } else if ch == 'T' || ch == 't' {
        Some(Base::T)
    } else if ch == 'N' || ch == 'n' {
        Some(Base::N)
    } else {
        None
    }
}

/// What an update does with a character outside the five classes. The two
/// source behaviours of the aggregate are both offered, as an explicit
/// choice rather than a hardcoded one: lenient counting silently skips such
/// a character (the recommended default, resilient against IUPAC ambiguity
/// codes other than N), while strict validation rejects the whole batch.
#[derive(Clone, Copy, PartialEq, Eq, Structural, Debug)]
pub enum ClassifyPolicy {
    Strict,
    Lenient,
}

/// Map one character to its symbol class, or to `None` if it matches none.
/// Pure; lowercase and uppercase are treated identically.
pub fn classify(ch: char) -> (r: Option<Base>)
    ensures
        r == classify_spec(ch),
{
    match ch {
        'A' | 'a' => Some(Base::A),
        'C' | 'c' => Some(Base::C),
        'G' | 'g' => Some(Base::G),
        'T' | 't' => Some(Base::T),
        'N' | 'n' => Some(Base::N),
        _ => None,
    }
}

} // verus!
