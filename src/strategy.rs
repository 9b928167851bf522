use vstd::prelude::*;

verus! {

/// Whether to rewrite a match site.
#[derive(Clone, Copy, PartialEq, Eq, Structural, Debug)]
pub enum Action {
    Skip,
    Apply,
}

/// How the traversal goes on after a match site.
#[derive(Clone, Copy, PartialEq, Eq, Structural, Debug)]
pub enum State {
    /// Do not descend into the (possibly rewritten) subtree; return up.
    Bail,
    /// Go on searching inside the (possibly rewritten) subtree and its siblings.
    Cont,
    /// Stop the whole rewrite.
    Halt,
}

/// What a strategy decides at one match site.
#[derive(Clone, Copy, PartialEq, Eq, Structural, Debug)]
pub struct Resolution {
    pub action: Action,
    pub state: State,
}

/// A traversal policy, consulted at every match site of one rewrite.
#[derive(Clone, Copy, PartialEq, Eq, Structural, Debug)]
pub enum Strategy {
    /// Rewrite every outermost match.
    All,
    /// Rewrite every match, inside results too.
    Deep,
    /// Rewrite only the match site numbered `target`, counting from 0.
    Nth { current: usize, target: usize },
}

/// The decision of strategy `s` at a match site, and its next state.
pub open spec fn resolve(s: Strategy) -> (Resolution, Strategy) {
    match s {
        Strategy::All => (Resolution { action: Action::Apply, state: State::Bail }, s),
        Strategy::Deep => (Resolution { action: Action::Apply, state: State::Cont }, s),
        Strategy::Nth { current, target } => if current == target {
            (Resolution { action: Action::Apply, state: State::Halt }, s)
        } else if current > target {
            (Resolution { action: Action::Skip, state: State::Halt }, s)
        } else {
            (
                Resolution { action: Action::Skip, state: State::Cont },
                Strategy::Nth { current: (current + 1) as usize, target },
            )
        },
    }
}

pub open spec fn is_digit(c: char) -> bool {
    '0' <= c && c <= '9'
}

/// The value of a string of decimal digits.
pub open spec fn digits_value(d: Seq<char>) -> nat
    decreases d.len(),
{
    if d.len() == 0 {
        0
    } else {
        digits_value(d.drop_last()) * 10 + (d.last() as int - '0' as int) as nat
    }
}

/// An optional `+` followed by one or more decimal digits, read as a number.
pub open spec fn decimal_value(s: Seq<char>) -> Option<nat> {
    let d = if s.len() > 0 && s[0] == '+' {
        s.drop_first()
    } else {
        s
    };
    if d.len() > 0 && forall|i: int| 0 <= i < d.len() ==> is_digit(#[trigger] d[i]) {
        Some(digits_value(d))
    } else {
        None
    }
}

/// `s` read as a `usize`, when it is a decimal number that fits.
pub open spec fn usize_of(s: Seq<char>) -> Option<usize> {
    match decimal_value(s) {
        Some(n) => if n <= usize::MAX {
            Some(n as usize)
        } else {
            None
        },
        None => None,
    }
}

/// Relies on `usize::from_str`: it accepts an optional `+` followed by one or
/// more ASCII digits whose value fits in `usize`, and rejects anything else.
#[verifier::external_body]
fn parse_usize(s: &str) -> (r: Option<usize>)
    ensures
        r == usize_of(s@),
{
    s.parse::<usize>().ok()
}

/// Equality of two strings by their characters.
pub fn same_text(a: &str, b: &str) -> (r: bool)
    ensures
        r == (a@ == b@),
{
    a.to_owned() == b.to_owned()
}

/// The strategy that a name selects: `all`, `deep`, `first`, or a decimal
/// index.
pub open spec fn strategy_named(name: Seq<char>) -> Option<Strategy> {
    if name == "all"@ {
        Some(Strategy::All)
    } else if name == "first"@ {
        Some(Strategy::Nth { current: 0, target: 0 })
    } else if name == "deep"@ {
        Some(Strategy::Deep)
    } else {
        match usize_of(name) {
            Some(n) => Some(Strategy::Nth { current: 0, target: n }),
            None => None,
        }
    }
}

impl Strategy {
    /// Looks a strategy up by name.
    pub fn by_name(name: &str) -> (r: Option<Strategy>)
        ensures
            r == strategy_named(name@),
    {
        if same_text(name, "all") {
            Some(Strategy::All)
        } else if same_text(name, "first") {
            Some(Strategy::nth(0))
        } else if same_text(name, "deep") {
            Some(Strategy::Deep)
        } else {
            match parse_usize(name) {
                Some(n) => Some(Strategy::nth(n)),
                None => None,
            }
        }
    }

    /// The strategy that rewrites only match site number `target`.
    pub fn nth(target: usize) -> (r: Strategy)
        ensures
            r == (Strategy::Nth { current: 0, target }),
    {
        Strategy::Nth { current: 0, target }
    }

    /// Records a match site and says what to do there.
    pub fn matched(&mut self) -> (r: Resolution)
        ensures
            (r, *final(self)) == resolve(*old(self)),
    {
        match self {
            Strategy::All => Resolution { action: Action::Apply, state: State::Bail },
            Strategy::Deep => Resolution { action: Action::Apply, state: State::Cont },
            Strategy::Nth { current, target } => {
                if *current == *target {
                    Resolution { action: Action::Apply, state: State::Halt }
                } else if *current > *target {
                    Resolution { action: Action::Skip, state: State::Halt }
                } else {
                    *current = *current + 1;
                    Resolution { action: Action::Skip, state: State::Cont }
                }
            },
        }
    }
}

} // verus!
