//! Memory and time budgets of a window.

use vstd::prelude::*;

verus! {

/// Bounds on what a window stores, how late an event may be, and the sketch shape.
#[derive(Debug, Clone, Copy, PartialEq, Eq, Structural)]
pub struct Budget {
    pub max_pairs: usize,
    pub max_dedup: usize,
    pub max_witnesses: usize,
    pub lateness: u64,
    pub replicas: usize,
    pub width: usize,
}

/// Why a budget cannot allocate a sketch.
#[derive(Debug, Clone, Copy, PartialEq, Eq, Structural)]
pub enum BudgetError {
    Replicas,
    Width,
    Cardinality,
}

/// `n` is a power of two.
pub open spec fn is_power_of_two(n: nat) -> bool
    decreases n,
{
    if n <= 1 {
        n == 1
    } else {
        n % 2 == 0 && is_power_of_two(n / 2)
    }
}

/// Decides whether `n` is a power of two.
fn power_of_two(n: usize) -> (r: bool)
    ensures
        r == is_power_of_two(n as nat),
{
    let mut m: usize = n;
    while m > 1 && m % 2 == 0
        invariant
            is_power_of_two(m as nat) == is_power_of_two(n as nat),
        decreases m,
    {
        m = m / 2;
    }
    m == 1
}

/// What `validate` answers for a budget.
pub open spec fn budget_check(b: Budget) -> Result<Budget, BudgetError> {
    if b.replicas == 0 || b.replicas > 16 {
        Err(BudgetError::Replicas)
    } else if b.width < 2 || b.width > 512 || !is_power_of_two(b.width as nat) {
        Err(BudgetError::Width)
    } else if b.max_pairs == 0 || b.max_dedup == 0 {
        Err(BudgetError::Cardinality)
    } else {
        Ok(b)
    }
}

impl Budget {
    /// The budget accepts a sketch: 1 to 16 replicas, a power-of-two width from 2 to 512,
    /// and room for at least one pair and one identity key.
    pub open spec fn valid(self) -> bool {
        budget_check(self) is Ok
    }

    /// A budget for small projects and tests.
    pub fn small() -> (r: Self)
        ensures
            r == (Budget {
                max_pairs: 4096,
                max_dedup: 16384,
                max_witnesses: 64,
                lateness: 1000,
                replicas: 4,
                width: 64,
            }),
    {
        Budget {
            max_pairs: 4_096,
            max_dedup: 16_384,
            max_witnesses: 64,
            lateness: 1_000,
            replicas: 4,
            width: 64,
        }
    }

    /// A budget for sketch-backed windows.
    pub fn sketch() -> (r: Self)
        ensures
            r == (Budget {
                max_pairs: 256,
                max_dedup: 16384,
                max_witnesses: 32,
                lateness: 1000,
                replicas: 4,
                width: 128,
            }),
    {
        Budget {
            max_pairs: 256,
            max_dedup: 16_384,
            max_witnesses: 32,
            lateness: 1_000,
            replicas: 4,
            width: 128,
        }
    }

    /// Returns the budget when its dimensions can allocate a sketch, else the first fault found.
    pub fn validate(self) -> (r: Result<Self, BudgetError>)
        ensures
            r == budget_check(self),
    {
        if self.replicas == 0 || self.replicas > 16 {
            return Err(BudgetError::Replicas);
        }
        if self.width < 2 || self.width > 512 || !power_of_two(self.width) {
            return Err(BudgetError::Width);
        }
        if self.max_pairs == 0 || self.max_dedup == 0 {
            return Err(BudgetError::Cardinality);
        }
        Ok(self)
    }
}

} // verus!
