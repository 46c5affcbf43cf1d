use crate::error::ErrorCode;
use crate::sizing::floor_div;
use vstd::arithmetic::div_mod::lemma_fundamental_div_mod_converse;
use vstd::arithmetic::power2::{lemma_pow2_pos, lemma_pow2_unfold, pow2};
use vstd::prelude::*;

verus! {

/// How often a rejected liquidation is halved before the account is left
/// for the next cycle.
pub const MAX_REDUCTIONS: u32 = 5;

/// How many sends one submission may take.
pub const SEND_ATTEMPTS: u32 = 5;

/// What became of one submission.
#[derive(Clone, Copy, Debug, PartialEq, Eq, Structural)]
pub enum SendOutcome {
    /// The exchange confirmed it.
    Confirmed,
    /// The exchange rejected it as too large for the liquidator.
    OverExposure,
    /// The exchange rejected it for any other reason.
    Rejected,
}

/// What the protocol asks for next.
#[derive(Clone, Copy, Debug, PartialEq, Eq, Structural)]
pub enum Step {
    /// Submit the same instructions again with this size.
    Resubmit { size: i64 },
    /// The liquidation went through.
    Succeeded,
    /// The liquidation is given up with this error.
    Failed { error: ErrorCode },
}

/// `size` halved `k` times, each time rounded towards minus infinity.
pub open spec fn halved(size: int, k: nat) -> int
    decreases k,
{
    if k == 0 {
        size
    } else {
        halved(size, (k - 1) as nat) / 2
    }
}

/// Dividing by a positive number and then by two is dividing by twice the
/// number, also below zero.
pub proof fn lemma_halve_quotient(x: int, c: int)
    requires
        c > 0,
    ensures
        (x / c) / 2 == x / (2 * c),
{
    let q1 = x / c;
    let r1 = x % c;
    let q2 = q1 / 2;
    let r2 = q1 % 2;
    vstd::arithmetic::div_mod::lemma_fundamental_div_mod(x, c);
    vstd::arithmetic::div_mod::lemma_mod_bound(x, c);
    assert(x == q2 * (2 * c) + (r2 * c + r1)) by (nonlinear_arith)
        requires
            x == c * q1 + r1,
            q1 == 2 * q2 + r2,
    ;
    assert(0 <= r2 * c + r1 < 2 * c) by (nonlinear_arith)
        requires
            0 <= r1 < c,
            0 <= r2 < 2,
    ;
    lemma_fundamental_div_mod_converse(x, 2 * c, q2, r2 * c + r1);
}

/// Halving is exact: after `k` reductions the size is the initial size
/// divided by two to the power `k`, rounded towards minus infinity.
pub proof fn lemma_halving_is_exact(initial: int, k: nat)
    ensures
        halved(initial, k) == initial / (pow2(k) as int),
    decreases k,
{
    if k == 0 {
        assert(pow2(0) == 1) by {
            vstd::arithmetic::power2::lemma2_to64();
        }
    } else {
        let before = (k - 1) as nat;
        lemma_halving_is_exact(initial, before);
        lemma_pow2_pos(before);
        lemma_pow2_unfold(k);
        lemma_halve_quotient(initial, pow2(before) as int);
    }
}

/// Classifies the result of a submission.
pub fn classify(sent: Result<(), ErrorCode>) -> (r: SendOutcome)
    ensures
        r == (match sent {
            Ok(_) => SendOutcome::Confirmed,
            Err(ErrorCode::LiquidationOverExposure) => SendOutcome::OverExposure,
            Err(_) => SendOutcome::Rejected,
        }),
{
    match sent {
        Ok(_) => SendOutcome::Confirmed,
        Err(ErrorCode::LiquidationOverExposure) => SendOutcome::OverExposure,
        Err(_) => SendOutcome::Rejected,
    }
}

/// The state of the size-halving retry protocol for one liquidation.
#[derive(Clone, Copy, Debug)]
pub struct Halving {
    initial: i64,
    size: i64,
    reductions: u32,
}

impl Halving {
    /// The size the protocol started with.
    pub closed spec fn initial_size(self) -> int {
        self.initial as int
    }

    /// The size to submit now.
    pub closed spec fn current_size(self) -> int {
        self.size as int
    }

    /// How often the size was halved.
    pub closed spec fn reductions_made(self) -> nat {
        self.reductions as nat
    }

    #[verifier::type_invariant]
    closed spec fn well_formed(self) -> bool {
        &&& self.reductions <= MAX_REDUCTIONS
        &&& self.size == halved(self.initial as int, self.reductions as nat)
    }

    /// Starts the protocol at `initial`, with no reduction made.
    pub fn new(initial: i64) -> (r: Halving)
        ensures
            r.initial_size() == initial,
            r.current_size() == initial,
            r.reductions_made() == 0,
    {
        Halving { initial, size: initial, reductions: 0 }
    }

    /// The size to submit now: the initial size divided by two to the power
    /// of the reductions made, rounded towards minus infinity.
    pub fn size(&self) -> (r: i64)
        ensures
            r == self.current_size(),
            r == self.initial_size() / (pow2(self.reductions_made()) as int),
    {
        proof {
            use_type_invariant(self);
            lemma_halving_is_exact(self.initial as int, self.reductions as nat);
        }
        self.size
    }

    /// How often the size was halved: never more than `MAX_REDUCTIONS` times.
    pub fn reductions(&self) -> (r: u32)
        ensures
            r == self.reductions_made(),
            r <= MAX_REDUCTIONS,
    {
        proof {
            use_type_invariant(self);
        }
        self.reductions
    }

    /// Takes the outcome of the submission of the current size and says what
    /// comes next. A confirmation ends the liquidation with success. An
    /// over-exposure rejection halves the size and asks for the submission
    /// again, unless `MAX_REDUCTIONS` halvings were made: then it is a
    /// failure, as any other rejection is at once.
    pub fn step(self, outcome: SendOutcome) -> (r: (Halving, Step))
        ensures
            r.0.initial_size() == self.initial_size(),
            outcome == SendOutcome::Confirmed ==> r.0 == self && r.1 == Step::Succeeded,
            outcome == SendOutcome::Rejected ==> r.0 == self && r.1 == (Step::Failed {
                error: ErrorCode::LiquidationFailure,
            }),
            outcome == SendOutcome::OverExposure && self.reductions_made() >= MAX_REDUCTIONS ==> r.0
                == self && r.1 == (Step::Failed { error: ErrorCode::LiquidationFailure }),
            outcome == SendOutcome::OverExposure && self.reductions_made() < MAX_REDUCTIONS ==> {
                &&& r.0.reductions_made() == self.reductions_made() + 1
                &&& r.0.current_size() == self.current_size() / 2
                &&& r.0.current_size() == self.initial_size() / (pow2(r.0.reductions_made()) as int)
                &&& r.1 == (Step::Resubmit { size: r.0.current_size() as i64 })
            },
    {
        proof {
            use_type_invariant(self);
        }
        match outcome {
            SendOutcome::Confirmed => (self, Step::Succeeded),
            SendOutcome::Rejected => (self, Step::Failed { error: ErrorCode::LiquidationFailure }),
            SendOutcome::OverExposure => {
                if self.reductions >= MAX_REDUCTIONS {
                    (self, Step::Failed { error: ErrorCode::LiquidationFailure })
                } else {
                    let size: i64 = floor_div(self.size, 2);
                    let next = Halving {
                        initial: self.initial,
                        size,
                        reductions: self.reductions + 1,
                    };
                    proof {
                        lemma_halving_is_exact(self.initial as int, next.reductions as nat);
                    }
                    (next, Step::Resubmit { size })
                }
            },
        }
    }
}

} // verus!
