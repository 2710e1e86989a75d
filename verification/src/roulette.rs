//! A toy roulette wheel: 37 pockets numbered 0 through 36, a random draw,
//! and a fixed 36-to-1 payout on a matching single-number bet.

use vstd::prelude::*;

use rand::Rng;

verus! {

/// The payout rule: a matching draw pays 36 times the stake, any other draw
/// pays nothing.
pub open spec fn payout(drawn: int, bet_number: int, bet_amount: int) -> (bool, int) {
    if drawn == bet_number {
        (true, 36 * bet_amount)
    } else {
        (false, 0)
    }
}

/// Relies on `rand::Rng::gen_range` on a `thread_rng`: a draw from `0..n`
/// lies in that range; the range is nonempty, so the call does not panic.
#[verifier::external_body]
fn draw_below(n: usize) -> (r: usize)
    requires
        1 <= n,
    ensures
        r < n,
{
    rand::thread_rng().gen_range(0..n)
}

pub struct Roulette {
    pub numbers: Vec<i32>,
}

impl Roulette {
    /// The wheel holds the pockets 0 through 36, in order.
    pub open spec fn wf(&self) -> bool {
        self.numbers@.len() == 37 && forall|i: int| 0 <= i < 37 ==> self.numbers@[i] == i
    }

    pub fn new() -> (r: Roulette)
        ensures
            r.wf(),
    {
        let mut numbers: Vec<i32> = Vec::new();
        let mut i: i32 = 0;
        while i < 37
            invariant
                0 <= i <= 37,
                numbers@.len() == i,
                forall|k: int| 0 <= k < i ==> numbers@[k] == k,
            decreases 37 - i,
        {
            numbers.push(i);
            i = i + 1;
        }
        Roulette { numbers }
    }

    /// Draw a pocket at random: always one of the wheel's 37 numbers.
    pub fn spin(&self) -> (r: i32)
        requires
            self.wf(),
        ensures
            0 <= r < 37,
    {
        let idx = draw_below(37);
        self.numbers[idx]
    }

    /// Resolve a single-number bet: draw a pocket, then apply the payout
    /// rule. Whatever is drawn, a win pays 36 times the stake and a loss
    /// pays nothing; the result always corresponds to one of the pockets.
    pub fn bet(&self, bet_number: i32, bet_amount: i32) -> (r: (bool, i32))
        requires
            self.wf(),
            i32::MIN <= bet_amount * 36 <= i32::MAX,
        ensures
            r.0 ==> r.1 == bet_amount * 36,
            !r.0 ==> r.1 == 0,
            exists|p: int|
                0 <= p < 37 && r.0 == payout(p, bet_number as int, bet_amount as int).0 && r.1
                    == payout(p, bet_number as int, bet_amount as int).1,
    {
        let result = self.spin();
        let r = bet_outcome(result, bet_number, bet_amount);
        proof {
            assert(r.0 == payout(result as int, bet_number as int, bet_amount as int).0 && r.1
                == payout(result as int, bet_number as int, bet_amount as int).1);
        }
        r
    }
}

/// The payout for a known draw: exactly the wheel's rule.
pub fn bet_outcome(drawn: i32, bet_number: i32, bet_amount: i32) -> (r: (bool, i32))
    requires
        i32::MIN <= bet_amount * 36 <= i32::MAX,
    ensures
        r.0 == (drawn == bet_number),
        r.1 == payout(drawn as int, bet_number as int, bet_amount as int).1,
{
    if drawn == bet_number {
        (true, bet_amount * 36)
    } else {
        (false, 0)
    }
}

} // verus!
