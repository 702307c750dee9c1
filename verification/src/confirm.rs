//! Waiting for confirmations.

use crate::error::{WalletError, WalletErrorView};
use vstd::prelude::*;

verus! {

/// The longest wait between two rounds, in seconds: about the time of a block.
pub const MAX_BACKOFF_SECONDS: u64 = 600;

/// By how much the wait grows from round to round, in seconds.
pub const SLEEP_INCREMENT_SECONDS: u64 = 10;

/// A transaction has the confirmations.
pub open spec fn is_confirmed(confirmations: Option<u32>, required: u32) -> bool {
    confirmations is Some && confirmations->0 >= required
}

/// All transactions have the confirmations.
pub open spec fn all_confirmed(confirmations: Seq<Option<u32>>, required: u32) -> bool {
    forall|i: int| 0 <= i < confirmations.len() ==> is_confirmed(#[trigger] confirmations[i], required)
}

/// The height of the block that a transaction is in.
pub open spec fn confirm_height(current_height: u32, confirmations: u32) -> int {
    if current_height >= confirmations {
        current_height - confirmations + 1
    } else {
        1
    }
}

/// The highest block that any of the transactions is in, zero where there is none.
pub open spec fn highest_block(current_height: u32, confirmations: Seq<Option<u32>>) -> int
    decreases confirmations.len(),
{
    if confirmations.len() == 0 {
        0
    } else {
        let rest = highest_block(current_height, confirmations.drop_last());
        let height = confirm_height(current_height, confirmations.last()->0);
        if height > rest {
            height
        } else {
            rest
        }
    }
}

/// The seconds to wait after a round, growing with the number of rounds.
pub open spec fn backoff(attempt: u64) -> u64 {
    if SLEEP_INCREMENT_SECONDS * attempt <= MAX_BACKOFF_SECONDS {
        (SLEEP_INCREMENT_SECONDS * attempt) as u64
    } else {
        MAX_BACKOFF_SECONDS
    }
}

/// The result without any wait: none of the transactions, or no confirmation, is asked for.
pub fn nothing_to_wait_for(num_txids: usize, required_confirms: u32) -> (r: Option<u32>)
    ensures
        r == if required_confirms == 0 || num_txids == 0 {
            Some(0u32)
        } else {
            None
        },
{
    if required_confirms == 0 || num_txids == 0 {
        Some(0)
    } else {
        None
    }
}

/// Looks at the confirmations of all transactions in one round. Where all are confirmed, the result
/// is the highest block that any of them is in.
pub fn evaluate_round(
    current_height: u32,
    confirmations: &Vec<Option<u32>>,
    required_confirms: u32,
) -> (r: Option<u32>)
    requires
        required_confirms > 0,
    ensures
        match r {
            Some(height) => all_confirmed(confirmations@, required_confirms) && height
                == highest_block(current_height, confirmations@),
            None => !all_confirmed(confirmations@, required_confirms),
        },
{
    let mut highest: u32 = 0;
    let mut i: usize = 0;
    assert(confirmations@.take(0) =~= Seq::<Option<u32>>::empty());
    while i < confirmations.len()
        invariant
            i <= confirmations.len(),
            required_confirms > 0,
            forall|k: int|
                0 <= k < i ==> is_confirmed(#[trigger] confirmations@[k], required_confirms),
            highest == highest_block(current_height, confirmations@.take(i as int)),
        decreases confirmations.len() - i,
    {
        proof {
            assert(confirmations@.take(i + 1).drop_last() =~= confirmations@.take(i as int));
        }
        match confirmations[i] {
            Some(n) => {
                if n < required_confirms {
                    assert(!is_confirmed(confirmations@[i as int], required_confirms));
                    return None;
                }
                let height: u32 = if current_height >= n {
                    current_height - n + 1
                } else {
                    1
                };
                if height > highest {
                    highest = height;
                }
            },
            None => {
                assert(!is_confirmed(confirmations@[i as int], required_confirms));
                return None;
            },
        }
        i += 1;
    }
    assert(confirmations@.take(confirmations@.len() as int) =~= confirmations@);
    Some(highest)
}

/// The number of the next round.
pub fn next_attempt(attempt: u64) -> (r: u64)
    ensures
        r == if attempt < u64::MAX {
            (attempt + 1) as u64
        } else {
            u64::MAX
        },
{
    if attempt < u64::MAX {
        attempt + 1
    } else {
        attempt
    }
}

/// The seconds to wait after a round.
pub fn backoff_seconds(attempt: u64) -> (r: u64)
    ensures
        r == backoff(attempt),
{
    if attempt <= MAX_BACKOFF_SECONDS / SLEEP_INCREMENT_SECONDS {
        SLEEP_INCREMENT_SECONDS * attempt
    } else {
        MAX_BACKOFF_SECONDS
    }
}

/// Whether a wait is to be broken off.
pub fn check_interruption(shutdown: bool, abort: bool) -> (r: Result<(), WalletError>)
    ensures
        match r {
            Ok(()) => !shutdown && !abort,
            Err(e) => e@ == WalletErrorView::Interrupted(
                if shutdown {
                    "Shutdown requested"@
                } else {
                    "Abort requested"@
                },
            ) && (shutdown || abort),
        },
{
    if shutdown {
        return Err(WalletError::Interrupted("Shutdown requested".to_string()));
    }
    if abort {
        return Err(WalletError::Interrupted("Abort requested".to_string()));
    }
    Ok(())
}

/// The result of a round is the highest block: no transaction is in a higher one.
pub proof fn law_no_transaction_is_higher(current_height: u32, confirmations: Seq<Option<u32>>, i: int)
    requires
        0 <= i < confirmations.len(),
    ensures
        confirm_height(current_height, confirmations[i]->0) <= highest_block(
            current_height,
            confirmations,
        ),
    decreases confirmations.len(),
{
    if i < confirmations.len() - 1 {
        assert(confirmations.drop_last()[i] == confirmations[i]);
        law_no_transaction_is_higher(current_height, confirmations.drop_last(), i);
    }
}

/// The wait grows from round to round and never exceeds its limit.
pub proof fn law_backoff_grows_to_its_limit(earlier: u64, later: u64)
    requires
        earlier <= later,
    ensures
        backoff(earlier) <= backoff(later) <= MAX_BACKOFF_SECONDS,
{
}

/// A round ends the wait exactly where every transaction has as many confirmations as asked for.
/// The result is the block of the latest of them: the first of its confirmations counts as one. No
/// block comes before the first.
pub proof fn law_round_ends_when_all_are_confirmed(
    current_height: u32,
    confirmations: Vec<Option<u32>>,
    required: u32,
    r: Option<u32>,
)
    requires
        required > 0,
        call_ensures(evaluate_round, (current_height, &confirmations, required), r),
    ensures
        r is Some <==> forall|i: int|
            0 <= i < confirmations@.len() ==> ((#[trigger] confirmations@[i]) matches Some(n) && n
                >= required),
        r matches Some(height) ==> {
            &&& forall|i: int|
                0 <= i < confirmations@.len() ==> height + (#[trigger] confirmations@[i])->0
                    >= current_height + 1 && height >= 1
            &&& confirmations@.len() == 0 ==> height == 0
            &&& confirmations@.len() > 0 && height > 1 ==> exists|i: int|
                0 <= i < confirmations@.len() && height + (#[trigger] confirmations@[i])->0
                    == current_height + 1
        },
{
    if r is Some {
        assert forall|i: int| 0 <= i < confirmations@.len() implies ((
        #[trigger] confirmations@[i]) matches Some(n) && n >= required) by {
            assert(is_confirmed(confirmations@[i], required));
        }
        assert forall|i: int| 0 <= i < confirmations@.len() implies r->0 + (
        #[trigger] confirmations@[i])->0 >= current_height + 1 && r->0 >= 1 by {
            law_no_transaction_is_higher(current_height, confirmations@, i);
        }
        lemma_some_transaction_is_highest(current_height, confirmations@);
    } else {
        let i = choose|i: int|
            0 <= i < confirmations@.len() && !is_confirmed(#[trigger] confirmations@[i], required);
        assert(!(confirmations@[i] matches Some(n) && n >= required));
    }
}

proof fn lemma_some_transaction_is_highest(current_height: u32, confirmations: Seq<Option<u32>>)
    requires
        forall|i: int| 0 <= i < confirmations.len() ==> (#[trigger] confirmations[i]) is Some,
    ensures
        confirmations.len() > 0 ==> exists|i: int|
            0 <= i < confirmations.len() && highest_block(current_height, confirmations)
                == confirm_height(current_height, (#[trigger] confirmations[i])->0),
    decreases confirmations.len(),
{
    if confirmations.len() > 0 {
        let less = confirmations.drop_last();
        assert forall|i: int| 0 <= i < less.len() implies (#[trigger] less[i]) is Some by {
            assert(less[i] == confirmations[i]);
        }
        lemma_some_transaction_is_highest(current_height, less);
        let last = confirmations[confirmations.len() - 1];
        if confirm_height(current_height, last->0) <= highest_block(current_height, less) {
            assert(less.len() > 0);
            let i = choose|i: int|
                0 <= i < less.len() && highest_block(current_height, less) == confirm_height(
                    current_height,
                    (#[trigger] less[i])->0,
                );
            assert(confirmations[i] == less[i]);
        }
    }
}

/// The wait after a round is ten seconds for each round so far, and never more than ten minutes.
pub proof fn law_waits(attempt: u64, r: u64)
    requires
        call_ensures(backoff_seconds, (attempt,), r),
    ensures
        attempt <= 60 ==> r == 10 * attempt,
        attempt >= 60 ==> r == 600,
{
}

/// A wait is broken off exactly where the wallet shuts down or the wait was called off.
pub proof fn law_interruptions_end_the_wait(shutdown: bool, abort: bool, r: Result<(), WalletError>)
    requires
        call_ensures(check_interruption, (shutdown, abort), r),
    ensures
        r is Ok <==> !(shutdown || abort),
        r matches Err(e) ==> e@ == WalletErrorView::Interrupted(
            if shutdown {
                "Shutdown requested"@
            } else {
                "Abort requested"@
            },
        ),
{
}

/// There is something to wait for exactly where there is a transaction and a confirmation is asked
/// for.
pub proof fn law_nothing_is_waited_for_in_vain(count: usize, required: u32, r: Option<u32>)
    requires
        call_ensures(nothing_to_wait_for, (count, required), r),
    ensures
        r is None <==> count > 0 && required > 0,
        r matches Some(height) ==> height == 0,
{
}

/// The rounds are counted one by one, and the count stays where it can go no further.
pub proof fn law_rounds_are_counted(attempt: u64, r: u64)
    requires
        call_ensures(next_attempt, (attempt,), r),
    ensures
        attempt < u64::MAX ==> r == attempt + 1,
        attempt == u64::MAX ==> r == attempt,
{
}

} // verus!
