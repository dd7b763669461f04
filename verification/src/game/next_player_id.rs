//! Turn rotation: the next player's index, advancing around the table and
//! skipping every player who has already passed in the current trick.

use vstd::prelude::*;
use vstd::pervasive::unreached;

verus! {

/// An index advanced past the table size, wrapped back around once.
pub open spec fn wrap(i: int, n: int) -> int {
    if i >= n {
        i - n
    } else {
        i
    }
}

/// The first index after `current`, seeking from offset `k` on, that has
/// not passed; seeking never goes further than one full turn of the table.
pub open spec fn next_seek(current: int, passed: Seq<usize>, n: int, k: int) -> int
    decreases n + 1 - k,
{
    if k < 1 || k > n {
        current
    } else if !passed.contains(wrap(current + k, n) as usize) {
        wrap(current + k, n)
    } else {
        next_seek(current, passed, n, k + 1)
    }
}

/// The index of the player whose turn comes after `current`: the nearest
/// following index, wrapping around the table, that is not in the passed
/// set.
pub open spec fn next_player_spec(current: int, passed: Seq<usize>, n: int) -> int {
    next_seek(current, passed, n, 1)
}

/// Decides whose turn comes after `current`, skipping every index in the
/// passed set. Some index must still be in play.
pub fn next_player_id(current: usize, passed: &Vec<usize>, num_players: usize) -> (r: usize)
    requires
        num_players >= 1,
        num_players <= usize::MAX / 2,
        current < num_players,
        exists|x: usize| x < num_players && !passed@.contains(x),
    ensures
        r as int == next_player_spec(current as int, passed@, num_players as int),
        r < num_players,
        !passed@.contains(r),
{
    let n = num_players;
    let mut k: usize = 1;
    while k <= n
        invariant
            n == num_players,
            n <= usize::MAX / 2,
            current < n,
            1 <= k <= n + 1,
            forall|j: int|
                1 <= j < k ==> passed@.contains(#[trigger] (wrap(current + j, n as int) as usize)),
            next_player_spec(current as int, passed@, n as int) == next_seek(
                current as int,
                passed@,
                n as int,
                k as int,
            ),
        decreases n + 1 - k,
    {
        let cand = if current + k >= n {
            current + k - n
        } else {
            current + k
        };
        proof {
            assert(cand as int == wrap(current + k, n as int));
        }
        if !contains_index(passed, cand) {
            return cand;
        }
        k += 1;
    }
    proof {
        let x = choose|x: usize| x < num_players && !passed@.contains(x);
        let k0: int = if x > current {
            x - current
        } else {
            x + n - current
        };
        assert(1 <= k0 <= n);
        assert(wrap(current + k0, n as int) == x as int);
        assert(passed@.contains(wrap(current + k0, n as int) as usize));
    }
    unreached()
}

/// Decides whether an index occurs in an index vector.
fn contains_index(passed: &Vec<usize>, x: usize) -> (r: bool)
    ensures
        r == passed@.contains(x),
{
    let mut i: usize = 0;
    while i < passed.len()
        invariant
            i <= passed@.len(),
            forall|k: int| 0 <= k < i ==> passed@[k] != x,
        decreases passed@.len() - i,
    {
        if passed[i] == x {
            proof {
                assert(passed@[i as int] == x);
            }
            return true;
        }
        i += 1;
    }
    proof {
        assert(!passed@.contains(x));
    }
    false
}

} // verus!
