//! Text that is made of numbered pieces, written one after the other.
//!
//! A piece may fail. The text of a run of pieces is then the failure of the
//! first piece that fails, whatever comes after it.

use crate::error::Error;
use vstd::prelude::*;

verus! {

/// A piece of text, or the reason why it cannot be written.
pub type Piece = Result<Seq<char>, Error>;

/// The pieces `piece(0)` to `piece(n - 1)`, one after the other.
pub open spec fn concat_all(n: nat, piece: spec_fn(int) -> Seq<char>) -> Seq<char>
    decreases n,
{
    if n == 0 {
        Seq::empty()
    } else {
        concat_all((n - 1) as nat, piece) + piece(n - 1)
    }
}

/// The pieces `piece(0)` to `piece(n - 1)`, one after the other, or the
/// failure of the first of them that fails.
pub open spec fn join_all(n: nat, piece: spec_fn(int) -> Piece) -> Piece
    decreases n,
{
    if n == 0 {
        Ok(Seq::empty())
    } else {
        match join_all((n - 1) as nat, piece) {
            Err(e) => Err(e),
            Ok(text) => match piece(n - 1) {
                Err(e) => Err(e),
                Ok(last) => Ok(text + last),
            },
        }
    }
}

/// A run that has failed stays failed, with the same failure, however many
/// pieces follow.
pub proof fn lemma_join_all_stays_failed(k: nat, n: nat, piece: spec_fn(int) -> Piece)
    requires
        k <= n,
        join_all(k, piece) is Err,
    ensures
        join_all(n, piece) == join_all(k, piece),
    decreases n,
{
    if k < n {
        lemma_join_all_stays_failed(k, (n - 1) as nat, piece);
    }
}

/// A run of pieces succeeds exactly if each piece does. Where it fails, it
/// fails as the first failing piece does.
pub proof fn lemma_join_all_first_failure(n: nat, piece: spec_fn(int) -> Piece)
    ensures
        join_all(n, piece) is Ok <==> forall|i: int| 0 <= i < n ==> (#[trigger] piece(i)) is Ok,
        join_all(n, piece) matches Err(e) ==> exists|i: int|
            0 <= i < n && #[trigger] piece(i) == Err::<Seq<char>, Error>(e) && forall|j: int|
                0 <= j < i ==> (#[trigger] piece(j)) is Ok,
    decreases n,
{
    if n > 0 {
        lemma_join_all_first_failure((n - 1) as nat, piece);
        match join_all((n - 1) as nat, piece) {
            Err(e) => {
                let i = choose|i: int|
                    0 <= i < n - 1 && #[trigger] piece(i) == Err::<Seq<char>, Error>(e) && forall|j: int|
                        0 <= j < i ==> (#[trigger] piece(j)) is Ok;
                assert(0 <= i < n && piece(i) == Err::<Seq<char>, Error>(e));
            },
            Ok(_) => {
                if let Err(e) = piece(n - 1) {
                    assert(0 <= n - 1 < n && piece(n - 1) == Err::<Seq<char>, Error>(e));
                } else {
                    assert forall|i: int| 0 <= i < n implies (#[trigger] piece(i)) is Ok by {
                        if i < n - 1 {
                        }
                    }
                }
            },
        }
    }
}

} // verus!
