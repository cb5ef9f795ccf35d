//! The moves of one run, and how many of them went well.
//!
//! Sources and destinations come as two lists of equal length. An entry
//! without destination is skipped. The others are taken in order; unless
//! files may be overwritten, each destination is made unique among the names
//! that exist and the destinations given out before it.

use vstd::prelude::*;
use vstd::string::*;
use crate::text::texts;
use crate::config::Opt;
use crate::unique::{dedupe, lemma_unique_name_is_free, name_set, settled, unique_name};

verus! {

/// One file to move, from `src` to `dst`.
#[derive(Debug, PartialEq, Eq)]
pub struct Move {
    /// Where the file lies.
    pub src: String,
    /// Where it goes.
    pub dst: String,
}

impl View for Move {
    type V = (Seq<char>, Seq<char>);

    open spec fn view(&self) -> (Seq<char>, Seq<char>) {
        (self.src@, self.dst@)
    }
}

/// The moves of a list, each as its source and its destination.
pub open spec fn move_views(moves: Seq<Move>) -> Seq<(Seq<char>, Seq<char>)> {
    moves.map_values(|m: Move| m@)
}

/// The moves that sources and destinations give rise to, where the names in
/// `taken` are in use. Entries without destination leave no move. Unless
/// files may be overwritten, a destination that was given out counts as
/// taken for the entries behind it.
pub open spec fn planned(
    srcs: Seq<String>,
    dsts: Seq<Option<String>>,
    overwrite: bool,
    taken: Set<Seq<char>>,
) -> Seq<(Seq<char>, Seq<char>)>
    decreases dsts.len(),
{
    if srcs.len() == 0 || dsts.len() == 0 {
        Seq::empty()
    } else {
        match dsts.first() {
            None => planned(srcs.drop_first(), dsts.drop_first(), overwrite, taken),
            Some(d) => {
                let dst = settled(d@, overwrite, taken);
                let later = if overwrite {
                    taken
                } else {
                    taken.insert(dst)
                };
                seq![(srcs.first()@, dst)] + planned(
                    srcs.drop_first(),
                    dsts.drop_first(),
                    overwrite,
                    later,
                )
            },
        }
    }
}

/// How many entries of `dsts` hold a destination.
pub open spec fn wanted_count(dsts: Seq<Option<String>>) -> nat
    decreases dsts.len(),
{
    if dsts.len() == 0 {
        0
    } else {
        wanted_count(dsts.drop_first()) + if dsts.first() is Some {
            1nat
        } else {
            0nat
        }
    }
}

/// How many of `outcomes` are successes.
pub open spec fn successes(outcomes: Seq<bool>) -> nat
    decreases outcomes.len(),
{
    if outcomes.len() == 0 {
        0
    } else {
        successes(outcomes.drop_last()) + if outcomes.last() {
            1nat
        } else {
            0nat
        }
    }
}

/// There is one move for each entry that holds a destination: an entry
/// without one takes nothing away from the others.
pub proof fn lemma_planned_len(
    srcs: Seq<String>,
    dsts: Seq<Option<String>>,
    overwrite: bool,
    taken: Set<Seq<char>>,
)
    requires
        srcs.len() == dsts.len(),
    ensures
        planned(srcs, dsts, overwrite, taken).len() == wanted_count(dsts),
        wanted_count(dsts) <= dsts.len(),
    decreases dsts.len(),
{
    if dsts.len() > 0 {
        match dsts.first() {
            None => {
                lemma_planned_len(srcs.drop_first(), dsts.drop_first(), overwrite, taken);
            },
            Some(d) => {
                let dst = settled(d@, overwrite, taken);
                let later = if overwrite {
                    taken
                } else {
                    taken.insert(dst)
                };
                lemma_planned_len(srcs.drop_first(), dsts.drop_first(), overwrite, later);
            },
        }
    }
}

/// Where files may not be overwritten, no move goes to a name that is in
/// use, and no two moves go to the same name.
pub proof fn lemma_planned_never_collides(
    srcs: Seq<String>,
    dsts: Seq<Option<String>>,
    taken: Set<Seq<char>>,
)
    requires
        taken.finite(),
    ensures
        forall|a: int|
            0 <= a < planned(srcs, dsts, false, taken).len() ==> !taken.contains(
                #[trigger] planned(srcs, dsts, false, taken)[a].1,
            ),
        forall|a: int, b: int|
            0 <= a < b < planned(srcs, dsts, false, taken).len() ==> #[trigger] planned(
                srcs,
                dsts,
                false,
                taken,
            )[a].1 != #[trigger] planned(srcs, dsts, false, taken)[b].1,
    decreases dsts.len(),
{
    let all = planned(srcs, dsts, false, taken);
    if srcs.len() > 0 && dsts.len() > 0 {
        match dsts.first() {
            None => {
                lemma_planned_never_collides(srcs.drop_first(), dsts.drop_first(), taken);
                assert(all == planned(srcs.drop_first(), dsts.drop_first(), false, taken));
            },
            Some(d) => {
                let dst = unique_name(d@, taken);
                let later = taken.insert(dst);
                let rest = planned(srcs.drop_first(), dsts.drop_first(), false, later);
                lemma_unique_name_is_free(d@, taken);
                lemma_planned_never_collides(srcs.drop_first(), dsts.drop_first(), later);
                assert(all == seq![(srcs.first()@, dst)] + rest);
                assert(all[0].1 == dst);
                assert forall|a: int| 1 <= a < all.len() implies all[a] == rest[a - 1]
                    && !later.contains(rest[a - 1].1) by {}
                assert forall|a: int| 0 <= a < all.len() implies !taken.contains(
                    #[trigger] all[a].1,
                ) by {
                    if a > 0 {
                        assert(all[a] == rest[a - 1]);
                    }
                }
                assert forall|a: int, b: int| 0 <= a < b < all.len() implies #[trigger] all[a].1
                    != #[trigger] all[b].1 by {
                    assert(all[b] == rest[b - 1]);
                    if a > 0 {
                        assert(all[a] == rest[a - 1]);
                    }
                }
            },
        }
    } else {
        assert(all.len() == 0);
    }
}

/// With nothing to move there are no moves, and nothing went well.
pub proof fn lemma_nothing_to_do(overwrite: bool, taken: Set<Seq<char>>)
    ensures
        planned(Seq::empty(), Seq::empty(), overwrite, taken).len() == 0,
        successes(Seq::empty()) == 0,
{
}

/// No more moves went well than were tried, and all of them did if none
/// failed.
pub proof fn lemma_successes_bounds(outcomes: Seq<bool>)
    ensures
        successes(outcomes) <= outcomes.len(),
        (forall|i: int| 0 <= i < outcomes.len() ==> outcomes[i]) ==> successes(outcomes)
            == outcomes.len(),
    decreases outcomes.len(),
{
    if outcomes.len() > 0 {
        lemma_successes_bounds(outcomes.drop_last());
        if forall|i: int| 0 <= i < outcomes.len() ==> outcomes[i] {
            assert forall|i: int| 0 <= i < outcomes.drop_last().len() implies outcomes.drop_last()[i] by {
                assert(outcomes.drop_last()[i] == outcomes[i]);
            }
        }
    }
}

/// A name that is added to a list is added to its set of names.
proof fn lemma_name_set_push(names: Seq<String>, name: String)
    ensures
        name_set(names.push(name)) == name_set(names).insert(name@),
{
    let before = texts(names);
    let after = texts(names.push(name));
    assert(after =~= before.push(name@));
    assert forall|s: Seq<char>| after.to_set().contains(s) <==> before.to_set().insert(
        name@,
    ).contains(s) by {
        if after.contains(s) {
            let i = choose|i: int| 0 <= i < after.len() && after[i] == s;
            if i < before.len() {
                assert(before[i] == s);
                assert(before.contains(s));
            }
        }
        if before.contains(s) {
            let i = choose|i: int| 0 <= i < before.len() && before[i] == s;
            assert(after[i] == s);
        }
        if s == name@ {
            assert(after[before.len() as int] == s);
        }
    }
    assert(name_set(names.push(name)) =~= name_set(names).insert(name@));
}

/// Pairs sources with destinations and settles where each file goes.
/// `existing` holds the names that are in use before anything is moved.
pub fn plan_moves(
    src_paths: &Vec<String>,
    dst_paths: &Vec<Option<String>>,
    opts: &Opt,
    existing: Vec<String>,
) -> (moves: Vec<Move>)
    requires
        src_paths.len() == dst_paths.len(),
    ensures
        move_views(moves@) == planned(
            src_paths@,
            dst_paths@,
            opts.overwrite,
            name_set(existing@),
        ),
{
    let overwrite = opts.overwrite;
    let mut occupied = existing;
    let mut moves: Vec<Move> = Vec::new();
    let mut i: usize = 0;
    assert(src_paths@.skip(0) =~= src_paths@);
    assert(dst_paths@.skip(0) =~= dst_paths@);
    assert(move_views(moves@) =~= Seq::empty());
    while i < dst_paths.len()
        invariant
            i <= dst_paths.len(),
            src_paths.len() == dst_paths.len(),
            move_views(moves@) + planned(
                src_paths@.skip(i as int),
                dst_paths@.skip(i as int),
                overwrite,
                name_set(occupied@),
            ) == planned(src_paths@, dst_paths@, overwrite, name_set(existing@)),
        decreases dst_paths.len() - i,
    {
        let ghost before = move_views(moves@);
        let ghost taken = name_set(occupied@);
        proof {
            assert(src_paths@.skip(i as int).drop_first() =~= src_paths@.skip(i + 1));
            assert(dst_paths@.skip(i as int).drop_first() =~= dst_paths@.skip(i + 1));
            assert(dst_paths@.skip(i as int).first() == dst_paths@[i as int]);
            assert(src_paths@.skip(i as int).first() == src_paths@[i as int]);
        }
        match &dst_paths[i] {
            None => {},
            Some(wanted) => {
                let dst = dedupe(wanted.as_str(), overwrite, &occupied);
                if !overwrite {
                    proof {
                        lemma_name_set_push(occupied@, dst);
                    }
                    occupied.push(dst.clone());
                }
                let src = src_paths[i].clone();
                moves.push(Move { src, dst });
                proof {
                    let step = (src_paths@[i as int]@, settled(wanted@, overwrite, taken));
                    assert(move_views(moves@) =~= before.push(step));
                    assert(before.push(step) + planned(
                        src_paths@.skip(i + 1),
                        dst_paths@.skip(i + 1),
                        overwrite,
                        name_set(occupied@),
                    ) =~= before + planned(
                        src_paths@.skip(i as int),
                        dst_paths@.skip(i as int),
                        overwrite,
                        taken,
                    ));
                }
            },
        }
        i = i + 1;
    }
    assert(move_views(moves@) + Seq::empty() =~= move_views(moves@));
    moves
}

/// Counts the moves that went well. `outcomes` holds, for each move that
/// was tried, whether it succeeded.
pub fn count_moved(outcomes: &Vec<bool>) -> (moved: usize)
    ensures
        moved == successes(outcomes@),
        moved <= outcomes.len(),
{
    let mut moved: usize = 0;
    let mut i: usize = 0;
    while i < outcomes.len()
        invariant
            i <= outcomes.len(),
            moved <= i,
            moved == successes(outcomes@.take(i as int)),
        decreases outcomes.len() - i,
    {
        proof {
            assert(outcomes@.take(i + 1).drop_last() =~= outcomes@.take(i as int));
            assert(outcomes@.take(i + 1).last() == outcomes@[i as int]);
        }
        if outcomes[i] {
            moved = moved + 1;
        }
        i = i + 1;
    }
    assert(outcomes@.take(i as int) =~= outcomes@);
    moved
}

} // verus!
