//! Mention minimization: cover a target user set with the guild's roles whose
//! members all lie in the target, keep only the maximal ones, and collect the
//! remaining users as outliers.

use vstd::prelude::*;

use crate::guild::everyone;
use crate::guild::here;
use crate::guild::Guild;
use crate::guild::RoleV;
use crate::userset::UserSet;

verus! {

/// A key of the guild's role map: the whole guild, the online members, or a
/// proper role.
#[derive(Debug, Clone, Copy, PartialEq, Eq, Structural)]
pub enum RoleKey {
    /// All members.
    Everyone,
    /// The members whose presence is not offline.
    Here,
    /// The role with this identifier.
    Role(u64),
}

/// The value of a keyed member set.
pub type RolePairV = (RoleKey, Set<u64>);

/// The values of a vector of keyed member sets.
pub open spec fn pairs_view(s: Seq<(RoleKey, UserSet)>) -> Seq<RolePairV>
    decreases s.len(),
{
    if s.len() == 0 {
        Seq::empty()
    } else {
        pairs_view(s.drop_last()).push((s.last().0, s.last().1@))
    }
}

/// Elementwise description of [`pairs_view`].
pub proof fn lemma_pairs_view(s: Seq<(RoleKey, UserSet)>)
    ensures
        pairs_view(s).len() == s.len(),
        forall|i: int|
            0 <= i < s.len() ==> #[trigger] pairs_view(s)[i] == (s[i].0, s[i].1@),
    decreases s.len(),
{
    if s.len() > 0 {
        lemma_pairs_view(s.drop_last());
    }
}

/// One set is strictly inside another.
pub open spec fn strict_subset(a: Set<u64>, b: Set<u64>) -> bool {
    a.subset_of(b) && !b.subset_of(a)
}

/// A qualifier: a keyed set whose members all lie in the target.
pub open spec fn qualifies(p: RolePairV, t: Set<u64>) -> bool {
    p.1.subset_of(t)
}

/// A qualifier strictly inside some other qualifier of the map.
pub open spec fn dominated(p: RolePairV, all: Seq<RolePairV>, t: Set<u64>) -> bool {
    exists|i: int|
        0 <= i < all.len() && qualifies(#[trigger] all[i], t) && strict_subset(p.1, all[i].1)
}

/// Membership in the cover: a qualifier not strictly dominated by another.
pub open spec fn in_cover(p: RolePairV, all: Seq<RolePairV>, t: Set<u64>) -> bool {
    qualifies(p, t) && !dominated(p, all, t)
}

/// The subsequence of `r` that belongs to the cover of `t`, judged against
/// the full map `all`.
pub open spec fn cover_of(r: Seq<RolePairV>, all: Seq<RolePairV>, t: Set<u64>) -> Seq<RolePairV>
    decreases r.len(),
{
    if r.len() == 0 {
        Seq::empty()
    } else {
        let rest = cover_of(r.drop_last(), all, t);
        if in_cover(r.last(), all, t) {
            rest.push(r.last())
        } else {
            rest
        }
    }
}

/// The union of the member sets of a sequence of keyed sets.
pub open spec fn union_of(s: Seq<RolePairV>) -> Set<u64>
    decreases s.len(),
{
    if s.len() == 0 {
        Set::empty()
    } else {
        union_of(s.drop_last()).union(s.last().1)
    }
}

/// Every element of the cover is an undominated qualifier drawn from `r`.
proof fn lemma_cover_elems(r: Seq<RolePairV>, all: Seq<RolePairV>, t: Set<u64>)
    ensures
        forall|i: int|
            0 <= i < cover_of(r, all, t).len() ==> in_cover(#[trigger] cover_of(r, all, t)[i], all, t)
                && exists|j: int| 0 <= j < r.len() && #[trigger] r[j] == cover_of(r, all, t)[i],
    decreases r.len(),
{
    if r.len() > 0 {
        lemma_cover_elems(r.drop_last(), all, t);
        let rest = cover_of(r.drop_last(), all, t);
        assert forall|i: int| 0 <= i < cover_of(r, all, t).len() implies in_cover(
            #[trigger] cover_of(r, all, t)[i],
            all,
            t,
        ) && exists|j: int| 0 <= j < r.len() && #[trigger] r[j] == cover_of(r, all, t)[i] by {
            if i < rest.len() {
                assert(in_cover(rest[i], all, t));
                let j = choose|j: int| 0 <= j < r.drop_last().len() && #[trigger] r.drop_last()[j]
                    == rest[i];
                assert(r[j] == cover_of(r, all, t)[i]);
            } else {
                assert(cover_of(r, all, t)[i] == r.last());
                assert(r[r.len() - 1] == cover_of(r, all, t)[i]);
            }
        }
    }
}

/// The union of sets that each lie in `t` lies in `t`.
proof fn lemma_union_of_subsets(s: Seq<RolePairV>, t: Set<u64>)
    requires
        forall|i: int| 0 <= i < s.len() ==> (#[trigger] s[i]).1.subset_of(t),
    ensures
        union_of(s).subset_of(t),
    decreases s.len(),
{
    if s.len() > 0 {
        assert forall|i: int| 0 <= i < s.drop_last().len() implies (
        #[trigger] s.drop_last()[i]).1.subset_of(t) by {
            assert(s.drop_last()[i] == s[i]);
        }
        lemma_union_of_subsets(s.drop_last(), t);
        assert(s[s.len() - 1].1.subset_of(t));
    }
}

/// The result of mention minimization: the cover and the outliers.
pub struct UnionizeSetResult {
    /// The maximal qualifying keyed sets, in map order.
    pub sets: Vec<(RoleKey, UserSet)>,
    /// The members of the target no qualifying set reaches.
    pub outliers: UserSet,
}

/// Cover the target `t` by the keyed sets of `r` that lie entirely inside
/// `t`, dropping any that sit strictly inside another qualifier; what is left
/// of `t` becomes the outliers.
///
/// The cover reconstructs the target exactly — the union of the cover plus
/// the outliers equals `t` — and is an antichain: no element of the cover is
/// a strict subset of another.
pub fn unionize_set(t: &UserSet, r: &Vec<(RoleKey, UserSet)>) -> (res: UnionizeSetResult)
    requires
        t.wf(),
        forall|i: int| 0 <= i < r@.len() ==> (#[trigger] r@[i]).1.wf(),
    ensures
        pairs_view(res.sets@) == cover_of(pairs_view(r@), pairs_view(r@), t@),
        forall|i: int| 0 <= i < res.sets@.len() ==> (#[trigger] res.sets@[i]).1.wf(),
        res.outliers.wf(),
        res.outliers@ == t@.difference(union_of(pairs_view(res.sets@))),
        union_of(pairs_view(res.sets@)).union(res.outliers@) == t@,
        forall|i: int, j: int|
            0 <= i < res.sets@.len() && 0 <= j < res.sets@.len() ==> !strict_subset(
                (#[trigger] res.sets@[i]).1@,
                (#[trigger] res.sets@[j]).1@,
            ),
{
    let ghost allv = pairs_view(r@);
    proof {
        lemma_pairs_view(r@);
    }
    let mut sets: Vec<(RoleKey, UserSet)> = Vec::new();
    let mut covered = UserSet::new();
    let mut i: usize = 0;
    while i < r.len()
        invariant
            0 <= i <= r@.len(),
            t.wf(),
            allv == pairs_view(r@),
            allv.len() == r@.len(),
            forall|k: int| 0 <= k < r@.len() ==> #[trigger] allv[k] == (r@[k].0, r@[k].1@),
            forall|k: int| 0 <= k < r@.len() ==> (#[trigger] r@[k]).1.wf(),
            pairs_view(sets@) == cover_of(allv.take(i as int), allv, t@),
            forall|k: int| 0 <= k < sets@.len() ==> (#[trigger] sets@[k]).1.wf(),
            covered.wf(),
            covered@ == union_of(pairs_view(sets@)),
        decreases r@.len() - i,
    {
        let ghost prefix = allv.take(i as int);
        let ghost taken = allv.take(i as int + 1);
        proof {
            assert(taken.drop_last() =~= prefix);
            assert(taken.last() == allv[i as int]);
        }
        let qual = r[i].1.is_subset_of(t);
        if qual {
            // Look for a strictly larger qualifier anywhere in the map.
            let mut dom: bool = false;
            let mut j: usize = 0;
            while j < r.len()
                invariant
                    0 <= j <= r@.len(),
                    i < r@.len(),
                    t.wf(),
                    allv.len() == r@.len(),
                    forall|k: int| 0 <= k < r@.len() ==> #[trigger] allv[k] == (r@[k].0, r@[k].1@),
                    dom ==> dominated(allv[i as int], allv, t@),
                    !dom ==> forall|k: int|
                        0 <= k < j ==> !(qualifies(#[trigger] allv[k], t@) && strict_subset(
                            allv[i as int].1,
                            allv[k].1,
                        )),
                decreases r@.len() - j,
            {
                if !dom {
                    let q2 = r[j].1.is_subset_of(t);
                    if q2 {
                        let sub = r[i].1.is_subset_of(&r[j].1);
                        if sub {
                            let back = r[j].1.is_subset_of(&r[i].1);
                            if !back {
                                dom = true;
                                proof {
                                    assert(qualifies(allv[j as int], t@) && strict_subset(
                                        allv[i as int].1,
                                        allv[j as int].1,
                                    ));
                                }
                            }
                        }
                    }
                }
                j += 1;
            }
            if !dom {
                proof {
                    assert(in_cover(allv[i as int], allv, t@));
                }
                let ghost prev_sets = sets@;
                let ghost prev_pairs = pairs_view(sets@);
                let key = r[i].0;
                let members = r[i].1.duplicate();
                sets.push((key, members));
                covered = covered.union(&r[i].1);
                proof {
                    assert(sets@.drop_last() =~= prev_sets);
                    assert(pairs_view(sets@) == pairs_view(prev_sets).push(
                        (sets@.last().0, sets@.last().1@),
                    ));
                    assert((sets@.last().0, sets@.last().1@) == allv[i as int]);
                    assert(pairs_view(sets@) == prev_pairs.push(allv[i as int]));
                    assert(cover_of(taken, allv, t@) == cover_of(prefix, allv, t@).push(
                        taken.last(),
                    ));
                    assert(pairs_view(sets@).drop_last() =~= prev_pairs);
                    assert(covered@ == union_of(pairs_view(sets@)));
                }
            } else {
                proof {
                    assert(cover_of(taken, allv, t@) == cover_of(prefix, allv, t@));
                }
            }
        } else {
            proof {
                assert(!qualifies(allv[i as int], t@));
                assert(cover_of(taken, allv, t@) == cover_of(prefix, allv, t@));
            }
        }
        i += 1;
    }
    proof {
        assert(allv.take(allv.len() as int) == allv);
    }
    let outliers = t.difference(&covered);
    proof {
        lemma_cover_elems(allv, allv, t@);
        let cov = pairs_view(sets@);
        assert forall|k: int| 0 <= k < cov.len() implies (#[trigger] cov[k]).1.subset_of(t@) by {
            assert(in_cover(cov[k], allv, t@));
        }
        lemma_union_of_subsets(cov, t@);
        assert(union_of(cov).union(t@.difference(union_of(cov))) =~= t@);
        lemma_pairs_view(sets@);
        assert forall|a: int, b: int|
            0 <= a < sets@.len() && 0 <= b < sets@.len() implies !strict_subset(
            (#[trigger] sets@[a]).1@,
            (#[trigger] sets@[b]).1@,
        ) by {
            if strict_subset(sets@[a].1@, sets@[b].1@) {
                assert(cov[a] == (sets@[a].0, sets@[a].1@));
                assert(cov[b] == (sets@[b].0, sets@[b].1@));
                assert(in_cover(cov[a], allv, t@));
                assert(in_cover(cov[b], allv, t@));
                let m = choose|m: int| 0 <= m < allv.len() && #[trigger] allv[m] == cov[b];
                assert(qualifies(allv[m], t@));
                assert(strict_subset(cov[a].1, allv[m].1));
                assert(dominated(cov[a], allv, t@));
            }
        }
    }
    UnionizeSetResult { sets, outliers }
}

/// All the guild's keyed member sets: `Everyone`, `Here`, then each role.
pub open spec fn role_pairs(rs: Seq<RoleV>) -> Seq<RolePairV>
    decreases rs.len(),
{
    if rs.len() == 0 {
        Seq::empty()
    } else {
        role_pairs(rs.drop_last()).push((RoleKey::Role(rs.last().id), rs.last().members))
    }
}

/// The full role map of a guild, as the unionizer consumes it.
pub open spec fn guild_pairs(g: crate::guild::GuildV) -> Seq<RolePairV> {
    seq![(RoleKey::Everyone, everyone(g)), (RoleKey::Here, here(g))] + role_pairs(g.roles)
}

/// Build the guild's full role map: `Everyone`, `Here`, then every role with
/// its members.
pub fn all_roles_and_members(g: &Guild) -> (r: Vec<(RoleKey, UserSet)>)
    requires
        g.wf(),
    ensures
        pairs_view(r@) == guild_pairs(g@),
        forall|i: int| 0 <= i < r@.len() ==> (#[trigger] r@[i]).1.wf(),
{
    let mut r: Vec<(RoleKey, UserSet)> = Vec::new();
    r.push((RoleKey::Everyone, g.everyone_members()));
    r.push((RoleKey::Here, g.here_members()));
    proof {
        lemma_pairs_view(r@);
        assert(pairs_view(r@) =~= seq![
            (RoleKey::Everyone, everyone(g@)),
            (RoleKey::Here, here(g@)),
        ]);
    }
    let ghost base = pairs_view(r@);
    let mut i: usize = 0;
    while i < g.roles.len()
        invariant
            0 <= i <= g.roles@.len(),
            g.wf(),
            base == seq![(RoleKey::Everyone, everyone(g@)), (RoleKey::Here, here(g@))],
            pairs_view(r@) == base + role_pairs(g@.roles.take(i as int)),
            forall|k: int| 0 <= k < r@.len() ==> (#[trigger] r@[k]).1.wf(),
        decreases g.roles@.len() - i,
    {
        let ghost prev_vec = r@;
        let ghost prev = pairs_view(r@);
        let key = RoleKey::Role(g.roles[i].id);
        let members = g.roles[i].members.duplicate();
        r.push((key, members));
        proof {
            let taken = g@.roles.take(i as int + 1);
            assert(taken.drop_last() =~= g@.roles.take(i as int));
            assert(taken.last() == g@.roles[i as int]);
            assert(r@.drop_last() =~= prev_vec);
            assert(pairs_view(r@) == pairs_view(prev_vec).push((r@.last().0, r@.last().1@)));
            assert(pairs_view(r@) == prev.push((key, members@)));
            assert(pairs_view(r@) =~= base + role_pairs(taken));
        }
        i += 1;
    }
    proof {
        assert(g@.roles.take(g@.roles.len() as int) == g@.roles);
    }
    r
}

} // verus!
