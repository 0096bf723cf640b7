//! A read-only view of a guild: members, roles, presences, and the invoking
//! member's permissions. The evaluator and the mention minimizer work against
//! this snapshot; the platform client fills it in.

use vstd::prelude::*;

use crate::chars::lower_seq;
use crate::chars::seq_ci_eq;
use crate::userset::UserSet;

verus! {

/// A guild member: an identifier, the platform tag (`Name#discrim`), and
/// whether the member's presence is currently not offline.
pub struct Member {
    /// The member's unique identifier.
    pub id: u64,
    /// The member's tag, `Name#discrim`.
    pub tag: Vec<char>,
    /// Whether the member's presence status is not offline.
    pub online: bool,
}

/// The mathematical value of a [`Member`].
pub struct MemberV {
    /// The member's unique identifier.
    pub id: u64,
    /// The member's tag.
    pub tag: Seq<char>,
    /// Whether the member is online.
    pub online: bool,
}

impl View for Member {
    type V = MemberV;

    open spec fn view(&self) -> MemberV {
        MemberV { id: self.id, tag: self.tag@, online: self.online }
    }
}

/// A guild role: an identifier, a name, whether everyone may mention it, and
/// the set of members that hold it.
pub struct Role {
    /// The role's unique identifier.
    pub id: u64,
    /// The role's display name.
    pub name: Vec<char>,
    /// Whether the role may be mentioned without elevated permission.
    pub mentionable: bool,
    /// The members holding this role.
    pub members: UserSet,
}

/// The mathematical value of a [`Role`].
pub struct RoleV {
    /// The role's unique identifier.
    pub id: u64,
    /// The role's display name.
    pub name: Seq<char>,
    /// Whether the role may be mentioned without elevated permission.
    pub mentionable: bool,
    /// The identifiers of the members holding this role.
    pub members: Set<u64>,
}

impl View for Role {
    type V = RoleV;

    open spec fn view(&self) -> RoleV {
        RoleV { id: self.id, name: self.name@, mentionable: self.mentionable, members: self.members@ }
    }
}

/// The permission bits of the invoking member that evaluation consults.
#[derive(Clone, Copy)]
pub struct Permissions {
    /// Whether the invoker may mention `everyone`, `here`, and unmentionable
    /// roles.
    pub mention_everyone: bool,
    /// Whether the invoker manages the guild.
    pub manage_guild: bool,
}

/// A read-only snapshot of a guild.
pub struct Guild {
    /// The guild's unique identifier.
    pub id: u64,
    /// All members of the guild.
    pub members: Vec<Member>,
    /// All roles of the guild.
    pub roles: Vec<Role>,
}

/// The mathematical value of a [`Guild`].
pub struct GuildV {
    /// The guild's unique identifier.
    pub id: u64,
    /// All members of the guild.
    pub members: Seq<MemberV>,
    /// All roles of the guild.
    pub roles: Seq<RoleV>,
}

impl View for Guild {
    type V = GuildV;

    open spec fn view(&self) -> GuildV {
        GuildV {
            id: self.id,
            members: self.members@.map_values(|m: Member| m@),
            roles: self.roles@.map_values(|r: Role| r@),
        }
    }
}

/// Whether `u` is a member of the guild.
pub open spec fn has_member(g: GuildV, u: u64) -> bool {
    exists|i: int| 0 <= i < g.members.len() && (#[trigger] g.members[i]).id == u
}

/// Whether `u` is a member of the guild whose presence is not offline.
pub open spec fn has_online_member(g: GuildV, u: u64) -> bool {
    exists|i: int|
        0 <= i < g.members.len() && (#[trigger] g.members[i]).id == u && g.members[i].online
}

/// The set of all member identifiers.
pub open spec fn everyone(g: GuildV) -> Set<u64> {
    Set::new(|u: u64| has_member(g, u))
}

/// The set of member identifiers whose presence is not offline.
pub open spec fn here(g: GuildV) -> Set<u64> {
    Set::new(|u: u64| has_online_member(g, u))
}

/// Whether a role's name equals `s` up to ASCII case.
pub open spec fn role_named(r: RoleV, s: Seq<char>) -> bool {
    lower_seq(r.name) == lower_seq(s)
}

/// Whether a member's tag equals `s` up to ASCII case.
pub open spec fn member_tagged(m: MemberV, s: Seq<char>) -> bool {
    lower_seq(m.tag) == lower_seq(s)
}

/// The subsequence of `rs` whose names equal `s` up to ASCII case.
pub open spec fn roles_named(rs: Seq<RoleV>, s: Seq<char>) -> Seq<RoleV>
    decreases rs.len(),
{
    if rs.len() == 0 {
        Seq::empty()
    } else {
        let rest = roles_named(rs.drop_last(), s);
        if role_named(rs.last(), s) {
            rest.push(rs.last())
        } else {
            rest
        }
    }
}

/// The subsequence of `ms` whose tags equal `s` up to ASCII case.
pub open spec fn members_tagged(ms: Seq<MemberV>, s: Seq<char>) -> Seq<MemberV>
    decreases ms.len(),
{
    if ms.len() == 0 {
        Seq::empty()
    } else {
        let rest = members_tagged(ms.drop_last(), s);
        if member_tagged(ms.last(), s) {
            rest.push(ms.last())
        } else {
            rest
        }
    }
}

impl GuildV {
    /// Well-formedness of the snapshot: identifiers are unique and every
    /// role's members are members of the guild.
    pub open spec fn wf(self) -> bool {
        &&& forall|i: int, j: int|
            0 <= i < j < self.members.len() ==> (#[trigger] self.members[i]).id != (
            #[trigger] self.members[j]).id
        &&& forall|i: int, j: int|
            0 <= i < j < self.roles.len() ==> (#[trigger] self.roles[i]).id != (
            #[trigger] self.roles[j]).id
        &&& forall|i: int|
            0 <= i < self.roles.len() ==> (#[trigger] self.roles[i]).members.subset_of(
                everyone(self),
            )
    }
}

impl Guild {
    /// Well-formedness: the snapshot's value is well formed and every role's
    /// member set representation is well formed.
    pub open spec fn wf(&self) -> bool {
        &&& self@.wf()
        &&& forall|i: int| 0 <= i < self.roles@.len() ==> (#[trigger] self.roles@[i]).members.wf()
    }

    /// Executable well-formedness check for a snapshot a collaborator filled
    /// in: unique member and role identifiers, well-formed role member sets,
    /// and every role's members drawn from the guild.
    pub fn check_wf(&self) -> (r: bool)
        ensures
            r == self.wf(),
    {
        // Member identifiers are unique.
        let mut i: usize = 0;
        while i < self.members.len()
            invariant
                0 <= i <= self.members@.len(),
                forall|p: int, q: int|
                    0 <= p < q < self@.members.len() && p < i ==> (
                    #[trigger] self@.members[p]).id != (#[trigger] self@.members[q]).id,
            decreases self.members@.len() - i,
        {
            let mut j: usize = i + 1;
            while j < self.members.len()
                invariant
                    0 <= i < self.members@.len(),
                    i < j <= self.members@.len(),
                    forall|q: int|
                        i < q < j ==> (#[trigger] self@.members[q]).id != self@.members[i as int].id,
                decreases self.members@.len() - j,
            {
                if self.members[j].id == self.members[i].id {
                    proof {
                        assert((self@.members[i as int]).id == (self@.members[j as int]).id);
                        assert(!self@.wf());
                    }
                    return false;
                }
                j += 1;
            }
            i += 1;
        }
        // Role identifiers are unique.
        let mut i2: usize = 0;
        while i2 < self.roles.len()
            invariant
                0 <= i2 <= self.roles@.len(),
                forall|p: int, q: int|
                    0 <= p < q < self@.roles.len() && p < i2 ==> (#[trigger] self@.roles[p]).id
                        != (#[trigger] self@.roles[q]).id,
            decreases self.roles@.len() - i2,
        {
            let mut j2: usize = i2 + 1;
            while j2 < self.roles.len()
                invariant
                    0 <= i2 < self.roles@.len(),
                    i2 < j2 <= self.roles@.len(),
                    forall|q: int|
                        i2 < q < j2 ==> (#[trigger] self@.roles[q]).id != self@.roles[i2 as int].id,
                decreases self.roles@.len() - j2,
            {
                if self.roles[j2].id == self.roles[i2].id {
                    proof {
                        assert((self@.roles[i2 as int]).id == (self@.roles[j2 as int]).id);
                        assert(!self@.wf());
                    }
                    return false;
                }
                j2 += 1;
            }
            i2 += 1;
        }
        // Each role's member set is well formed and lies inside the guild.
        let everyone_set = self.everyone_members();
        let mut k: usize = 0;
        while k < self.roles.len()
            invariant
                0 <= k <= self.roles@.len(),
                everyone_set@ == everyone(self@),
                forall|p: int| 0 <= p < k ==> (#[trigger] self.roles@[p]).members.wf(),
                forall|p: int|
                    0 <= p < k ==> (#[trigger] self@.roles[p]).members.subset_of(everyone(self@)),
            decreases self.roles@.len() - k,
        {
            if !self.roles[k].members.check_wf() {
                proof {
                    assert(!(self.roles@[k as int]).members.wf());
                }
                return false;
            }
            if !self.roles[k].members.is_subset_of(&everyone_set) {
                proof {
                    assert(!(self@.roles[k as int]).members.subset_of(everyone(self@)));
                    assert(!self@.wf());
                }
                return false;
            }
            k += 1;
        }
        true
    }

    /// All members, as a set of identifiers.
    pub fn everyone_members(&self) -> (r: UserSet)
        ensures
            r.wf(),
            r@ == everyone(self@),
    {
        let mut r = UserSet::new();
        let mut i: usize = 0;
        while i < self.members.len()
            invariant
                0 <= i <= self.members@.len(),
                r.wf(),
                forall|u: u64|
                    r@.contains(u) <==> exists|k: int|
                        0 <= k < i && (#[trigger] self.members@[k]).id == u,
            decreases self.members@.len() - i,
        {
            r.insert(self.members[i].id);
            i += 1;
        }
        proof {
            assert forall|u: u64| r@.contains(u) <==> everyone(self@).contains(u) by {
                if r@.contains(u) {
                    let k = choose|k: int| 0 <= k < i && (#[trigger] self.members@[k]).id == u;
                    assert(self@.members[k].id == u);
                }
                if everyone(self@).contains(u) {
                    let k = choose|k: int|
                        0 <= k < self@.members.len() && (#[trigger] self@.members[k]).id == u;
                    assert(self.members@[k].id == u);
                }
            }
            assert(r@ =~= everyone(self@));
        }
        r
    }

    /// The members whose presence is not offline, as a set of identifiers.
    pub fn here_members(&self) -> (r: UserSet)
        ensures
            r.wf(),
            r@ == here(self@),
    {
        let mut r = UserSet::new();
        let mut i: usize = 0;
        while i < self.members.len()
            invariant
                0 <= i <= self.members@.len(),
                r.wf(),
                forall|u: u64|
                    r@.contains(u) <==> exists|k: int|
                        0 <= k < i && (#[trigger] self.members@[k]).id == u
                            && self.members@[k].online,
            decreases self.members@.len() - i,
        {
            if self.members[i].online {
                r.insert(self.members[i].id);
            }
            i += 1;
        }
        proof {
            assert forall|u: u64| r@.contains(u) <==> here(self@).contains(u) by {
                if r@.contains(u) {
                    let k = choose|k: int|
                        0 <= k < i && (#[trigger] self.members@[k]).id == u
                            && self.members@[k].online;
                    assert(self@.members[k].id == u && self@.members[k].online);
                }
                if here(self@).contains(u) {
                    let k = choose|k: int|
                        0 <= k < self@.members.len() && (#[trigger] self@.members[k]).id == u
                            && self@.members[k].online;
                    assert(self.members@[k].id == u && self.members@[k].online);
                }
            }
            assert(r@ =~= here(self@));
        }
        r
    }

    /// The index of the role with identifier `rid`, if any.
    pub fn role_index(&self, rid: u64) -> (r: Option<usize>)
        ensures
            match r {
                Some(i) => i < self.roles@.len() && self@.roles[i as int].id == rid,
                None => forall|i: int|
                    0 <= i < self@.roles.len() ==> (#[trigger] self@.roles[i]).id != rid,
            },
    {
        let mut i: usize = 0;
        while i < self.roles.len()
            invariant
                0 <= i <= self.roles@.len(),
                forall|k: int| 0 <= k < i ==> (#[trigger] self@.roles[k]).id != rid,
            decreases self.roles@.len() - i,
        {
            if self.roles[i].id == rid {
                return Some(i);
            }
            i += 1;
        }
        None
    }

    /// The index of the member with identifier `uid`, if any.
    pub fn member_index(&self, uid: u64) -> (r: Option<usize>)
        ensures
            match r {
                Some(i) => i < self.members@.len() && self@.members[i as int].id == uid,
                None => forall|i: int|
                    0 <= i < self@.members.len() ==> (#[trigger] self@.members[i]).id != uid,
            },
    {
        let mut i: usize = 0;
        while i < self.members.len()
            invariant
                0 <= i <= self.members@.len(),
                forall|k: int| 0 <= k < i ==> (#[trigger] self@.members[k]).id != uid,
            decreases self.members@.len() - i,
        {
            if self.members[i].id == uid {
                return Some(i);
            }
            i += 1;
        }
        None
    }

    /// The indices of the roles whose name equals `name` up to ASCII case, in
    /// guild order.
    pub fn roles_matching(&self, name: &[char]) -> (r: Vec<usize>)
        ensures
            r@.len() == roles_named(self@.roles, name@).len(),
            forall|k: int|
                0 <= k < r@.len() ==> #[trigger] r@[k] < self.roles@.len() && self@.roles[r@[k] as int]
                    == roles_named(self@.roles, name@)[k],
    {
        let mut r: Vec<usize> = Vec::new();
        let mut i: usize = 0;
        while i < self.roles.len()
            invariant
                0 <= i <= self.roles@.len(),
                r@.len() == roles_named(self@.roles.take(i as int), name@).len(),
                forall|k: int|
                    0 <= k < r@.len() ==> #[trigger] r@[k] < i && self@.roles[r@[k] as int]
                        == roles_named(self@.roles.take(i as int), name@)[k],
            decreases self.roles@.len() - i,
        {
            let ghost prev = r@;
            let ghost prefix = self@.roles.take(i as int);
            let ghost taken = self@.roles.take(i as int + 1);
            if seq_ci_eq(self.roles[i].name.as_slice(), name) {
                r.push(i);
            }
            proof {
                assert(taken.drop_last() =~= prefix);
                assert(taken.last() == self@.roles[i as int]);
                assert(roles_named(taken, name@) == if role_named(self@.roles[i as int], name@) {
                    roles_named(prefix, name@).push(self@.roles[i as int])
                } else {
                    roles_named(prefix, name@)
                });
            }
            i += 1;
        }
        proof {
            assert(self@.roles.take(self@.roles.len() as int) == self@.roles);
        }
        r
    }

    /// The indices of the members whose tag equals `tag` up to ASCII case, in
    /// guild order.
    pub fn members_matching(&self, tag: &[char]) -> (r: Vec<usize>)
        ensures
            r@.len() == members_tagged(self@.members, tag@).len(),
            forall|k: int|
                0 <= k < r@.len() ==> #[trigger] r@[k] < self.members@.len()
                    && self@.members[r@[k] as int] == members_tagged(self@.members, tag@)[k],
    {
        let mut r: Vec<usize> = Vec::new();
        let mut i: usize = 0;
        while i < self.members.len()
            invariant
                0 <= i <= self.members@.len(),
                r@.len() == members_tagged(self@.members.take(i as int), tag@).len(),
                forall|k: int|
                    0 <= k < r@.len() ==> #[trigger] r@[k] < i && self@.members[r@[k] as int]
                        == members_tagged(self@.members.take(i as int), tag@)[k],
            decreases self.members@.len() - i,
        {
            let ghost prev = r@;
            let ghost prefix = self@.members.take(i as int);
            let ghost taken = self@.members.take(i as int + 1);
            if seq_ci_eq(self.members[i].tag.as_slice(), tag) {
                r.push(i);
            }
            proof {
                assert(taken.drop_last() =~= prefix);
                assert(taken.last() == self@.members[i as int]);
                assert(members_tagged(taken, tag@) == if member_tagged(
                    self@.members[i as int],
                    tag@,
                ) {
                    members_tagged(prefix, tag@).push(self@.members[i as int])
                } else {
                    members_tagged(prefix, tag@)
                });
            }
            i += 1;
        }
        proof {
            assert(self@.members.take(self@.members.len() as int) == self@.members);
        }
        r
    }
}

/// Every element of [`members_tagged`] comes from the member list.
pub proof fn lemma_members_tagged_elems(ms: Seq<MemberV>, s: Seq<char>)
    ensures
        forall|k: int|
            #![trigger members_tagged(ms, s)[k]]
            0 <= k < members_tagged(ms, s).len() ==> exists|j: int|
                0 <= j < ms.len() && #[trigger] ms[j] == members_tagged(ms, s)[k],
    decreases ms.len(),
{
    if ms.len() > 0 {
        lemma_members_tagged_elems(ms.drop_last(), s);
        let rest = members_tagged(ms.drop_last(), s);
        assert forall|k: int|
            #![trigger members_tagged(ms, s)[k]]
            0 <= k < members_tagged(ms, s).len() implies exists|j: int|
            0 <= j < ms.len() && #[trigger] ms[j] == members_tagged(ms, s)[k] by {
            if k < rest.len() {
                let j = choose|j: int|
                    0 <= j < ms.drop_last().len() && #[trigger] ms.drop_last()[j] == rest[k];
                assert(ms[j] == members_tagged(ms, s)[k]);
            } else {
                assert(ms[ms.len() - 1] == members_tagged(ms, s)[k]);
            }
        }
    }
}

/// Every element of [`roles_named`] comes from the role list.
pub proof fn lemma_roles_named_elems(rs: Seq<RoleV>, s: Seq<char>)
    ensures
        forall|k: int|
            #![trigger roles_named(rs, s)[k]]
            0 <= k < roles_named(rs, s).len() ==> exists|j: int|
                0 <= j < rs.len() && #[trigger] rs[j] == roles_named(rs, s)[k],
    decreases rs.len(),
{
    if rs.len() > 0 {
        lemma_roles_named_elems(rs.drop_last(), s);
        let rest = roles_named(rs.drop_last(), s);
        assert forall|k: int|
            #![trigger roles_named(rs, s)[k]]
            0 <= k < roles_named(rs, s).len() implies exists|j: int|
            0 <= j < rs.len() && #[trigger] rs[j] == roles_named(rs, s)[k] by {
            if k < rest.len() {
                let j = choose|j: int|
                    0 <= j < rs.drop_last().len() && #[trigger] rs.drop_last()[j] == rest[k];
                assert(rs[j] == roles_named(rs, s)[k]);
            } else {
                assert(rs[rs.len() - 1] == roles_named(rs, s)[k]);
            }
        }
    }
}

/// Online members are members: `here` is a subset of `everyone`.
pub proof fn lemma_here_subset_everyone(g: GuildV)
    ensures
        here(g).subset_of(everyone(g)),
{
    assert forall|u: u64| here(g).contains(u) implies everyone(g).contains(u) by {
        let i = choose|i: int|
            0 <= i < g.members.len() && (#[trigger] g.members[i]).id == u && g.members[i].online;
        assert(g.members[i].id == u);
    }
}

} // verus!
