//! The resolver and interpreter: evaluate an expression tree against a guild
//! snapshot and the invoker's permissions, yielding a set of user identifiers
//! or a typed error. Evaluation short-circuits on the first error, left to
//! right.

use vstd::prelude::*;

use crate::ast::Expr;
use crate::ast::ExprV;
use crate::guild::everyone;
use crate::guild::has_member;
use crate::guild::here;
use crate::guild::members_tagged;
use crate::guild::roles_named;
use crate::guild::Guild;
use crate::guild::GuildV;
use crate::guild::Permissions;
use crate::guild::RoleV;
use crate::userset::UserSet;

verus! {

/// What kind of name collided in an ambiguous name lookup.
#[derive(Debug, Clone, Copy, PartialEq, Eq, Structural)]
pub enum NameKind {
    /// More than one member carries the tag.
    Member,
    /// More than one role carries the name.
    Role,
    /// Exactly one member and one role carry the name.
    Both,
}

/// A typed evaluation failure.
#[derive(Debug)]
pub enum EvalError {
    /// A bare numeric token matched neither a member nor a role.
    UnresolvedId(u64),
    /// A name matched neither a member tag nor a role name.
    UnresolvedName(Vec<char>),
    /// A bare numeric token matched both a member and a role.
    AmbiguousId(u64),
    /// A name matched several members, several roles, or one of each.
    AmbiguousName(NameKind, Vec<char>),
    /// The selected role is not mentionable and the invoker lacks the
    /// `mention_everyone` permission; carries the role's name.
    Unmentionable(Vec<char>),
    /// The invoker lacks the `mention_everyone` permission for the named
    /// reserved audience.
    PermissionDenied(Vec<char>),
}

/// The mathematical value of an [`EvalError`].
pub enum EvalErrorV {
    /// A bare numeric token matched neither a member nor a role.
    UnresolvedId(u64),
    /// A name matched neither a member tag nor a role name.
    UnresolvedName(Seq<char>),
    /// A bare numeric token matched both a member and a role.
    AmbiguousId(u64),
    /// A name matched several members, several roles, or one of each.
    AmbiguousName(NameKind, Seq<char>),
    /// The selected role is not mentionable and the invoker lacks permission.
    Unmentionable(Seq<char>),
    /// The invoker lacks the `mention_everyone` permission.
    PermissionDenied(Seq<char>),
}

impl View for EvalError {
    type V = EvalErrorV;

    open spec fn view(&self) -> EvalErrorV {
        match self {
            EvalError::UnresolvedId(n) => EvalErrorV::UnresolvedId(*n),
            EvalError::UnresolvedName(s) => EvalErrorV::UnresolvedName(s@),
            EvalError::AmbiguousId(n) => EvalErrorV::AmbiguousId(*n),
            EvalError::AmbiguousName(k, s) => EvalErrorV::AmbiguousName(*k, s@),
            EvalError::Unmentionable(s) => EvalErrorV::Unmentionable(s@),
            EvalError::PermissionDenied(s) => EvalErrorV::PermissionDenied(s@),
        }
    }
}

/// The role of `g` with identifier `rid`; meaningful when one exists.
pub open spec fn role_with_id(g: GuildV, rid: u64) -> RoleV {
    g.roles[choose|i: int| 0 <= i < g.roles.len() && (#[trigger] g.roles[i]).id == rid]
}

/// Whether some role of `g` has identifier `rid`.
pub open spec fn has_role(g: GuildV, rid: u64) -> bool {
    exists|i: int| 0 <= i < g.roles.len() && (#[trigger] g.roles[i]).id == rid
}

/// Expansion of a syntactic role mention: the guild's own identifier means
/// everyone; otherwise the role's members, with no permission gate (the
/// platform gates role mentions itself).
pub open spec fn eval_role_id(r: u64, g: GuildV) -> Result<Set<u64>, EvalErrorV> {
    if r == g.id {
        Ok(everyone(g))
    } else if has_role(g, r) {
        Ok(role_with_id(g, r).members)
    } else {
        Err(EvalErrorV::UnresolvedId(r))
    }
}

/// The reserved name `everyone`: gated on the `mention_everyone` permission.
pub open spec fn eval_everyone(g: GuildV, p: Permissions) -> Result<Set<u64>, EvalErrorV> {
    if p.mention_everyone {
        Ok(everyone(g))
    } else {
        Err(EvalErrorV::PermissionDenied("everyone"@))
    }
}

/// The reserved name `here`: gated on the `mention_everyone` permission.
pub open spec fn eval_here(g: GuildV, p: Permissions) -> Result<Set<u64>, EvalErrorV> {
    if p.mention_everyone {
        Ok(here(g))
    } else {
        Err(EvalErrorV::PermissionDenied("here"@))
    }
}

/// Disambiguation of a bare numeric token: the guild's identifier means the
/// reserved `everyone`; a member means that user; a role means that role,
/// gated on mentionability; both is ambiguous; neither is unresolved.
pub open spec fn eval_unknown_id(n: u64, g: GuildV, p: Permissions) -> Result<
    Set<u64>,
    EvalErrorV,
> {
    if n == g.id {
        eval_everyone(g, p)
    } else {
        let mem = has_member(g, n);
        let rol = has_role(g, n);
        if mem && rol {
            Err(EvalErrorV::AmbiguousId(n))
        } else if mem {
            Ok(Set::empty().insert(n))
        } else if rol {
            let role = role_with_id(g, n);
            if !role.mentionable && !p.mention_everyone {
                Err(EvalErrorV::Unmentionable(role.name))
            } else {
                Ok(role.members)
            }
        } else {
            Err(EvalErrorV::UnresolvedId(n))
        }
    }
}

/// Resolution of a name literal: the reserved names, then a case-insensitive
/// exact match against member tags and role names.
pub open spec fn eval_literal(s: Seq<char>, g: GuildV, p: Permissions) -> Result<
    Set<u64>,
    EvalErrorV,
> {
    if s == "everyone"@ {
        eval_everyone(g, p)
    } else if s == "here"@ {
        eval_here(g, p)
    } else {
        let ms = members_tagged(g.members, s);
        let rs = roles_named(g.roles, s);
        if ms.len() > 1 {
            Err(EvalErrorV::AmbiguousName(NameKind::Member, s))
        } else if rs.len() > 1 {
            Err(EvalErrorV::AmbiguousName(NameKind::Role, s))
        } else if ms.len() == 1 && rs.len() == 1 {
            Err(EvalErrorV::AmbiguousName(NameKind::Both, s))
        } else if ms.len() == 1 {
            Ok(Set::empty().insert(ms[0].id))
        } else if rs.len() == 1 {
            let role = rs[0];
            if !role.mentionable && !p.mention_everyone {
                Err(EvalErrorV::Unmentionable(role.name))
            } else {
                eval_role_id(role.id, g)
            }
        } else {
            Err(EvalErrorV::UnresolvedName(s))
        }
    }
}

/// Evaluation of an expression tree: set algebra over the leaves' audiences,
/// short-circuiting on the first error, left to right.
pub open spec fn eval_expr(e: ExprV, g: GuildV, p: Permissions) -> Result<Set<u64>, EvalErrorV>
    decreases e,
{
    match e {
        ExprV::Union(a, b) => match eval_expr(*a, g, p) {
            Ok(x) => match eval_expr(*b, g, p) {
                Ok(y) => Ok(x.union(y)),
                Err(er) => Err(er),
            },
            Err(er) => Err(er),
        },
        ExprV::Intersection(a, b) => match eval_expr(*a, g, p) {
            Ok(x) => match eval_expr(*b, g, p) {
                Ok(y) => Ok(x.intersect(y)),
                Err(er) => Err(er),
            },
            Err(er) => Err(er),
        },
        ExprV::Difference(a, b) => match eval_expr(*a, g, p) {
            Ok(x) => match eval_expr(*b, g, p) {
                Ok(y) => Ok(x.difference(y)),
                Err(er) => Err(er),
            },
            Err(er) => Err(er),
        },
        ExprV::UserId(u) => Ok(Set::empty().insert(u)),
        ExprV::RoleId(r) => eval_role_id(r, g),
        ExprV::UnknownId(n) => eval_unknown_id(n, g, p),
        ExprV::Literal(s) => eval_literal(s, g, p),
    }
}

/// Whether every syntactically typed user leaf of the expression refers to a
/// member of the guild. The platform's user-mention tokens satisfy this; a
/// hand-written mention of a stranger would not.
pub open spec fn user_leaves_in(e: ExprV, g: GuildV) -> bool
    decreases e,
{
    match e {
        ExprV::Union(a, b) => user_leaves_in(*a, g) && user_leaves_in(*b, g),
        ExprV::Intersection(a, b) => user_leaves_in(*a, g) && user_leaves_in(*b, g),
        ExprV::Difference(a, b) => user_leaves_in(*a, g) && user_leaves_in(*b, g),
        ExprV::UserId(u) => has_member(g, u),
        ExprV::RoleId(_) => true,
        ExprV::UnknownId(_) => true,
        ExprV::Literal(_) => true,
    }
}

/// Whatever a query evaluates to lies inside the guild: on a well-formed
/// snapshot, when every user leaf refers to a member, a successful evaluation
/// is a subset of `everyone`.
pub proof fn lemma_eval_subset_everyone(e: ExprV, g: GuildV, p: Permissions)
    requires
        g.wf(),
        user_leaves_in(e, g),
    ensures
        eval_expr(e, g, p) matches Ok(s) ==> s.subset_of(everyone(g)),
    decreases e,
{
    match e {
        ExprV::Union(a, b) => {
            lemma_eval_subset_everyone(*a, g, p);
            lemma_eval_subset_everyone(*b, g, p);
        },
        ExprV::Intersection(a, b) => {
            lemma_eval_subset_everyone(*a, g, p);
            lemma_eval_subset_everyone(*b, g, p);
        },
        ExprV::Difference(a, b) => {
            lemma_eval_subset_everyone(*a, g, p);
            lemma_eval_subset_everyone(*b, g, p);
        },
        ExprV::UserId(_) => {
        },
        ExprV::RoleId(r) => {
            lemma_role_members_in_everyone(r, g);
        },
        ExprV::UnknownId(n) => {
            if n != g.id && !has_member(g, n) && has_role(g, n) {
                lemma_role_members_in_everyone(n, g);
            }
        },
        ExprV::Literal(s) => {
            crate::guild::lemma_here_subset_everyone(g);
            if s != "everyone"@ && s != "here"@ {
                let ms = members_tagged(g.members, s);
                let rs = roles_named(g.roles, s);
                if ms.len() == 1 && rs.len() != 1 {
                    crate::guild::lemma_members_tagged_elems(g.members, s);
                    let j = choose|j: int|
                        0 <= j < g.members.len() && #[trigger] g.members[j] == ms[0];
                    assert(has_member(g, ms[0].id));
                } else if ms.len() <= 1 && rs.len() == 1 && (ms.len() != 1) {
                    crate::guild::lemma_roles_named_elems(g.roles, s);
                    let j = choose|j: int| 0 <= j < g.roles.len() && #[trigger] g.roles[j] == rs[0];
                    assert(has_role(g, rs[0].id) || rs[0].id == g.id) by {
                        if rs[0].id != g.id {
                            assert(g.roles[j].id == rs[0].id);
                        }
                    }
                    lemma_role_members_in_everyone(rs[0].id, g);
                }
            }
        },
    }
}

/// The expansion of a role identifier lies inside `everyone`.
proof fn lemma_role_members_in_everyone(r: u64, g: GuildV)
    requires
        g.wf(),
    ensures
        eval_role_id(r, g) matches Ok(s) ==> s.subset_of(everyone(g)),
{
    if r != g.id && has_role(g, r) {
        let i = choose|i: int| 0 <= i < g.roles.len() && (#[trigger] g.roles[i]).id == r;
        assert(g.roles[i].members.subset_of(everyone(g)));
    }
}

/// Two roles of a well-formed guild with the same identifier stand at the
/// same index.
proof fn lemma_role_index_unique(g: GuildV, i: int, j: int)
    requires
        g.wf(),
        0 <= i < g.roles.len(),
        0 <= j < g.roles.len(),
        g.roles[i].id == g.roles[j].id,
    ensures
        i == j,
{
}

/// Whether `s` is exactly the reserved name `everyone`.
fn is_everyone_name(s: &[char]) -> (r: bool)
    ensures
        r == (s@ == "everyone"@),
{
    proof {
        reveal_strlit("everyone");
    }
    if s.len() != 8 {
        return false;
    }
    let r = s[0] == 'e' && s[1] == 'v' && s[2] == 'e' && s[3] == 'r' && s[4] == 'y' && s[5] == 'o'
        && s[6] == 'n' && s[7] == 'e';
    proof {
        if r {
            assert(s@ =~= "everyone"@);
        }
    }
    r
}

/// Whether `s` is exactly the reserved name `here`.
fn is_here_name(s: &[char]) -> (r: bool)
    ensures
        r == (s@ == "here"@),
{
    proof {
        reveal_strlit("here");
    }
    if s.len() != 4 {
        return false;
    }
    let r = s[0] == 'h' && s[1] == 'e' && s[2] == 'r' && s[3] == 'e';
    proof {
        if r {
            assert(s@ =~= "here"@);
        }
    }
    r
}

/// Expand a syntactic role mention.
fn exec_role_id(r: u64, g: &Guild) -> (res: Result<UserSet, EvalError>)
    requires
        g.wf(),
    ensures
        match res {
            Ok(us) => us.wf() && eval_role_id(r, g@) == Result::<Set<u64>, EvalErrorV>::Ok(us@),
            Err(er) => eval_role_id(r, g@) == Result::<Set<u64>, EvalErrorV>::Err(er@),
        },
{
    if r == g.id {
        Ok(g.everyone_members())
    } else {
        match g.role_index(r) {
            Some(i) => {
                proof {
                    assert(has_role(g@, r));
                    let j = choose|j: int|
                        0 <= j < g@.roles.len() && (#[trigger] g@.roles[j]).id == r;
                    lemma_role_index_unique(g@, i as int, j);
                }
                Ok(g.roles[i].members.duplicate())
            },
            None => {
                proof {
                    assert(!has_role(g@, r));
                }
                Err(EvalError::UnresolvedId(r))
            },
        }
    }
}

/// Evaluate the reserved name `everyone`.
fn exec_everyone(g: &Guild, p: &Permissions) -> (res: Result<UserSet, EvalError>)
    requires
        g.wf(),
    ensures
        match res {
            Ok(us) => us.wf() && eval_everyone(g@, *p) == Result::<Set<u64>, EvalErrorV>::Ok(us@),
            Err(er) => eval_everyone(g@, *p) == Result::<Set<u64>, EvalErrorV>::Err(er@),
        },
{
    if p.mention_everyone {
        Ok(g.everyone_members())
    } else {
        let name = crate::chars::chars_of("everyone");
        Err(EvalError::PermissionDenied(name))
    }
}

/// Evaluate the reserved name `here`.
fn exec_here(g: &Guild, p: &Permissions) -> (res: Result<UserSet, EvalError>)
    requires
        g.wf(),
    ensures
        match res {
            Ok(us) => us.wf() && eval_here(g@, *p) == Result::<Set<u64>, EvalErrorV>::Ok(us@),
            Err(er) => eval_here(g@, *p) == Result::<Set<u64>, EvalErrorV>::Err(er@),
        },
{
    if p.mention_everyone {
        Ok(g.here_members())
    } else {
        let name = crate::chars::chars_of("here");
        Err(EvalError::PermissionDenied(name))
    }
}

/// Disambiguate and evaluate a bare numeric token.
fn exec_unknown_id(n: u64, g: &Guild, p: &Permissions) -> (res: Result<UserSet, EvalError>)
    requires
        g.wf(),
    ensures
        match res {
            Ok(us) => us.wf() && eval_unknown_id(n, g@, *p) == Result::<Set<u64>, EvalErrorV>::Ok(
                us@,
            ),
            Err(er) => eval_unknown_id(n, g@, *p) == Result::<Set<u64>, EvalErrorV>::Err(er@),
        },
{
    if n == g.id {
        return exec_everyone(g, p);
    }
    let mem = g.member_index(n);
    let rol = g.role_index(n);
    proof {
        if mem is Some {
            let i = mem->0;
            assert(g@.members[i as int].id == n);
            assert(has_member(g@, n));
        } else {
            assert(!has_member(g@, n)) by {
                if has_member(g@, n) {
                    let k = choose|k: int|
                        0 <= k < g@.members.len() && (#[trigger] g@.members[k]).id == n;
                }
            }
        }
        if rol is Some {
            assert(has_role(g@, n));
        } else {
            assert(!has_role(g@, n)) by {
                if has_role(g@, n) {
                    let k = choose|k: int|
                        0 <= k < g@.roles.len() && (#[trigger] g@.roles[k]).id == n;
                }
            }
        }
    }
    match (mem, rol) {
        (Some(_), Some(_)) => Err(EvalError::AmbiguousId(n)),
        (Some(_), None) => Ok(UserSet::singleton(n)),
        (None, Some(i)) => {
            proof {
                let j = choose|j: int| 0 <= j < g@.roles.len() && (#[trigger] g@.roles[j]).id == n;
                lemma_role_index_unique(g@, i as int, j);
            }
            if !g.roles[i].mentionable && !p.mention_everyone {
                Err(EvalError::Unmentionable(crate::chars::copy_chars(g.roles[i].name.as_slice())))
            } else {
                Ok(g.roles[i].members.duplicate())
            }
        },
        (None, None) => Err(EvalError::UnresolvedId(n)),
    }
}

/// Resolve and evaluate a name literal.
fn exec_literal(s: &Vec<char>, g: &Guild, p: &Permissions) -> (res: Result<UserSet, EvalError>)
    requires
        g.wf(),
    ensures
        match res {
            Ok(us) => us.wf() && eval_literal(s@, g@, *p) == Result::<Set<u64>, EvalErrorV>::Ok(
                us@,
            ),
            Err(er) => eval_literal(s@, g@, *p) == Result::<Set<u64>, EvalErrorV>::Err(er@),
        },
{
    if is_everyone_name(s.as_slice()) {
        return exec_everyone(g, p);
    }
    if is_here_name(s.as_slice()) {
        return exec_here(g, p);
    }
    let ms = g.members_matching(s.as_slice());
    let rs = g.roles_matching(s.as_slice());
    if ms.len() > 1 {
        Err(EvalError::AmbiguousName(NameKind::Member, crate::chars::copy_chars(s.as_slice())))
    } else if rs.len() > 1 {
        Err(EvalError::AmbiguousName(NameKind::Role, crate::chars::copy_chars(s.as_slice())))
    } else if ms.len() == 1 && rs.len() == 1 {
        Err(EvalError::AmbiguousName(NameKind::Both, crate::chars::copy_chars(s.as_slice())))
    } else if ms.len() == 1 {
        let idx = ms[0];
        proof {
            assert(g@.members[idx as int] == members_tagged(g@.members, s@)[0]);
        }
        Ok(UserSet::singleton(g.members[idx].id))
    } else if rs.len() == 1 {
        let idx = rs[0];
        proof {
            assert(g@.roles[idx as int] == roles_named(g@.roles, s@)[0]);
        }
        if !g.roles[idx].mentionable && !p.mention_everyone {
            Err(EvalError::Unmentionable(crate::chars::copy_chars(g.roles[idx].name.as_slice())))
        } else {
            exec_role_id(g.roles[idx].id, g)
        }
    } else {
        Err(EvalError::UnresolvedName(crate::chars::copy_chars(s.as_slice())))
    }
}

/// Evaluate an expression tree against a guild snapshot and the invoker's
/// permissions: the audience to mention, or the first error, left to right.
pub fn interpret(e: &Expr, g: &Guild, p: &Permissions) -> (res: Result<UserSet, EvalError>)
    requires
        g.wf(),
    ensures
        match res {
            Ok(us) => us.wf() && eval_expr(e@, g@, *p) == Result::<Set<u64>, EvalErrorV>::Ok(us@),
            Err(er) => eval_expr(e@, g@, *p) == Result::<Set<u64>, EvalErrorV>::Err(er@),
        },
    decreases e,
{
    match e {
        Expr::Union(a, b) => {
            let x = interpret(a, g, p)?;
            let y = interpret(b, g, p)?;
            Ok(x.union(&y))
        },
        Expr::Intersection(a, b) => {
            let x = interpret(a, g, p)?;
            let y = interpret(b, g, p)?;
            Ok(x.intersect(&y))
        },
        Expr::Difference(a, b) => {
            let x = interpret(a, g, p)?;
            let y = interpret(b, g, p)?;
            Ok(x.difference(&y))
        },
        Expr::UserId(u) => Ok(UserSet::singleton(*u)),
        Expr::RoleId(r) => exec_role_id(*r, g),
        Expr::UnknownId(n) => exec_unknown_id(*n, g, p),
        Expr::Literal(s) => exec_literal(s, g, p),
    }
}

} // verus!
