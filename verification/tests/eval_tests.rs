use intersection::ast::Expr;
use intersection::guild::Guild;
use intersection::guild::Member;
use intersection::guild::Permissions;
use intersection::guild::Role;
use intersection::interpreter::interpret;
use intersection::interpreter::EvalError;
use intersection::interpreter::NameKind;
use intersection::userset::UserSet;

fn chars(s: &str) -> Vec<char> {
    s.chars().collect()
}

fn member(id: u64, tag: &str, online: bool) -> Member {
    Member { id, tag: chars(tag), online }
}

fn role(id: u64, name: &str, mentionable: bool, members: Vec<u64>) -> Role {
    Role { id, name: chars(name), mentionable, members: UserSet::from_vec(&members) }
}

/// Guild 9000: members 1..=5, members 1 and 2 online; roles 100 = {1,2,3},
/// 200 = {2,3,4}, 300 = {2,3}; role 400 "QA" = {5} is not mentionable.
fn demo_guild() -> Guild {
    Guild {
        id: 9000,
        members: vec![
            member(1, "Alice#0001", true),
            member(2, "Bob#0002", true),
            member(3, "Carol#0003", false),
            member(4, "Dave#0004", false),
            member(5, "Erin#0005", false),
        ],
        roles: vec![
            role(100, "red", true, vec![1, 2, 3]),
            role(200, "blue", true, vec![2, 3, 4]),
            role(300, "core", true, vec![2, 3]),
            role(400, "QA", false, vec![5]),
        ],
    }
}

fn all_perms() -> Permissions {
    Permissions { mention_everyone: true, manage_guild: true }
}

fn no_perms() -> Permissions {
    Permissions { mention_everyone: false, manage_guild: false }
}

fn ids(r: Result<UserSet, EvalError>) -> Vec<u64> {
    r.expect("expected evaluation to succeed").to_vec()
}

#[test]
fn eval_role_id_expands_members() {
    let g = demo_guild();
    assert_eq!(ids(interpret(&Expr::RoleId(100), &g, &no_perms())), vec![1, 2, 3]);
}

#[test]
fn eval_role_id_of_guild_is_everyone() {
    let g = demo_guild();
    assert_eq!(ids(interpret(&Expr::RoleId(9000), &g, &no_perms())), vec![1, 2, 3, 4, 5]);
}

#[test]
fn eval_user_id_has_no_existence_check() {
    let g = demo_guild();
    assert_eq!(ids(interpret(&Expr::UserId(777), &g, &no_perms())), vec![777]);
}

#[test]
fn eval_intersection_of_roles() {
    let g = demo_guild();
    let e = Expr::Intersection(Box::new(Expr::RoleId(100)), Box::new(Expr::RoleId(200)));
    assert_eq!(ids(interpret(&e, &g, &no_perms())), vec![2, 3]);
}

#[test]
fn eval_union_of_roles() {
    let g = demo_guild();
    let e = Expr::Union(Box::new(Expr::RoleId(100)), Box::new(Expr::RoleId(200)));
    assert_eq!(ids(interpret(&e, &g, &no_perms())), vec![1, 2, 3, 4]);
}

#[test]
fn eval_difference_of_roles() {
    let g = demo_guild();
    let e = Expr::Difference(Box::new(Expr::RoleId(100)), Box::new(Expr::RoleId(200)));
    assert_eq!(ids(interpret(&e, &g, &no_perms())), vec![1]);
}

#[test]
fn eval_literal_everyone_with_permission() {
    let g = demo_guild();
    let e = Expr::Literal(chars("everyone"));
    assert_eq!(ids(interpret(&e, &g, &all_perms())), vec![1, 2, 3, 4, 5]);
}

#[test]
fn eval_literal_everyone_denied_without_permission() {
    let g = demo_guild();
    let e = Expr::Literal(chars("everyone"));
    match interpret(&e, &g, &no_perms()) {
        Err(EvalError::PermissionDenied(ctx)) => {
            let s: String = ctx.into_iter().collect();
            assert_eq!(s, "everyone");
        },
        other => panic!("expected PermissionDenied, got {:?}", other.is_ok()),
    }
}

#[test]
fn eval_literal_here_is_online_members() {
    let g = demo_guild();
    let e = Expr::Literal(chars("here"));
    assert_eq!(ids(interpret(&e, &g, &all_perms())), vec![1, 2]);
}

#[test]
fn eval_unknown_id_member() {
    let g = demo_guild();
    assert_eq!(ids(interpret(&Expr::UnknownId(3), &g, &no_perms())), vec![3]);
}

#[test]
fn eval_unknown_id_role() {
    let g = demo_guild();
    assert_eq!(ids(interpret(&Expr::UnknownId(200), &g, &no_perms())), vec![2, 3, 4]);
}

#[test]
fn eval_unknown_id_guild_means_everyone() {
    let g = demo_guild();
    assert_eq!(ids(interpret(&Expr::UnknownId(9000), &g, &all_perms())), vec![1, 2, 3, 4, 5]);
}

#[test]
fn eval_unknown_id_unresolved() {
    let g = demo_guild();
    match interpret(&Expr::UnknownId(31337), &g, &no_perms()) {
        Err(EvalError::UnresolvedId(n)) => assert_eq!(n, 31337),
        other => panic!("expected UnresolvedId, got {:?}", other.is_ok()),
    }
}

#[test]
fn eval_unknown_id_ambiguous() {
    // A guild where one identifier is both a member and a role.
    let g = Guild {
        id: 9000,
        members: vec![member(50, "Twin#0001", true)],
        roles: vec![role(50, "twin", true, vec![50])],
    };
    match interpret(&Expr::UnknownId(50), &g, &no_perms()) {
        Err(EvalError::AmbiguousId(n)) => assert_eq!(n, 50),
        other => panic!("expected AmbiguousId, got {:?}", other.is_ok()),
    }
}

#[test]
fn eval_unknown_id_unmentionable_role() {
    let g = demo_guild();
    match interpret(&Expr::UnknownId(400), &g, &no_perms()) {
        Err(EvalError::Unmentionable(name)) => {
            let s: String = name.into_iter().collect();
            assert_eq!(s, "QA");
        },
        other => panic!("expected Unmentionable, got {:?}", other.is_ok()),
    }
}

#[test]
fn eval_literal_role_name() {
    let g = demo_guild();
    assert_eq!(ids(interpret(&Expr::Literal(chars("core")), &g, &no_perms())), vec![2, 3]);
}

#[test]
fn eval_literal_member_tag() {
    let g = demo_guild();
    assert_eq!(ids(interpret(&Expr::Literal(chars("Alice#0001")), &g, &no_perms())), vec![1]);
}

#[test]
fn eval_literal_case_insensitive() {
    let g = demo_guild();
    assert_eq!(ids(interpret(&Expr::Literal(chars("CORE")), &g, &no_perms())), vec![2, 3]);
    assert_eq!(ids(interpret(&Expr::Literal(chars("alice#0001")), &g, &no_perms())), vec![1]);
}

#[test]
fn eval_literal_unmentionable_role() {
    let g = demo_guild();
    match interpret(&Expr::Literal(chars("QA")), &g, &no_perms()) {
        Err(EvalError::Unmentionable(name)) => {
            let s: String = name.into_iter().collect();
            assert_eq!(s, "QA");
        },
        other => panic!("expected Unmentionable, got {:?}", other.is_ok()),
    }
}

#[test]
fn eval_literal_unmentionable_allowed_with_permission() {
    let g = demo_guild();
    assert_eq!(ids(interpret(&Expr::Literal(chars("QA")), &g, &all_perms())), vec![5]);
}

#[test]
fn eval_literal_unresolved_name() {
    let g = demo_guild();
    match interpret(&Expr::Literal(chars("NotARole")), &g, &no_perms()) {
        Err(EvalError::UnresolvedName(name)) => {
            let s: String = name.into_iter().collect();
            assert_eq!(s, "NotARole");
        },
        other => panic!("expected UnresolvedName, got {:?}", other.is_ok()),
    }
}

#[test]
fn eval_literal_ambiguous_members() {
    let g = Guild {
        id: 9000,
        members: vec![member(1, "Same#0001", true), member(2, "same#0001", false)],
        roles: vec![],
    };
    match interpret(&Expr::Literal(chars("Same#0001")), &g, &no_perms()) {
        Err(EvalError::AmbiguousName(NameKind::Member, _)) => {},
        other => panic!("expected an ambiguous member name, got {:?}", other.is_ok()),
    }
}

#[test]
fn eval_literal_ambiguous_roles() {
    let g = Guild {
        id: 9000,
        members: vec![member(1, "A#0001", true)],
        roles: vec![role(10, "ops", true, vec![1]), role(11, "OPS", true, vec![1])],
    };
    match interpret(&Expr::Literal(chars("ops")), &g, &no_perms()) {
        Err(EvalError::AmbiguousName(NameKind::Role, _)) => {},
        other => panic!("expected an ambiguous role name, got {:?}", other.is_ok()),
    }
}

#[test]
fn eval_literal_ambiguous_both() {
    let g = Guild {
        id: 9000,
        members: vec![member(1, "ops", true)],
        roles: vec![role(10, "ops", true, vec![1])],
    };
    match interpret(&Expr::Literal(chars("ops")), &g, &no_perms()) {
        Err(EvalError::AmbiguousName(NameKind::Both, _)) => {},
        other => panic!("expected a member and role collision, got {:?}", other.is_ok()),
    }
}

#[test]
fn eval_error_short_circuits_left_first() {
    let g = demo_guild();
    let e = Expr::Union(Box::new(Expr::UnknownId(111)), Box::new(Expr::UnknownId(222)));
    match interpret(&e, &g, &no_perms()) {
        Err(EvalError::UnresolvedId(n)) => assert_eq!(n, 111),
        other => panic!("expected UnresolvedId, got {:?}", other.is_ok()),
    }
}

#[test]
fn eval_result_within_everyone() {
    // With member-backed leaves, the audience stays inside the guild.
    let g = demo_guild();
    let e = Expr::Union(
        Box::new(Expr::RoleId(100)),
        Box::new(Expr::Difference(
            Box::new(Expr::Literal(chars("everyone"))),
            Box::new(Expr::RoleId(300)),
        )),
    );
    let everyone = g.everyone_members();
    let got = interpret(&e, &g, &all_perms()).expect("evaluation succeeds");
    assert!(got.is_subset_of(&everyone));
}

#[test]
fn guild_well_formedness_check_accepts_demo() {
    assert!(demo_guild().check_wf());
}

#[test]
fn guild_well_formedness_rejects_duplicate_member_ids() {
    let g = Guild {
        id: 9000,
        members: vec![member(1, "A#0001", true), member(1, "B#0002", false)],
        roles: vec![],
    };
    assert!(!g.check_wf());
}

#[test]
fn guild_well_formedness_rejects_duplicate_role_ids() {
    let g = Guild {
        id: 9000,
        members: vec![member(1, "A#0001", true)],
        roles: vec![role(10, "a", true, vec![1]), role(10, "b", true, vec![1])],
    };
    assert!(!g.check_wf());
}

#[test]
fn guild_well_formedness_rejects_stranger_in_role() {
    let g = Guild {
        id: 9000,
        members: vec![member(1, "A#0001", true)],
        roles: vec![role(10, "a", true, vec![1, 99])],
    };
    assert!(!g.check_wf());
}
