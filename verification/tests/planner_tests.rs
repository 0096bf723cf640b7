use intersection::guild::Guild;
use intersection::guild::Member;
use intersection::guild::Permissions;
use intersection::guild::Role;
use intersection::planner::no_matches_reply;
use intersection::planner::plan_incoming;
use intersection::planner::plan_message;
use intersection::planner::resolve_confirmation;
use intersection::planner::ConfirmOutcome;
use intersection::planner::Plan;
use intersection::planner::SendPlan;
use intersection::userset::UserSet;

fn chars(s: &str) -> Vec<char> {
    s.chars().collect()
}

fn string_of(v: &[char]) -> String {
    v.iter().collect()
}

fn member(id: u64, tag: &str, online: bool) -> Member {
    Member { id, tag: chars(tag), online }
}

fn role(id: u64, name: &str, mentionable: bool, members: Vec<u64>) -> Role {
    Role { id, name: chars(name), mentionable, members: UserSet::from_vec(&members) }
}

/// Guild 9000: members 1..=5 (only member 5 online), roles 100 = {1,2,3},
/// 200 = {2,3,4}, 300 = {2,3}, and unmentionable role 400 "QA" = {5}.
fn demo_guild() -> Guild {
    Guild {
        id: 9000,
        members: vec![
            member(1, "Alice#0001", false),
            member(2, "Bob#0002", false),
            member(3, "Carol#0003", false),
            member(4, "Dave#0004", false),
            member(5, "Erin#0005", true),
        ],
        roles: vec![
            role(100, "red", true, vec![1, 2, 3]),
            role(200, "blue", true, vec![2, 3, 4]),
            role(300, "core", true, vec![2, 3]),
            role(400, "QA", false, vec![5]),
        ],
    }
}

fn all_perms() -> Permissions {
    Permissions { mention_everyone: true, manage_guild: true }
}

fn no_perms() -> Permissions {
    Permissions { mention_everyone: false, manage_guild: false }
}

const LIMIT: usize = 2000;

fn plan(content: &str, g: &Guild, p: &Permissions) -> Plan {
    plan_message(&chars(content), g, p, &chars("HEADER: "), &chars("FOOTER"), LIMIT)
}

fn error_text(p: Plan) -> String {
    match p {
        Plan::ErrorReply(m) => string_of(&m),
        _ => panic!("expected an error reply"),
    }
}

fn single_text(p: Plan) -> String {
    match p {
        Plan::Send(SendPlan::Single(m)) => string_of(&m),
        _ => panic!("expected a single reply"),
    }
}

#[test]
fn no_chunks_no_reply() {
    let g = demo_guild();
    assert!(matches!(plan("just a normal message", &g, &no_perms()), Plan::NoQuery));
}

#[test]
fn empty_message_no_reply() {
    let g = demo_guild();
    assert!(matches!(plan("", &g, &no_perms()), Plan::NoQuery));
}

#[test]
fn intersection_of_two_roles_covered_by_exact_role() {
    // `<@&100> & <@&200>` = {2,3}, covered exactly by role 300.
    let g = demo_guild();
    let p = plan("@{ <@&100> & <@&200> }", &g, &no_perms());
    assert_eq!(single_text(p), "HEADER: <@&300>");
}

#[test]
fn difference_with_outliers() {
    // `everyone - <@&100>` in a guild of five members, role 100 = {1,2}:
    // the audience {3,4,5} has no covering set, so each user is pinged.
    let g = Guild {
        id: 9000,
        members: vec![
            member(1, "Alice#0001", true),
            member(2, "Bob#0002", false),
            member(3, "Carol#0003", false),
            member(4, "Dave#0004", false),
            member(5, "Erin#0005", false),
        ],
        roles: vec![role(100, "red", true, vec![1, 2])],
    };
    let p = plan("@{ everyone - <@&100> }", &g, &all_perms());
    assert_eq!(single_text(p), "HEADER: <@3> <@4> <@5>");
}

#[test]
fn unresolved_name_single_reply() {
    let g = demo_guild();
    let p = plan("@{ NotARole }", &g, &no_perms());
    assert_eq!(error_text(p), "Unable to resolve role or member NotARole.");
}

#[test]
fn unmentionable_role_via_name() {
    let g = demo_guild();
    let p = plan("@{ QA }", &g, &no_perms());
    assert_eq!(
        error_text(p),
        "The role QA is not mentionable and you lack the permission to mention it.",
    );
}

#[test]
fn permission_denied_for_everyone() {
    let g = demo_guild();
    let p = plan("@{ everyone }", &g, &no_perms());
    assert_eq!(error_text(p), "You do not have permission to mention everyone.");
}

#[test]
fn parse_error_names_first_bad_chunk() {
    let g = demo_guild();
    let p = plan("@{ <@&100> } and @{ ( }", &g, &no_perms());
    assert_eq!(
        error_text(p),
        "Error parsing chunk 2 at position 1: expected an expression.",
    );
}

#[test]
fn parse_error_trailing_text_position() {
    let g = demo_guild();
    let p = plan("@{ a b }", &g, &no_perms());
    assert_eq!(
        error_text(p),
        "Error parsing chunk 1 at position 3: unexpected trailing text.",
    );
}

#[test]
fn two_chunks_unioned() {
    // `hello @{ <@&100> } world @{ <@&200> }` = {1,2,3} ∪ {2,3,4}; no single
    // role covers it, but 100 and 200 together do.
    let g = demo_guild();
    let p = plan("hello @{ <@&100> } world @{ <@&200> }", &g, &no_perms());
    assert_eq!(single_text(p), "HEADER: <@&100> <@&200>");
}

#[test]
fn empty_audience_no_matches() {
    // {2,3} minus role 200 = {} — nothing to ping.
    let g = demo_guild();
    let p = plan("@{ <@&300> - <@&200> }", &g, &no_perms());
    assert!(matches!(p, Plan::Send(SendPlan::NoMatches)));
    assert_eq!(string_of(&no_matches_reply()), "No users matched.");
}

#[test]
fn large_audience_gated_behind_confirmation() {
    // 120 members: the prompt must come first and name the count.
    let mut members = Vec::new();
    for i in 1..=120u64 {
        members.push(member(i, &format!("User{}#{:04}", i, i), false));
    }
    let g = Guild { id: 9000, members, roles: vec![] };
    let p = plan("@{ everyone }", &g, &all_perms());
    match p {
        Plan::Confirm { prompt, then } => {
            let text = string_of(&prompt);
            // The precomputed message count is always part of the prompt.
            assert_eq!(
                text,
                "**Hold up!** By running this query, you are about to mention 120 people. This will require the sending of 1 messages. Are you sure?",
            );
            // The whole guild is the audience, so `@everyone` covers it.
            match then {
                SendPlan::Single(m) => {
                    assert_eq!(string_of(&m), "HEADER: @everyone");
                },
                _ => panic!("expected the audience to fit one message"),
            }
        },
        _ => panic!("expected a confirmation gate"),
    }
}

#[test]
fn small_audience_not_gated() {
    let g = demo_guild();
    let p = plan("@{ <@&100> }", &g, &no_perms());
    assert!(matches!(p, Plan::Send(SendPlan::Single(_))));
}

#[test]
fn confirmation_outcomes() {
    let confirmed = resolve_confirmation(&ConfirmOutcome::Confirmed);
    assert!(confirmed.proceed);
    assert_eq!(string_of(&confirmed.edit), "Confirmed.");
    let cancelled = resolve_confirmation(&ConfirmOutcome::Cancelled);
    assert!(!cancelled.proceed);
    assert_eq!(string_of(&cancelled.edit), "Cancelled.");
    let timed_out = resolve_confirmation(&ConfirmOutcome::TimedOut);
    assert!(!timed_out.proceed);
    assert_eq!(string_of(&timed_out.edit), "Timed out waiting for confirmation.");
}

#[test]
fn split_send_when_over_limit() {
    // A tight limit forces the multi-message path with intro and footer.
    // Member 9 is excluded from the audience, so no keyed set covers it and
    // the eight remaining members are pinged one by one.
    let mut members = Vec::new();
    for i in 1..=8u64 {
        members.push(member(i, &format!("U{}#000{}", i, i), false));
    }
    members.push(member(9, "U9#0009", true));
    let g = Guild { id: 9000, members, roles: vec![] };
    let p = plan_message(
        &chars("@{ everyone - <@9> }"),
        &g,
        &all_perms(),
        &chars("HEADER: "),
        &chars("FOOTER"),
        11,
    );
    match p {
        Plan::Send(SendPlan::Multi { intro, parts, footer }) => {
            let texts: Vec<String> = parts.iter().map(|m| string_of(m)).collect();
            assert_eq!(
                texts,
                vec!["<@1> <@2>".to_string(), "<@3> <@4>".to_string(), "<@5> <@6>".to_string(),
                    "<@7> <@8>".to_string()],
            );
            assert_eq!(
                string_of(&intro),
                "Notification triggered by Intersection. Please wait, sending 4 messages...",
            );
            assert_eq!(string_of(&footer), "FOOTER");
        },
        _ => panic!("expected a split send"),
    }
}

#[test]
fn oversize_token_is_an_error() {
    let g = demo_guild();
    let p = plan_message(
        &chars("@{ <@&100> }"),
        &g,
        &no_perms(),
        &chars(""),
        &chars(""),
        3,
    );
    assert_eq!(
        error_text(p),
        "A single mention token exceeds the message length limit.",
    );
}

#[test]
fn unresolved_id_reply() {
    let g = demo_guild();
    let p = plan("@{ 31337 }", &g, &no_perms());
    assert_eq!(error_text(p), "Unable to resolve role or member ID 31337.");
}

#[test]
fn query_outside_guild_is_refused() {
    let p = plan_incoming(
        &chars("@{ <@&100> }"),
        None,
        &no_perms(),
        &chars("HEADER: "),
        &chars("FOOTER"),
        LIMIT,
    );
    assert_eq!(error_text(p), "DRQL queries are not available in DMs.");
}

#[test]
fn plain_message_outside_guild_no_reply() {
    let p = plan_incoming(
        &chars("just chatting"),
        None,
        &no_perms(),
        &chars("HEADER: "),
        &chars("FOOTER"),
        LIMIT,
    );
    assert!(matches!(p, Plan::NoQuery));
}

#[test]
fn query_inside_guild_runs_pipeline() {
    let g = demo_guild();
    let p = plan_incoming(
        &chars("@{ <@&100> & <@&200> }"),
        Some(&g),
        &no_perms(),
        &chars("HEADER: "),
        &chars("FOOTER"),
        LIMIT,
    );
    assert_eq!(single_text(p), "HEADER: <@&300>");
}
