use intersection::mention::render;
use intersection::mention::Mention;
use intersection::wrap::join_line;
use intersection::wrap::wrap_string_vec;

fn toks(ts: &[&str]) -> Vec<Vec<char>> {
    ts.iter().map(|s| s.chars().collect()).collect()
}

fn strings(msgs: Vec<Vec<char>>) -> Vec<String> {
    msgs.into_iter().map(|m| m.into_iter().collect()).collect()
}

#[test]
fn join_line_with_spaces() {
    let line: String = join_line(&toks(&["a", "bb", "ccc"]), ' ').into_iter().collect();
    assert_eq!(line, "a bb ccc");
}

#[test]
fn join_line_empty() {
    assert_eq!(join_line(&toks(&[]), ' ').len(), 0);
}

#[test]
fn wrap_all_in_one_message() {
    let msgs = wrap_string_vec(&toks(&["aa", "bb"]), ' ', 10).expect("tokens fit");
    assert_eq!(strings(msgs), vec!["aa bb".to_string()]);
}

#[test]
fn wrap_splits_greedily() {
    let msgs = wrap_string_vec(&toks(&["aaa", "bbb", "ccc"]), ' ', 7).expect("tokens fit");
    assert_eq!(strings(msgs), vec!["aaa bbb".to_string(), "ccc".to_string()]);
}

#[test]
fn wrap_exact_boundary() {
    let msgs = wrap_string_vec(&toks(&["aaa", "bbb"]), ' ', 7).expect("tokens fit");
    assert_eq!(strings(msgs), vec!["aaa bbb".to_string()]);
    let msgs = wrap_string_vec(&toks(&["aaa", "bbb"]), ' ', 6).expect("tokens fit");
    assert_eq!(strings(msgs), vec!["aaa".to_string(), "bbb".to_string()]);
}

#[test]
fn wrap_rejects_oversize_token() {
    assert!(wrap_string_vec(&toks(&["aaaa"]), ' ', 3).is_none());
}

#[test]
fn wrap_no_tokens_no_messages() {
    let msgs = wrap_string_vec(&toks(&[]), ' ', 5).expect("nothing to pack");
    assert_eq!(msgs.len(), 0);
}

#[test]
fn wrap_each_message_within_limit() {
    let msgs = wrap_string_vec(&toks(&["aaaa", "bb", "c", "ddddd", "ee"]), ' ', 8)
        .expect("tokens fit");
    for m in &msgs {
        assert!(m.len() <= 8);
    }
    let joined: String = strings(msgs).join(" ");
    assert_eq!(joined, "aaaa bb c ddddd ee");
}

#[test]
fn render_everyone_and_here() {
    let e: String = render(&Mention::Everyone).into_iter().collect();
    assert_eq!(e, "@everyone");
    let h: String = render(&Mention::Here).into_iter().collect();
    assert_eq!(h, "@here");
}

#[test]
fn render_role_and_user() {
    let r: String = render(&Mention::Role(300)).into_iter().collect();
    assert_eq!(r, "<@&300>");
    let u: String = render(&Mention::User(42)).into_iter().collect();
    assert_eq!(u, "<@42>");
}

#[test]
fn render_largest_id() {
    let u: String = render(&Mention::User(u64::MAX)).into_iter().collect();
    assert_eq!(u, "<@18446744073709551615>");
}
