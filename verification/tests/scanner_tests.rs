use intersection::scanner::scan;

fn chars(s: &str) -> Vec<char> {
    s.chars().collect()
}

fn strings(chunks: Vec<Vec<char>>) -> Vec<String> {
    chunks.into_iter().map(|c| c.into_iter().collect()).collect()
}

#[test]
fn scan_empty_message() {
    let v = chars("");
    assert_eq!(scan(&v).len(), 0);
}

#[test]
fn scan_no_chunk() {
    let v = chars("hello world, no query here");
    assert_eq!(scan(&v).len(), 0);
}

#[test]
fn scan_single_chunk() {
    let v = chars("hi @{ everyone } bye");
    assert_eq!(strings(scan(&v)), vec![" everyone ".to_string()]);
}

#[test]
fn scan_keeps_outer_whitespace() {
    let v = chars("@{  a  }");
    assert_eq!(strings(scan(&v)), vec!["  a  ".to_string()]);
}

#[test]
fn scan_nested_braces() {
    let v = chars("@{ a { b } c }");
    assert_eq!(strings(scan(&v)), vec![" a { b } c ".to_string()]);
}

#[test]
fn scan_unbalanced_stops_without_emitting() {
    let v = chars("@{ abc");
    assert_eq!(scan(&v).len(), 0);
}

#[test]
fn scan_two_chunks_in_order() {
    let v = chars("a @{ x } b @{ y } c");
    assert_eq!(strings(scan(&v)), vec![" x ".to_string(), " y ".to_string()]);
}

#[test]
fn scan_double_at_still_opens() {
    let v = chars("@@{ x }");
    assert_eq!(strings(scan(&v)), vec![" x ".to_string()]);
}

#[test]
fn scan_brace_without_at_is_plain_text() {
    let v = chars("set { x } done");
    assert_eq!(scan(&v).len(), 0);
}

#[test]
fn scan_empty_chunk_body() {
    let v = chars("@{}");
    assert_eq!(strings(scan(&v)), vec!["".to_string()]);
}
