use gobby::skills::{parse_skill_md, Skill};

#[test]
fn parses_a_minimal_skill_md() {
    let body = "# browser\n\nDrive a headless browser. Useful for scraping.";
    let s = parse_skill_md(body, "skills/browser").unwrap();
    assert_eq!(s.name, "browser");
    assert!(s.summary.starts_with("Drive a headless browser"));
    assert_eq!(s.directory, "skills/browser");
}

#[test]
fn ignores_subsequent_headers_in_summary() {
    let body = "# search\n\nQuery the web.\n\n# arguments\n\nq: string";
    let s = parse_skill_md(body, "skills/search").unwrap();
    assert_eq!(s.name, "search");
    assert_eq!(s.summary, "Query the web.");
}

#[test]
fn empty_or_blank_body_has_no_skill() {
    assert_eq!(parse_skill_md("", "d"), None);
    assert_eq!(parse_skill_md(" \n\t\r\n\u{3000}\n", "d"), None);
}

#[test]
fn summary_joins_paragraph_lines_with_spaces() {
    let body = "###  name  \r\n  summary line one \nline two\n# header\nafter";
    let s = parse_skill_md(body, "x").unwrap();
    assert_eq!(s.name, "name");
    assert_eq!(s.summary, "summary line one  line two");
    assert_eq!(s.directory, "x");
}

#[test]
fn summary_is_the_first_paragraph_only() {
    let s = parse_skill_md("# x\n\nA.\n\nB.", "d").unwrap();
    assert_eq!(s.name, "x");
    assert_eq!(s.summary, "A.");
    let t = parse_skill_md("tool\n\n\n first\nsecond \n   \nthird\n", "d").unwrap();
    assert_eq!(t.name, "tool");
    assert_eq!(t.summary, "first second");
}

#[test]
fn header_right_after_the_name_leaves_the_summary_empty() {
    let s = parse_skill_md("# x\n\n# usage\ntext", "d").unwrap();
    assert_eq!(s.name, "x");
    assert_eq!(s.summary, "");
}

#[test]
fn summary_may_follow_the_name_line_directly() {
    let s = parse_skill_md("# x\nline one\nline two\n\nlater", "d").unwrap();
    assert_eq!(s.summary, "line one line two");
}

#[test]
fn indented_hash_does_not_end_the_summary() {
    let body = "# t\n a\n # b\n#c\nd";
    let s = parse_skill_md(body, "d").unwrap();
    assert_eq!(s.summary, "a  # b");
}

#[test]
fn name_only_skill_has_empty_summary() {
    let s = parse_skill_md("\n\n## solo ##\n", "d").unwrap();
    assert_eq!(s.name, "solo ##");
    assert_eq!(s.summary, "");
}

#[test]
fn unicode_whitespace_is_trimmed() {
    let s = parse_skill_md("\u{3000}# x\u{a0}\nsum\u{2003}", "d").unwrap();
    assert_eq!(s.name, "# x");
    assert_eq!(s.summary, "sum");
}

#[test]
fn lone_carriage_return_is_not_a_line_break() {
    let s = parse_skill_md("a\rb\nc\r\n", "d").unwrap();
    assert_eq!(s.name, "a\rb");
    assert_eq!(s.summary, "c");
}

#[test]
fn skill_new_keeps_its_fields() {
    let s = Skill::new("n", "s", "d");
    assert_eq!(s.name, "n");
    assert_eq!(s.summary, "s");
    assert_eq!(s.directory, "d");
}
