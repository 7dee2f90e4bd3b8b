use power_sheets::compose::{
    generate_html, CONTAINER_CLOSE, CONTAINER_OPEN, SHELL_CLOSE, SHELL_OPEN,
};

fn texts(list: &[&str]) -> Vec<String> {
    list.iter().map(|t| t.to_string()).collect()
}

#[test]
fn empty_sheet_is_the_shell_alone() {
    let html = generate_html(&[]);
    assert_eq!(html, format!("{}{}", SHELL_OPEN, SHELL_CLOSE));
    assert!(html.ends_with("<div class='grid'></div></body></html>"));
    assert!(html.contains("<style>"));
    assert!(!html.contains("<div class='power'>"));
}

#[test]
fn fragments_are_wrapped_in_order() {
    let html = generate_html(&texts(&["<p>one</p>", "<p>two</p>", "<p>one</p>"]));
    let expected = format!(
        "{}<div class='power'><p>one</p></div><div class='power'><p>two</p></div><div class='power'><p>one</p></div></div></body></html>",
        SHELL_OPEN
    );
    assert_eq!(html, expected);
    assert_eq!(html.matches("<div class='power'>").count(), 3);
}

#[test]
fn one_fragment_exactly() {
    let html = generate_html(&texts(&["X"]));
    assert_eq!(
        html,
        format!("{}{}X{}{}", SHELL_OPEN, CONTAINER_OPEN, CONTAINER_CLOSE, SHELL_CLOSE)
    );
}

#[test]
fn empty_fragment_still_gets_a_container() {
    let html = generate_html(&texts(&["", ""]));
    assert_eq!(
        html,
        format!("{}<div class='power'></div><div class='power'></div>{}", SHELL_OPEN, SHELL_CLOSE)
    );
}

#[test]
fn shell_carries_the_style_hooks() {
    assert!(SHELL_OPEN.starts_with("<html>\n    <head>\n        <title>Power Texts</title>"));
    assert!(SHELL_OPEN.ends_with("<body>\n        <div class='grid'>"));
    for hook in [".grid {", ".Power {", ".Power h1 {", ".Power h1 span {", ".Power p {",
        ".Power .publishedIn {", ".Power .flavor {", ".At-Will h1 {", ".Encounter h1 {",
        ".Daily h1 {", "@media print {", "column-count: 3;",
        "grid-template-columns: repeat(4, 1fr);"].iter()
    {
        assert!(SHELL_OPEN.contains(hook), "missing {}", hook);
    }
    assert_eq!(SHELL_CLOSE, "</div></body></html>");
    assert_eq!(CONTAINER_OPEN, "<div class='power'>");
    assert_eq!(CONTAINER_CLOSE, "</div>");
}

#[test]
fn laying_out_two_runs_joins_their_content() {
    let first = texts(&["a", "b"]);
    let second = texts(&["c"]);
    let all = texts(&["a", "b", "c"]);
    let content = |html: String| {
        html[SHELL_OPEN.len()..html.len() - SHELL_CLOSE.len()].to_string()
    };
    assert_eq!(
        content(generate_html(&all)),
        format!("{}{}", content(generate_html(&first)), content(generate_html(&second)))
    );
}

#[test]
fn document_holds_one_container_per_fragment() {
    for count in 0..6 {
        let fragments: Vec<String> =
            (0..count).map(|i| format!("<div id=\"n{}\" class=\"Power Daily\">t</div>", i)).collect();
        let html = generate_html(&fragments);
        assert_eq!(html.matches(CONTAINER_OPEN).count(), count);
    }
}

#[test]
fn fragment_with_a_container_of_its_own_is_counted_too() {
    let html = generate_html(&texts(&["<div class='power'>inner</div>"]));
    assert_eq!(html.matches(CONTAINER_OPEN).count(), 2);
}
