use forum_core::highlight::parse_search_result_text;
use forum_core::types::SearchResultFragment;

fn normal(f: &SearchResultFragment) -> &str {
    match f {
        SearchResultFragment::Normal(s) => s.as_str(),
        SearchResultFragment::Highlight(_) => panic!("expected a normal run"),
    }
}

fn highlight(f: &SearchResultFragment) -> &str {
    match f {
        SearchResultFragment::Highlight(s) => s.as_str(),
        SearchResultFragment::Normal(_) => panic!("expected a highlighted run"),
    }
}

#[test]
fn alternating_runs() {
    let frags = parse_search_result_text("a<<%%>>b<<%%>>c".to_string());
    assert_eq!(frags.len(), 3);
    assert_eq!(normal(&frags[0]), "a");
    assert_eq!(highlight(&frags[1]), "b");
    assert_eq!(normal(&frags[2]), "c");
}

#[test]
fn trailing_text_is_normal() {
    let frags = parse_search_result_text("a<<%%>>b".to_string());
    assert_eq!(frags.len(), 2);
    assert_eq!(normal(&frags[0]), "a");
    assert_eq!(normal(&frags[1]), "b");
}

#[test]
fn empty_runs_are_skipped() {
    // Adjacent markers produce a zero-length highlighted run: dropped.
    let frags = parse_search_result_text("a<<%%>><<%%>>c".to_string());
    assert_eq!(frags.len(), 2);
    assert_eq!(normal(&frags[0]), "a");
    assert_eq!(normal(&frags[1]), "c");
}

#[test]
fn leading_marker_starts_highlighted() {
    let frags = parse_search_result_text("<<%%>>hit<<%%>> rest".to_string());
    assert_eq!(frags.len(), 2);
    assert_eq!(highlight(&frags[0]), "hit");
    assert_eq!(normal(&frags[1]), " rest");
}

#[test]
fn lines_without_marker_are_dropped() {
    let frags = parse_search_result_text("no hit here\nx<<%%>>y<<%%>>z\nnothing".to_string());
    assert_eq!(frags.len(), 3);
    assert_eq!(normal(&frags[0]), "x");
    assert_eq!(highlight(&frags[1]), "y");
    assert_eq!(normal(&frags[2]), "z");
}

#[test]
fn kept_lines_joined_with_dots() {
    let frags =
        parse_search_result_text("a<<%%>>b<<%%>>\nskip me\nc<<%%>>d<<%%>>e".to_string());
    // Joined text: "a<<%%>>b<<%%>>. c<<%%>>d<<%%>>e"
    assert_eq!(frags.len(), 5);
    assert_eq!(normal(&frags[0]), "a");
    assert_eq!(highlight(&frags[1]), "b");
    assert_eq!(normal(&frags[2]), ". c");
    assert_eq!(highlight(&frags[3]), "d");
    assert_eq!(normal(&frags[4]), "e");
}

#[test]
fn no_marker_no_fragments() {
    let frags = parse_search_result_text("plain text".to_string());
    assert_eq!(frags.len(), 0);
}

#[test]
fn bare_trailing_carriage_return_is_kept() {
    // Only a \r\n ending leaves a carriage return to strip; a final line
    // without a newline keeps a bare one.
    let frags = parse_search_result_text("a<<%%>>b\r".to_string());
    assert_eq!(frags.len(), 2);
    assert_eq!(normal(&frags[0]), "a");
    assert_eq!(normal(&frags[1]), "b\r");
    let frags = parse_search_result_text("a<<%%>>b\r\n".to_string());
    assert_eq!(frags.len(), 2);
    assert_eq!(normal(&frags[0]), "a");
    assert_eq!(normal(&frags[1]), "b");
}
