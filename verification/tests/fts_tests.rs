use forum_core::fts::reformat_fts_query;

#[test]
fn it_works() {
    assert_eq!("Test query", reformat_fts_query("Test query"));
    assert_eq!("\"Test query\"", reformat_fts_query("\"Test query\""));
    assert_eq!("Test AND query", reformat_fts_query("Test AND query"));
    assert_eq!("\"Test-123\" NOT query*", reformat_fts_query("Test-123 NOT query*"));
}

#[test]
fn sanitizer_replaces_disallowed_characters() {
    // Punctuation becomes a space, so an operator cannot be smuggled in.
    assert_eq!("a b", reformat_fts_query("a!b"));
    assert_eq!("a b c", reformat_fts_query("a(b)c"));
    assert_eq!("col val", reformat_fts_query("col:val"));
}

#[test]
fn sanitizer_keeps_allowed_characters() {
    assert_eq!("a_b c*", reformat_fts_query("a_b c*"));
    assert_eq!("\"a-b\"", reformat_fts_query("a-b"));
}

#[test]
fn sanitizer_closes_open_quote() {
    assert_eq!("\"ab cd\"", reformat_fts_query("\"ab cd"));
    assert_eq!("\"ab\"", reformat_fts_query("\"ab"));
}

#[test]
fn sanitizer_strips_stray_quotes() {
    // A quote inside a token (not at its start) is stripped.
    assert_eq!("ab", reformat_fts_query("a\"b"));
    // Inside a quoted phrase, a token with an inner quote keeps scanning.
    assert_eq!("\"a bc d\"", reformat_fts_query("\"a b\"c d"));
}

#[test]
fn sanitizer_empty_and_whitespace() {
    assert_eq!("", reformat_fts_query(""));
    assert_eq!("", reformat_fts_query("  \t \n "));
    assert_eq!("a", reformat_fts_query("   a   "));
}

#[test]
fn sanitizer_quoted_single_token() {
    assert_eq!("\"ab\"", reformat_fts_query("\"ab\""));
}
