use sm_action::escape::github_escape;

fn github_escape_with_special_chars(input: &str, expected: &str) {
    assert_eq!(github_escape(input), expected)
}

#[test]
fn test_github_escape() {
    github_escape_with_special_chars(
        "percent % percent % cr \r cr \r lf \n lf \n",
        "percent %25 percent %25 cr %0D cr %0D lf %0A lf %0A",
    );
    github_escape_with_special_chars(
        "%25 %25 %0D %0D %0A %0A %3A %3A %2C %2C",
        "%2525 %2525 %250D %250D %250A %250A %253A %253A %252C %252C",
    );
    github_escape_with_special_chars("normal text", "normal text");
}

#[test]
fn escape_is_order_sensitive() {
    assert_eq!(github_escape("%0A"), "%250A");
    assert_eq!(github_escape("a\nb"), "a%0Ab");
    assert_eq!(github_escape("%0D"), "%250D");
    assert_eq!(github_escape("a\rb"), "a%0Db");
}

#[test]
fn escape_of_empty_is_empty() {
    assert_eq!(github_escape(""), "");
}

#[test]
fn escape_each_special_character() {
    assert_eq!(github_escape("%"), "%25");
    assert_eq!(github_escape("\r"), "%0D");
    assert_eq!(github_escape("\n"), "%0A");
    assert_eq!(github_escape("\r\n"), "%0D%0A");
    assert_eq!(github_escape("%\r\n%"), "%25%0D%0A%25");
}

#[test]
fn escape_keeps_other_characters() {
    let plain = "tab\there: colon, comma; quote\" caf\u{e9} \u{4e16}\u{754c} \u{1f511}";
    assert_eq!(github_escape(plain), plain);
}

#[test]
fn escape_twice_escapes_further() {
    let once = github_escape("50%\n");
    assert_eq!(once, "50%25%0A");
    let twice = github_escape(&once);
    assert_eq!(twice, "50%2525%250A");
    assert_ne!(once, twice);
}

#[test]
fn escape_twice_of_plain_text_is_plain_text() {
    let once = github_escape("plain");
    assert_eq!(github_escape(&once), once);
}

#[test]
fn escape_result_stays_on_one_line() {
    let value = "line one\r\nline two\nline three\r";
    let encoded = github_escape(value);
    assert!(!encoded.contains('\n'));
    assert!(!encoded.contains('\r'));
    assert_eq!(encoded, "line one%0D%0Aline two%0Aline three%0D");
}

#[test]
fn escape_tells_values_apart() {
    let inputs = ["%0A", "\n", "%250A", "%", "%25", "\r", "%0D", "", "0A", "25"];
    for (i, a) in inputs.iter().enumerate() {
        for (j, b) in inputs.iter().enumerate() {
            assert_eq!(github_escape(a) == github_escape(b), i == j);
        }
    }
}

#[test]
fn escape_length_grows_by_two_for_each_special_character() {
    let value = "a%b\rc\nd";
    assert_eq!(github_escape(value).chars().count(), value.chars().count() + 6);
}
