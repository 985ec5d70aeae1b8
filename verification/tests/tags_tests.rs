use os_support::tags::parse_platform_list;
use os_support::tags::ListError;

fn tags(s: &str) -> Vec<String> {
    parse_platform_list(s).expect("list should parse")
}

#[test]
fn parses_single_tag() {
    assert_eq!(tags("linux"), vec!["linux".to_string()]);
}

#[test]
fn parses_two_tags() {
    assert_eq!(tags("linux,windows"), vec!["linux".to_string(), "windows".to_string()]);
}

#[test]
fn whitespace_variants_normalize_identically() {
    let a = tags("linux, windows");
    let b = tags("linux,windows");
    let c = tags(" linux , windows ");
    assert_eq!(a, b);
    assert_eq!(b, c);
    assert_eq!(a, vec!["linux".to_string(), "windows".to_string()]);
}

#[test]
fn tabs_and_newlines_are_trimmed() {
    assert_eq!(tags("\tlinux\n,\r windows\t"), vec!["linux".to_string(), "windows".to_string()]);
}

#[test]
fn unicode_whitespace_is_trimmed_like_str_trim() {
    assert_eq!(tags("\u{A0}linux\u{3000}, \u{2003}windows\u{85}"), vec![
        "linux".to_string(),
        "windows".to_string()
    ]);
}

#[test]
fn empty_list_is_rejected() {
    assert_eq!(parse_platform_list(""), Err(ListError::EmptyTag));
}

#[test]
fn blank_segment_is_rejected() {
    assert_eq!(parse_platform_list("linux,,windows"), Err(ListError::EmptyTag));
    assert_eq!(parse_platform_list("linux, "), Err(ListError::EmptyTag));
    assert_eq!(parse_platform_list(" , linux"), Err(ListError::EmptyTag));
}

#[test]
fn duplicates_are_kept() {
    assert_eq!(tags("linux, linux"), vec!["linux".to_string(), "linux".to_string()]);
}

#[test]
fn order_is_preserved() {
    assert_eq!(
        tags("windows, macos, linux"),
        vec!["windows".to_string(), "macos".to_string(), "linux".to_string()]
    );
}

#[test]
fn interior_whitespace_is_kept() {
    assert_eq!(tags(" a b "), vec!["a b".to_string()]);
}
