use dirscan::wildcard::{
    check_pattern, checked_folder_path_match, do_up_folders_of_path, is_folder_path_regex_match, match_up_folder_count,
    PatternError,
};

#[test]
fn up_folder_regex_match_test() {
    const PATH: &str = "C://a//b//c";
    const REGEX: &str = "../b";

    let result = is_folder_path_regex_match(PATH, REGEX);
    assert_eq!(result, true)
}

#[test]
fn false_up_folder_regex_match_test() {
    const PATH: &str = "C://a//b//c";
    const REGEX: &str = "../x";

    let result = is_folder_path_regex_match(PATH, REGEX);
    assert_eq!(result, false)
}

#[test]
fn local_folder_path_regex_test() {
    const PATH: &str = "C://a//b//c";
    const REGEX: &str = "./c";

    let result = is_folder_path_regex_match(PATH, REGEX);
    assert_eq!(result, true)
}

#[test]
fn false_local_folder_path_regex_test() {
    const PATH: &str = "C://a//b//c";
    const REGEX: &str = "./y";

    let result = is_folder_path_regex_match(PATH, REGEX);
    assert_eq!(result, false)
}

#[test]
fn literal_substring_matches() {
    assert_eq!(is_folder_path_regex_match("/home/u/node_modules/x", "node_modules"), true);
}

#[test]
fn backslashes_are_normalized() {
    assert_eq!(is_folder_path_regex_match("C:\\dev\\react\\app", "react/app"), true);
    assert_eq!(is_folder_path_regex_match("/dev/react/app", ".\\react"), true);
}

#[test]
fn no_hops_no_overlap_is_false() {
    assert_eq!(is_folder_path_regex_match("/srv/data", "logs"), false);
}

#[test]
fn same_inputs_same_result() {
    let first = checked_folder_path_match("C://a//b//c", "../b");
    let second = checked_folder_path_match("C://a//b//c", "../b");
    assert_eq!(first, second);
}

#[test]
fn invalid_regex_is_an_error() {
    assert_eq!(checked_folder_path_match("a(b", "("), Err(PatternError::InvalidRegex));
    assert_eq!(checked_folder_path_match("a(b", "a"), Ok(true));
    assert_eq!(checked_folder_path_match("a(b", "z"), Ok(false));
    assert_eq!(check_pattern("("), Err(PatternError::InvalidRegex));
    assert_eq!(check_pattern("./src"), Ok(()));
}

#[test]
fn hop_walk_compares_last_segment() {
    // "...//...//b" reduces to "../../b": one hop, then the ancestor must end in "b".
    assert_eq!(is_folder_path_regex_match("/x/y/b/d", "...//...//b"), true);
    assert_eq!(is_folder_path_regex_match("/x/y/c/d", "...//...//b"), false);
}

#[test]
fn hop_walk_with_trailing_separator_needs_only_the_ancestor() {
    assert_eq!(is_folder_path_regex_match("ab", "...//"), true);
    assert_eq!(is_folder_path_regex_match("ab", "...//...//"), false);
}

#[test]
fn up_folder_count_rules() {
    assert_eq!(match_up_folder_count("../b"), 0);
    assert_eq!(match_up_folder_count("../../b"), 1);
    assert_eq!(match_up_folder_count("../../"), 2);
    assert_eq!(match_up_folder_count("b"), 0);
}

#[test]
fn climbing_parents() {
    assert_eq!(do_up_folders_of_path("/a/b/c", 0), Some("/a/b/c".to_string()));
    assert_eq!(do_up_folders_of_path("/a/b/c", 2), Some("/a".to_string()));
    assert_eq!(do_up_folders_of_path("/a/b/c", 3), Some("/".to_string()));
    assert_eq!(do_up_folders_of_path("/a/b/c", 4), None);
}

#[test]
fn up_folder_intended_hop_semantics() {
    // One level up from ".../a/b/c" is a directory named "b".
    let parent = do_up_folders_of_path("C://a//b//c", 1).unwrap();
    assert!(parent.ends_with("b"));
    let grandparent = do_up_folders_of_path("C://a//b//c", 2).unwrap();
    assert!(!grandparent.ends_with("b"));
}

#[test]
fn hop_segment_read_from_normalized_pattern() {
    // "...//...//x\\b" normalizes to "...//...//x/b": last segment "b".
    assert_eq!(is_folder_path_regex_match("/q/b/c", "...//...//x\\b"), true);
    assert_eq!(is_folder_path_regex_match("/q/y/c", "...//...//x\\b"), false);
}

#[test]
fn literal_with_spaces_and_colons_matches_as_text() {
    assert_eq!(is_folder_path_regex_match("C:/My Documents/x", "C:/My Doc"), true);
    assert_eq!(is_folder_path_regex_match("C:/My Documents/x", "My  Doc"), false);
}
