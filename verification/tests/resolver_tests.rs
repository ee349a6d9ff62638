use shellcore::resolver::{
    check_for_executable, has_slash, join_path, pick_executable, resolve, resolve_candidates,
};

#[test]
fn name_with_a_slash_is_its_own_candidate() {
    assert!(has_slash("/bin/ls"));
    assert!(has_slash("./run"));
    assert!(!has_slash("ls"));
    assert!(!has_slash(""));
    assert_eq!(resolve_candidates("/bin/ls", "/usr/bin:/bin"), vec!["/bin/ls"]);
    assert_eq!(resolve_candidates("./run", ""), vec!["./run"]);
}

#[test]
fn candidates_follow_the_search_path() {
    assert_eq!(
        resolve_candidates("ls", "/usr/local/bin:/usr/bin:/bin"),
        vec!["/usr/local/bin/ls", "/usr/bin/ls", "/bin/ls"]
    );
}

#[test]
fn empty_directories_of_the_search_path_are_passed_over() {
    assert_eq!(resolve_candidates("ls", ":/bin::/usr/bin:"), vec!["/bin/ls", "/usr/bin/ls"]);
    assert_eq!(resolve_candidates("ls", ""), Vec::<String>::new());
    assert_eq!(resolve_candidates("ls", ":::"), Vec::<String>::new());
}

#[test]
fn directory_with_a_trailing_slash_gets_no_second_one() {
    assert_eq!(join_path("/bin/", "ls"), "/bin/ls");
    assert_eq!(join_path("/bin", "ls"), "/bin/ls");
    assert_eq!(join_path("/", "ls"), "/ls");
    assert_eq!(join_path("rel", "ls"), "rel/ls");
}

#[test]
fn first_executable_candidate_wins() {
    assert_eq!(pick_executable(3, &vec![false, true, true]), Some(1));
    assert_eq!(pick_executable(3, &vec![false, false, false]), None);
    assert_eq!(pick_executable(1, &vec![false, true]), None);
    assert_eq!(pick_executable(3, &vec![false]), None);
    assert_eq!(pick_executable(3, &vec![true]), Some(0));
    assert_eq!(pick_executable(0, &vec![true]), None);
    assert_eq!(pick_executable(2, &Vec::new()), None);
}

#[test]
fn resolve_names_the_file() {
    let path = "/usr/local/bin:/usr/bin:/bin";
    assert_eq!(resolve("ls", path, &vec![false, false, true]), Some("/bin/ls".to_string()));
    assert_eq!(resolve("ls", path, &vec![false, true, true]), Some("/usr/bin/ls".to_string()));
    assert_eq!(resolve("nope", path, &vec![false, false, false]), None);
    assert_eq!(resolve("/bin/ls", path, &vec![true]), Some("/bin/ls".to_string()));
    assert_eq!(resolve("/bin/ls", path, &vec![false]), None);
}

#[test]
fn check_tells_whether_any_candidate_runs() {
    let path = "/usr/bin:/bin";
    assert!(check_for_executable("ls", path, &vec![false, true]));
    assert!(!check_for_executable("ls", path, &vec![false, false]));
    assert!(!check_for_executable("ls", "", &vec![true]));
    assert!(!check_for_executable("ls", path, &Vec::new()));
}
