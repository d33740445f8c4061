use line_counter::{filter_paths, filter_paths_with, CandidatePath, FilterPolicy};

fn candidates(paths: &[&str]) -> Vec<CandidatePath> {
    paths.iter().map(|p| CandidatePath::new(p.to_string())).collect()
}

fn kept(paths: &[&str], allow_list: &[&str]) -> Vec<String> {
    let allow_list: Vec<String> = allow_list.iter().map(|s| s.to_string()).collect();
    filter_paths(candidates(paths), &allow_list).into_iter().map(|c| c.path).collect()
}

#[test]
fn candidate_carries_its_extension() {
    let candidate = CandidatePath::new("dir/a.RS".to_string());
    assert_eq!(candidate.path, "dir/a.RS");
    assert_eq!(candidate.extension, Some("RS".to_string()));
    assert_eq!(CandidatePath::new("Makefile".to_string()).extension, None);
    assert_eq!(CandidatePath::new(".gitignore".to_string()).extension, None);
    assert_eq!(CandidatePath::new("a.tar.gz".to_string()).extension, Some("gz".to_string()));
}

#[test]
fn filter_by_rs_keeps_both_cases_in_order() {
    assert_eq!(kept(&["a.rs", "b.RS", "c.txt"], &["rs"]), vec!["a.rs", "b.RS"]);
}

#[test]
fn filter_drops_files_without_extension() {
    assert_eq!(kept(&["Makefile", "a.rs", ".hidden", "dir/b.rs"], &["rs"]), vec!["a.rs", "dir/b.rs"]);
}

#[test]
fn empty_allow_list_keeps_everything() {
    assert_eq!(
        kept(&["Makefile", "a.rs", ".hidden", "c.txt"], &[]),
        vec!["Makefile", "a.rs", ".hidden", "c.txt"]
    );
}

#[test]
fn allow_list_is_matched_without_regard_to_case() {
    assert_eq!(kept(&["a.rs", "b.Rs", "c.md"], &["RS"]), vec!["a.rs", "b.Rs"]);
    assert_eq!(kept(&["a.rs", "b.exe", "c.md", "d.EXE"], &["exe", "md"]), vec!["b.exe", "c.md", "d.EXE"]);
}

#[test]
fn filter_is_stable_and_repeatable() {
    let paths = ["z.rs", "a.rs", "m.txt", "a.rs", "b.rs"];
    let once = kept(&paths, &["rs"]);
    assert_eq!(once, vec!["z.rs", "a.rs", "a.rs", "b.rs"]);
    assert_eq!(kept(&paths, &["rs"]), once);
}

#[test]
fn single_candidate_can_be_asked() {
    let allow_list = vec!["rs".to_string()];
    for policy in [FilterPolicy::ExplicitOnly, FilterPolicy::DropExtensionless] {
        assert!(CandidatePath::new("x.RS".to_string()).passes(&allow_list, policy));
        assert!(!CandidatePath::new("x.rst".to_string()).passes(&allow_list, policy));
        assert!(!CandidatePath::new("rs".to_string()).passes(&allow_list, policy));
        assert!(CandidatePath::new("x.md".to_string()).passes(&Vec::new(), policy));
        let given = CandidatePath { path: "odd".to_string(), extension: Some("Rs".to_string()) };
        assert!(given.passes(&allow_list, policy));
    }
    let plain = CandidatePath::new("rs".to_string());
    assert!(plain.passes(&Vec::new(), FilterPolicy::ExplicitOnly));
    assert!(!plain.passes(&Vec::new(), FilterPolicy::DropExtensionless));
}

#[test]
fn strict_policy_drops_files_without_extension_where_no_list_is_given() {
    let paths = ["Makefile", "a.rs", ".hidden", "c.txt"];
    let kept: Vec<String> =
        filter_paths_with(candidates(&paths), &Vec::new(), FilterPolicy::DropExtensionless)
            .into_iter()
            .map(|c| c.path)
            .collect();
    assert_eq!(kept, vec!["a.rs", "c.txt"]);
    let allow_list = vec!["txt".to_string()];
    let kept: Vec<String> =
        filter_paths_with(candidates(&paths), &allow_list, FilterPolicy::DropExtensionless)
            .into_iter()
            .map(|c| c.path)
            .collect();
    assert_eq!(kept, vec!["c.txt"]);
}
