use line_counter::{DirEntry, Listing, Status, Traversal};

fn file(path: &str) -> DirEntry {
    DirEntry { path: path.to_string(), is_directory: false }
}

fn dir(path: &str) -> DirEntry {
    DirEntry { path: path.to_string(), is_directory: true }
}

#[test]
fn traversal_begins_by_asking_for_the_root() {
    let traversal = Traversal::start("root".to_string(), true);
    assert_eq!(traversal.status(), &Status::Awaiting("root".to_string()));
}

#[test]
fn flat_listing_keeps_the_files_and_passes_over_directories() {
    let mut traversal = Traversal::start("root".to_string(), false);
    traversal.supply(Listing::Entries(vec![
        file("root/b.txt"),
        dir("root/sub"),
        file("root/a.txt"),
    ]));
    assert_eq!(traversal.status(), &Status::Finished);
    assert_eq!(traversal.into_found(), vec!["root/b.txt", "root/a.txt"]);
}

#[test]
fn recursive_traversal_visits_subdirectories_in_place() {
    let mut traversal = Traversal::start("root".to_string(), true);
    traversal.supply(Listing::Entries(vec![
        file("root/a"),
        dir("root/d1"),
        file("root/b"),
        dir("root/d2"),
        file("root/c"),
    ]));
    assert_eq!(traversal.status(), &Status::Awaiting("root/d1".to_string()));
    traversal.supply(Listing::Entries(vec![dir("root/d1/deep"), file("root/d1/x")]));
    assert_eq!(traversal.status(), &Status::Awaiting("root/d1/deep".to_string()));
    traversal.supply(Listing::Entries(vec![file("root/d1/deep/y")]));
    assert_eq!(traversal.status(), &Status::Awaiting("root/d2".to_string()));
    traversal.supply(Listing::Entries(vec![]));
    assert_eq!(traversal.status(), &Status::Finished);
    assert_eq!(
        traversal.into_found(),
        vec!["root/a", "root/d1/deep/y", "root/d1/x", "root/b", "root/c"]
    );
}

#[test]
fn root_that_is_no_directory_gives_nothing() {
    for recursive in [false, true] {
        let mut traversal = Traversal::start("file.txt".to_string(), recursive);
        traversal.supply(Listing::NotADirectory);
        assert_eq!(traversal.status(), &Status::Finished);
        assert!(traversal.into_found().is_empty());
    }
}

#[test]
fn subdirectory_that_is_no_directory_any_more_is_passed_over() {
    let mut traversal = Traversal::start("root".to_string(), true);
    traversal.supply(Listing::Entries(vec![dir("root/gone"), file("root/a")]));
    assert_eq!(traversal.status(), &Status::Awaiting("root/gone".to_string()));
    traversal.supply(Listing::NotADirectory);
    assert_eq!(traversal.status(), &Status::Finished);
    assert_eq!(traversal.into_found(), vec!["root/a"]);
}

#[test]
fn failed_listing_ends_the_traversal_with_nothing() {
    let mut traversal = Traversal::start("root".to_string(), true);
    traversal.supply(Listing::Entries(vec![file("root/a"), dir("root/locked"), file("root/b")]));
    assert_eq!(traversal.status(), &Status::Awaiting("root/locked".to_string()));
    traversal.supply(Listing::Failed);
    assert_eq!(traversal.status(), &Status::Failed("root/locked".to_string()));
    traversal.supply(Listing::Entries(vec![file("late")]));
    assert_eq!(traversal.status(), &Status::Failed("root/locked".to_string()));
    assert!(traversal.into_found().is_empty());
}

#[test]
fn finished_traversal_takes_no_more_listings() {
    let mut traversal = Traversal::start("root".to_string(), false);
    traversal.supply(Listing::Entries(vec![file("root/a")]));
    traversal.supply(Listing::Entries(vec![file("root/late")]));
    assert_eq!(traversal.status(), &Status::Finished);
    assert_eq!(traversal.into_found(), vec!["root/a"]);
}
