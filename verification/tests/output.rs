use line_counter::{format_line, FORMAT};

#[test]
fn default_format_has_no_prefix() {
    assert_eq!(format_line(1, "src/main.rs", 42, FORMAT::Default), "src/main.rs: 42 Lines");
    assert_eq!(format_line(7, "a", 0, FORMAT::Default), "a: 0 Lines");
}

#[test]
fn bullet_format_has_an_asterisk_and_a_tab() {
    assert_eq!(format_line(1, "src/main.rs", 42, FORMAT::Bullet), "*\tsrc/main.rs: 42 Lines");
}

#[test]
fn markdown_format_has_a_hyphen_and_a_tab() {
    assert_eq!(format_line(3, "x.rs", 3, FORMAT::Markdown), "-\tx.rs: 3 Lines");
}

#[test]
fn numeric_format_has_the_index() {
    assert_eq!(format_line(1, "x.rs", 3, FORMAT::Numeric), "1.)\tx.rs: 3 Lines");
    assert_eq!(format_line(12, "y.rs", 100, FORMAT::Numeric), "12.)\ty.rs: 100 Lines");
    assert_eq!(format_line(0, "", 9, FORMAT::Numeric), "0.)\t: 9 Lines");
}

#[test]
fn numbers_are_written_in_decimal() {
    for n in [0usize, 1, 9, 10, 11, 99, 100, 101, 909, 1000, 65535, 1234567890, usize::MAX] {
        assert_eq!(format_line(n, "p", n, FORMAT::Numeric), format!("{}.)\tp: {} Lines", n, n));
    }
}

#[test]
fn path_is_rendered_as_it_is() {
    assert_eq!(
        format_line(1, "dir with space/\u{e9}t\u{e9}: x.txt", 5, FORMAT::Bullet),
        "*\tdir with space/\u{e9}t\u{e9}: x.txt: 5 Lines"
    );
}
