use mona::account::{Account, Group};
use mona::render::{format_account, format_cred, truncate};
use mona::term_graphics::{boxed, list_of_boxes, repeat};

fn strings(lines: &[&str]) -> Vec<String> {
    lines.iter().map(|l| String::from(*l)).collect()
}

#[test]
fn box_frames_its_lines() {
    assert_eq!(
        boxed(&strings(&["ab", "abcd", ""]), 1),
        strings(&["╭──────╮", "│ ab   │", "│ abcd │", "│      │", "╰──────╯"])
    );
}

#[test]
fn box_without_padding_is_tight() {
    assert_eq!(boxed(&strings(&["abc"]), 0), strings(&["╭───╮", "│abc│", "╰───╯"]));
}

#[test]
fn box_without_lines_is_two_frames() {
    assert_eq!(boxed(&strings(&[]), 0), strings(&["╭╮", "╰╯"]));
    assert_eq!(boxed(&strings(&[]), 2), strings(&["╭────╮", "╰────╯"]));
}

#[test]
fn box_counts_characters_not_bytes() {
    assert_eq!(boxed(&strings(&["é⋯", "abc"]), 0), strings(&["╭───╮", "│é⋯ │", "│abc│", "╰───╯"]));
}

#[test]
fn list_divides_its_boxes() {
    let boxes = vec![strings(&["a", "bcd"]), strings(&["ef"]), strings(&[])];
    assert_eq!(
        list_of_boxes(&boxes, 1),
        strings(&["╭─────╮", "│ a   │", "│ bcd │", "├─────┤", "│ ef  │", "├─────┤", "╰─────╯"])
    );
}

#[test]
fn list_of_one_box_has_no_divider() {
    assert_eq!(list_of_boxes(&vec![strings(&["a"])], 0), strings(&["╭─╮", "│a│", "╰─╯"]));
    assert_eq!(list_of_boxes(&vec![strings(&["a"])], 0), boxed(&strings(&["a"]), 0));
}

#[test]
fn list_without_boxes_is_two_frames() {
    assert_eq!(list_of_boxes(&vec![], 1), strings(&["╭──╮", "╰──╯"]));
}

#[test]
fn repeat_repeats() {
    assert_eq!(repeat("─", 3), "───");
    assert_eq!(repeat(" ", 0), "");
}

#[test]
fn long_text_is_cut_to_32_characters() {
    let long = "abcdefghijklmnopqrstuvwxyz0123456789";
    assert_eq!(truncate(long), "abcdefghijklmnopqrstuvwxyz01234⋯");
    assert_eq!(truncate(long).chars().count(), 32);
    let exact = "abcdefghijklmnopqrstuvwxyz012345";
    assert_eq!(exact.chars().count(), 32);
    assert_eq!(truncate(exact), exact);
    assert_eq!(truncate(""), "");
    let accents = "é".repeat(33);
    assert_eq!(truncate(&accents), format!("{}⋯", "é".repeat(31)));
}

#[test]
fn credential_is_shown_or_shaded() {
    let cred = Account { username: String::from("alice"), password: String::from("s3cret") };
    assert_eq!(format_cred(&cred, true), strings(&["user: alice", "pass: s3cret"]));
    assert_eq!(format_cred(&cred, false), strings(&["user: alice", "pass: ░░░░░░"]));
    let long = Account { username: "u".repeat(40), password: "p".repeat(40) };
    assert_eq!(
        format_cred(&long, false),
        vec![format!("user: {}⋯", "u".repeat(31)), format!("pass: {}⋯", "░".repeat(31))]
    );
    assert_eq!(
        format_cred(&long, true),
        vec![format!("user: {}", "u".repeat(40)), format!("pass: {}", "p".repeat(40))]
    );
}

#[test]
fn account_is_shown_with_its_credentials() {
    let group = Group {
        version: String::from("0.0.1"),
        accounts: vec![
            Account { username: String::from("alice"), password: String::from("pw") },
            Account { username: String::from("bob"), password: String::from("hunter2") },
        ],
    };
    assert_eq!(format_account("github.com", &group, false), strings(&["github.com"]));
    assert_eq!(
        format_account("github.com", &group, true),
        strings(&[
            "github.com",
            "╭───────────────╮",
            "│ user: alice   │",
            "│ pass: ░░      │",
            "├───────────────┤",
            "│ user: bob     │",
            "│ pass: ░░░░░░░ │",
            "╰───────────────╯",
        ])
    );
    assert_eq!(format_account("empty", &Group::empty(), true), strings(&["empty"]));
}
