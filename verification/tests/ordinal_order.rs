use folder_fuser::ordinal::{precedes, rank, same_name, Rank};

fn expected_rank(a: &str, b: &str) -> Rank {
    if a < b {
        Rank::Before
    } else if a == b {
        Rank::Same
    } else {
        Rank::After
    }
}

#[test]
fn first_difference_decides() {
    assert!(precedes("abc", "abd"));
    assert!(!precedes("abd", "abc"));
    assert_eq!(rank("abc", "abd"), Rank::Before);
    assert_eq!(rank("abd", "abc"), Rank::After);
}

#[test]
fn a_prefix_comes_before_its_extensions() {
    assert!(precedes("ab", "abc"));
    assert!(!precedes("abc", "ab"));
    assert!(precedes("", "a"));
    assert!(!precedes("a", ""));
    assert_eq!(rank("report", "report.txt"), Rank::Before);
}

#[test]
fn no_name_precedes_itself() {
    assert!(!precedes("", ""));
    assert!(!precedes("notes.md", "notes.md"));
    assert_eq!(rank("notes.md", "notes.md"), Rank::Same);
    assert_eq!(rank("", ""), Rank::Same);
}

#[test]
fn upper_case_sorts_before_lower_case() {
    assert!(precedes("Zebra.txt", "apple.txt"));
    assert!(!precedes("apple.txt", "Zebra.txt"));
    assert!(precedes("B", "a"));
}

#[test]
fn digits_are_compared_as_characters() {
    assert!(precedes("file10.txt", "file2.txt"));
    assert!(!precedes("file2.txt", "file10.txt"));
}

#[test]
fn names_beyond_ascii_go_by_code_point() {
    assert!(precedes("z", "\u{e9}"));
    assert!(precedes("\u{e9}", "\u{65e5}"));
    assert!(precedes("\u{ffff}", "\u{10000}"));
    assert!(!precedes("\u{10000}", "\u{ffff}"));
    assert!(precedes("caf\u{e9}", "caf\u{e9}s"));
    assert_eq!(rank("\u{1f600}", "\u{e000}"), Rank::After);
}

#[test]
fn same_name_is_exact() {
    assert!(same_name("report.txt", "report.txt"));
    assert!(!same_name("Report.txt", "report.txt"));
    assert!(!same_name("report.txt", "report.tx"));
    assert!(!same_name("report", "report "));
    assert!(same_name("", ""));
    assert!(same_name("\u{65e5}\u{672c}", "\u{65e5}\u{672c}"));
}

#[test]
fn rank_agrees_with_the_order_of_str() {
    let samples = [
        "", "a", "A", "ab", "abc", "abd", "b", "B", "file10", "file2", "z", "~", "\u{7f}",
        "\u{80}", "\u{e9}", "\u{7ff}", "\u{800}", "\u{d7ff}", "\u{e000}", "\u{ffff}",
        "\u{10000}", "\u{10ffff}", "a\u{e9}", "a\u{e9}b", "report.txt", "Report.txt",
    ];
    for a in samples.iter() {
        for b in samples.iter() {
            assert_eq!(rank(a, b), expected_rank(a, b), "{:?} against {:?}", a, b);
            assert_eq!(precedes(a, b), a < b, "{:?} against {:?}", a, b);
            assert_eq!(same_name(a, b), a == b, "{:?} against {:?}", a, b);
        }
    }
}

#[test]
fn the_order_is_total_and_transitive_on_samples() {
    let samples = ["", "a", "aa", "ab", "b", "Z", "\u{e9}", "\u{10000}", "0", "00"];
    for a in samples.iter() {
        for b in samples.iter() {
            let forth = precedes(a, b);
            let back = precedes(b, a);
            assert!(!(forth && back));
            assert_eq!(!forth && !back, a == b);
            for c in samples.iter() {
                if forth && precedes(b, c) {
                    assert!(precedes(a, c));
                }
            }
        }
    }
}
