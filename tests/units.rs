use guesswidth::guess_width::Phase;
use guesswidth::estimate::positions_measured;
use guesswidth::split::split_measured;
use guesswidth::{column_width, is_whitespace, positions, split, to_table, trim, trim_end, GuessWidth};

fn lines(v: &[&str]) -> Vec<String> {
    v.iter().map(|s| s.to_string()).collect()
}

#[test]
fn widths_of_characters() {
    assert_eq!(column_width('a'), 1);
    assert_eq!(column_width(' '), 1);
    assert_eq!(column_width('太'), 2);
    assert_eq!(column_width('\u{301}'), 0);
    assert_eq!(column_width('\n'), 1);
    assert_eq!(column_width('\t'), 1);
}

#[test]
fn whitespace_matches_std() {
    for u in 0..=0x10FFFFu32 {
        if let Some(c) = char::from_u32(u) {
            assert_eq!(is_whitespace(c), c.is_whitespace(), "U+{:04X}", u);
        }
    }
}

#[test]
fn trims_match_std() {
    for s in ["", "  ", " a b ", "\u{3000}x\t\n", "abc", "\u{a0} y"] {
        assert_eq!(trim(s), s.trim());
        assert_eq!(trim_end(s), s.trim_end());
    }
}

#[test]
fn no_positions_one_field() {
    assert_eq!(split("abc def", &vec![], true), vec!["abc def".to_string()]);
    assert_eq!(split("", &vec![], true), vec!["".to_string()]);
}

#[test]
fn short_line_padded_with_empty_fields() {
    let r = split("ab", &vec![6, 15, 24], true);
    assert_eq!(r, lines(&["ab", "", "", ""]));
    let r = split("ab   cd", &vec![3, 15, 24], false);
    assert_eq!(r, lines(&["ab ", "  cd", "", ""]));
    assert_eq!(split("", &vec![6, 15], true), lines(&["", "", ""]));
}

#[test]
fn header_without_spaces_has_no_positions() {
    assert!(positions(&lines(&["abc"]), 0, 0).is_empty());
    assert!(positions(&lines(&["abc", "def"]), 0, 0).is_empty());
    assert!(positions(&lines(&["abc", "d f"]), 0, 1).is_empty());
}

#[test]
fn zero_width_marks_take_no_column() {
    let sample = lines(&["e\u{301}  B", "1  2", "3  4"]);
    assert_eq!(positions(&sample, 0, 2), vec![2]);
    let t = to_table(sample, 0, true);
    assert_eq!(t[0], lines(&["e\u{301}", "B"]));
    assert_eq!(t[1], lines(&["1", "2"]));
}

#[test]
fn control_characters_take_one_column() {
    let r = split("a\tbc def", &vec![4], true);
    assert_eq!(r, lines(&["a\tbc", "def"]));
}

#[test]
fn header_only_no_positions() {
    let t = to_table(lines(&["A B"]), 0, true);
    assert_eq!(t, vec![vec!["A B".to_string()]]);
}

#[test]
fn empty_input() {
    assert!(to_table(vec![], 0, true).is_empty());
    assert!(positions(&vec![], 0, 2).is_empty());
    let mut gw = GuessWidth::new();
    assert!(gw.read_all(vec![]).is_empty());
    assert_eq!(gw.phase, Phase::Draining);
}

#[test]
fn header_past_the_end() {
    assert!(positions(&lines(&["a b", "c d"]), 5, 2).is_empty());
}

#[test]
fn lines_before_header_ignored() {
    let sample = lines(&[
        "junk x y z q",
        "   PID TTY          TIME CMD",
        "302965 pts/3    00:00:11 zsh",
        "709737 pts/3    00:00:00 ps",
    ]);
    assert_eq!(positions(&sample, 1, 2), vec![6, 15, 24]);
}

#[test]
fn header_alone_with_min_one() {
    assert_eq!(positions(&lines(&["AA BB  CC"]), 0, 1), vec![2, 6]);
}

#[test]
fn overflow_stops_early() {
    let r = split("x abcdefg hi", &vec![2, 5, 9], true);
    assert_eq!(r, vec!["x abcdefg".to_string(), "hi".to_string()]);
}

#[test]
fn overflow_to_next_field() {
    let r = split("4   cc  toolong", &vec![3, 9], true);
    assert_eq!(r, vec!["4".to_string(), "cc  toolong".to_string(), "".to_string()]);
}

#[test]
fn step_by_step_reading() {
    let mut gw = GuessWidth::new();
    assert_eq!(gw.phase, Phase::Unprimed);
    gw.scan(&lines(&[
        "   PID TTY          TIME CMD  \n",
        "302965 pts/3    00:00:11 zsh\n",
    ]));
    assert_eq!(gw.phase, Phase::Primed);
    assert_eq!(gw.pos, vec![6, 15, 24]);
    assert_eq!(gw.pre_lines[0], "   PID TTY          TIME CMD");
    let first = gw.read().unwrap();
    assert_eq!(first, lines(&["PID", "TTY", "TIME", "CMD"]));
    let second = gw.read().unwrap();
    assert_eq!(second, lines(&["302965", "pts/3", "00:00:11", "zsh"]));
    assert_eq!(gw.phase, Phase::Draining);
    assert!(gw.read().is_none());
    let fresh = gw.read_line("709737 pts/3    00:00:00 ps\r\n");
    assert_eq!(fresh, lines(&["709737", "pts/3", "00:00:00", "ps"]));
}

#[test]
fn read_all_after_partial_reading() {
    let mut gw = GuessWidth::new();
    gw.scan(&lines(&["A  B", "1  2", "3  4"]));
    let _ = gw.read().unwrap();
    let rest = gw.read_all(lines(&["5  6"]));
    assert_eq!(rest, vec![lines(&["1", "2"]), lines(&["3", "4"]), lines(&["5", "6"])]);
}

#[test]
fn untrimmed_reader_keeps_spacing() {
    let mut gw = GuessWidth::new();
    gw.trim_space = false;
    let t = gw.read_all(lines(&["A  B", "1  2", "3  4"]));
    assert_eq!(t[0], lines(&["A ", " B"]));
}

#[test]
fn measured_split_follows_given_widths() {
    let line = "太郎    20";
    let narrow = split_measured(line, &vec![1; 8], &vec![7], true);
    assert_eq!(narrow, vec!["太郎    20".to_string(), "".to_string()]);
    let wide = split_measured(line, &vec![2, 2, 1, 1, 1, 1, 1, 1], &vec![7], true);
    assert_eq!(wide, vec!["太郎".to_string(), "20".to_string()]);
    assert_eq!(wide, split(line, &vec![7], true));
}

#[test]
fn measured_positions_follow_given_widths() {
    let sample = lines(&["NAME    AGE", "太郎    20", "bob     31"]);
    let narrow = vec![vec![1; 11], vec![1; 8], vec![1; 10]];
    assert_eq!(positions_measured(&sample, &narrow, 0, 2), vec![5]);
    let mut wide = narrow.clone();
    wide[1][0] = 2;
    wide[1][1] = 2;
    assert_eq!(positions_measured(&sample, &wide, 0, 2), vec![7]);
    assert_eq!(positions(&sample, 0, 2), vec![7]);
}
