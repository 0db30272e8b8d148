use guesswidth::{positions, split, to_table, to_table_n, trim, GuessWidth};

fn lines(v: &[&str]) -> Vec<String> {
    v.iter().map(|s| s.to_string()).collect()
}

fn row(v: &[&str]) -> Vec<String> {
    lines(v)
}

fn ps_sample() -> Vec<String> {
    lines(&[
        "   PID TTY          TIME CMD",
        "302965 pts/3    00:00:11 zsh",
        "709737 pts/3    00:00:00 ps",
    ])
}

#[test]
fn basic_positions() {
    assert_eq!(positions(&ps_sample(), 0, 2), vec![6, 15, 24]);
}

#[test]
fn basic_table_trimmed() {
    let t = to_table(ps_sample(), 0, true);
    assert_eq!(
        t,
        vec![
            row(&["PID", "TTY", "TIME", "CMD"]),
            row(&["302965", "pts/3", "00:00:11", "zsh"]),
            row(&["709737", "pts/3", "00:00:00", "ps"]),
        ]
    );
}

#[test]
fn basic_table_untrimmed() {
    let t = to_table(ps_sample(), 0, false);
    assert_eq!(t[0], row(&["   PID", " TTY     ", "     TIME", " CMD"]));
    assert_eq!(t[1], row(&["302965", " pts/3   ", " 00:00:11", " zsh"]));
    for (r, l) in t.iter().zip(ps_sample().iter()) {
        assert_eq!(&r.concat(), l);
    }
}

#[test]
fn overflow_kept_whole() {
    let sample = lines(&[
        "ID  NAME  CMD",
        "1   aa    run",
        "2   bb    go",
        "3   longname go",
    ]);
    assert_eq!(positions(&sample, 0, 2), vec![3, 9]);
    let t = to_table(sample, 0, true);
    assert_eq!(t[1], row(&["1", "aa", "run"]));
    assert_eq!(t[3], row(&["3", "longname", "go"]));
}

#[test]
fn limit_split_two() {
    let t = to_table_n(ps_sample(), 0, 2, true);
    assert_eq!(t[0], row(&["PID", "TTY", "TIME CMD"]));
    assert_eq!(t[1], row(&["302965", "pts/3", "00:00:11 zsh"]));
}

#[test]
fn limit_split_zero_gives_one_field() {
    let t = to_table_n(ps_sample(), 0, 0, true);
    assert_eq!(t[0], row(&["PID TTY          TIME CMD"]));
}

#[test]
fn reader_limit_split() {
    let mut gw = GuessWidth::new();
    gw.limit_split = 2;
    let t = gw.read_all(ps_sample());
    assert_eq!(gw.pos, vec![6, 15]);
    assert_eq!(t[0], row(&["PID", "TTY", "TIME CMD"]));
}

#[test]
fn wide_glyphs_counted_in_cells() {
    let sample = lines(&["NAME    AGE", "太郎    20", "bob     31"]);
    assert_eq!(positions(&sample, 0, 2), vec![7]);
    let t = to_table(sample, 0, true);
    assert_eq!(t[1], row(&["太郎", "20"]));
    assert_eq!(t[2], row(&["bob", "31"]));
}

#[test]
fn same_input_same_output() {
    let a = to_table(ps_sample(), 0, true);
    let b = to_table(ps_sample(), 0, true);
    assert_eq!(a, b);
    assert_eq!(positions(&ps_sample(), 0, 2), positions(&ps_sample(), 0, 2));
}

#[test]
fn field_count_bounded() {
    let pos = vec![6, 15, 24];
    for l in ["", "ab", "302965 pts/3    00:00:11 zsh", "x abcdefg hi"] {
        assert!(split(l, &pos, true).len() <= pos.len() + 1);
    }
    assert_eq!(split("302965 pts/3    00:00:11 zsh", &pos, true).len(), 4);
    assert_eq!(split("ab", &pos, true).len(), 4);
    assert_eq!(split("x abcdefg hi", &vec![2, 5, 9], true).len(), 2);
}

#[test]
fn positions_strictly_increasing() {
    let sample = lines(&[
        "USER  PID  %CPU  COMMAND",
        "root  1    0.0   init",
        "me    42   1.5   bash -l",
    ]);
    let p = positions(&sample, 0, 2);
    assert!(!p.is_empty());
    for w in p.windows(2) {
        assert!(w[0] < w[1]);
    }
}

#[test]
fn trimming_twice_changes_nothing() {
    for r in to_table(ps_sample(), 0, true) {
        for f in r {
            assert_eq!(trim(&f), f);
        }
    }
}

#[test]
fn rows_follow_input_order() {
    let mut gw = GuessWidth::new();
    gw.scan_num = 2;
    let input = lines(&[
        "   PID TTY          TIME CMD",
        "302965 pts/3    00:00:11 zsh",
        "709737 pts/3    00:00:00 ps",
        "1 pts/4    00:00:01 vim",
    ]);
    let t = gw.read_all(input.clone());
    assert_eq!(t.len(), 4);
    assert_eq!(gw.pre_lines.len(), 2);
    for (r, l) in t.iter().zip(input.iter()) {
        assert_eq!(r, &split(l, &gw.pos, true));
    }
}
