use vless_encryption::number::{parse_number, split_bounds};
use vless_encryption::padding::{between, draw_for, padding_for, plan_padding, rand_between, Draw};
use vless_encryption::{create_padding, parse_padding, Padding};

fn error(text: &str) -> String {
    match parse_padding(text) {
        Ok(_) => panic!("accepted"),
        Err(e) => e,
    }
}

fn draws(list: &[(i64, i64)]) -> Vec<Draw> {
    list.iter().map(|d| Draw { chance: d.0, value: d.1 }).collect()
}

#[test]
fn parse_padding_rejects_short_first() {
    assert!(parse_padding("10-20-30").is_err());
    assert!(parse_padding("100-111-1111.75-0-111").is_ok());
    assert!(parse_padding("").is_ok());
}

#[test]
fn first_length_must_be_long_enough() {
    let message = "first padding length must not be smaller than 35";
    assert_eq!(error("10-20-30"), message);
    assert_eq!(error("99-35-35"), message);
    assert_eq!(error("100-34-35"), message);
    assert_eq!(error("100-35-34"), message);
    assert!(parse_padding("100-35-35").is_ok());
    // Only the first one.
    assert!(parse_padding("100-35-35.0-0-0.0-0-0").is_ok());
}

#[test]
fn segments_need_three_parts() {
    let message = |s: &str| format!("invalid padding length/gap parameter: {s}");
    assert_eq!(error("100-35"), message("100-35"));
    assert_eq!(error("100--35"), message("100--35"));
    assert_eq!(error("-100-35-35"), message("-100-35-35"));
    assert_eq!(error("100-35-"), message("100-35-"));
    assert_eq!(error("100-35-35."), message(""));
    assert_eq!(error("."), message(""));
    assert_eq!(error("100-35-35.1-2-3.ü-1"), message("ü-1"));
    // More than three are fine.
    assert!(parse_padding("100-35-35-7-x").is_ok());
}

#[test]
fn parts_must_be_numbers() {
    let message = |s: &str| format!("invalid padding number: {s}");
    assert_eq!(error("1x-2y-3z"), message("1x"));
    assert_eq!(error("100-2y-3z"), message("2y"));
    assert_eq!(error("100-35-3z"), message("3z"));
    assert_eq!(error("100-35-35.1- 2-3"), message(" 2"));
    assert_eq!(error("100-35-9223372036854775808"), message("9223372036854775808"));
    assert_eq!(error("100-35-+"), message("+"));
    assert!(parse_padding("+100-+35-035").is_ok());
}

#[test]
fn total_length_is_limited() {
    let message = "total padding length must not be larger than 65553";
    assert_eq!(error("100-35-65554"), message);
    assert_eq!(error("100-65554-35"), message);
    assert!(parse_padding("100-35-65553").is_ok());
    assert_eq!(error("100-35-65553.0-0-0.0-0-1"), message);
    // Gaps do not count.
    assert!(parse_padding("100-35-65553.0-0-9223372036854775807").is_ok());
    // Nor does it matter how far over it is.
    let most = "9223372036854775807";
    assert_eq!(error(&format!("100-35-{most}.0-0-0.0-0-{most}")), message);
    // What is wrong with a segment is said first.
    assert_eq!(error("100-35-65554.x"), "invalid padding length/gap parameter: x");
}

#[test]
fn numbers() {
    let parse = |s: &str| parse_number(&s.chars().collect::<Vec<char>>());
    for s in [
        "0", "7", "007", "+7", "-7", "-0", "9223372036854775807", "9223372036854775808",
        "-9223372036854775808", "-9223372036854775809", "99999999999999999999999", "", "+", "-",
        "+-1", "1 ", " 1", "1a", "\u{0663}", "12-3",
    ] {
        assert_eq!(parse(s), s.parse::<i64>().ok(), "{s}");
    }
}

#[test]
fn splitting() {
    for s in ["", ".", "a", "a.b", "a..b.", "..", "é.ü"] {
        let chars: Vec<char> = s.chars().collect();
        let got: Vec<String> = split_bounds(&chars, '.')
            .iter()
            .map(|b| chars[b.0..b.1].iter().collect())
            .collect();
        let want: Vec<String> = s.split('.').map(|p| p.to_string()).collect();
        assert_eq!(got, want);
    }
}

#[test]
fn plan_follows_the_draws() {
    let p = parse_padding("100-40-50.60-5-9.30-2-8").unwrap();
    // Used where the chance is at least the drawn percentage.
    let plan = plan_padding(&p, &draws(&[(99, 41), (30, 7)]), &draws(&[(60, 6)]));
    assert_eq!(plan, (48, vec![41, 7], vec![6]));
    let plan = plan_padding(&p, &draws(&[(0, 49), (31, 7)]), &draws(&[(61, 6)]));
    assert_eq!(plan, (49, vec![49, 0], vec![0]));
}

#[test]
fn an_empty_schedule_is_the_default_one() {
    for p in [Padding::default(), parse_padding("").unwrap()] {
        let plan = plan_padding(&p, &draws(&[(99, 1110), (50, 3332)]), &draws(&[(75, 110)]));
        assert_eq!(plan, (4442, vec![1110, 3332], vec![110]));
        let plan = plan_padding(&p, &draws(&[(99, 111), (51, 3332)]), &draws(&[(76, 110)]));
        assert_eq!(plan, (111, vec![111, 0], vec![0]));
    }
}

#[test]
fn clones_give_the_same_plan() {
    let p = parse_padding("100-40-50.60-5-9").unwrap();
    let len_draws = draws(&[(1, 44)]);
    let gap_draws = draws(&[(2, 8)]);
    assert_eq!(
        plan_padding(&p.clone(), &len_draws, &gap_draws),
        plan_padding(&p, &len_draws, &gap_draws)
    );
}

#[test]
fn created_padding_stays_in_range() {
    let default = Padding::default();
    let custom = parse_padding("100-40-50.100-5-5.0-2-8.99-3-1").unwrap();
    let mut seen_zero = false;
    let mut seen_more = false;
    for _ in 0..500 {
        let (length, lens, gaps) = create_padding(&default);
        assert_eq!(lens.len(), 2);
        assert_eq!(gaps.len(), 1);
        assert!((111..1111).contains(&lens[0]));
        assert!(lens[1] < 3333);
        assert!(gaps[0] < 111);
        assert_eq!(length, lens[0] + lens[1]);
        seen_zero |= lens[1] == 0;
        seen_more |= lens[1] > 0;
        let (length, lens, gaps) = create_padding(&custom);
        assert!((40..50).contains(&lens[0]));
        assert!(lens[1] < 8 && lens[1] != 1);
        // An empty range gives its lower end.
        assert_eq!(gaps, vec![5, 3]);
        assert_eq!(length, lens[0] + lens[1]);
        assert!(lens[0] >= 35 && length <= 65553);
    }
    assert!(seen_zero && seen_more);
}

#[test]
fn lengths_and_gaps_take_turns() {
    for n in 1..9usize {
        let text = vec!["100-40-50"; n].join(".");
        let (_, lens, gaps) = create_padding(&parse_padding(&text).unwrap());
        assert_eq!(lens.len(), (n + 1) / 2);
        assert_eq!(gaps.len(), n / 2);
    }
}

#[test]
fn draws_pick_from_the_range() {
    assert_eq!(between(10, 20, 0), 10);
    assert_eq!(between(10, 20, 9), 19);
    assert_eq!(between(10, 20, 10), 10);
    assert_eq!(between(10, 20, 12345), 15);
    assert_eq!(between(-5, 5, 7), 2);
    assert_eq!(between(0, i64::MAX, u64::MAX), 1);
    assert_eq!(between(5, 5, 3), 5);
    assert_eq!(between(7, 3, 3), 7);
}

#[test]
fn random_values_stay_in_the_range() {
    assert_eq!(rand_between(5, 5), 5);
    assert_eq!(rand_between(7, 3), 7);
    assert_eq!(rand_between(8, 9), 8);
    let mut seen = [false; 4];
    for _ in 0..1000 {
        seen[(rand_between(-2, 2) + 2) as usize] = true;
    }
    assert_eq!(seen, [true; 4]);
}

#[test]
fn words_make_a_draw() {
    let draw = |triple: [i64; 3], chance: u64, value: u64| {
        let d = draw_for(&triple, chance, value);
        (d.chance, d.value)
    };
    assert_eq!(draw([60, 5, 9], 0, 0), (0, 5));
    assert_eq!(draw([60, 5, 9], 60, 3), (60, 8));
    assert_eq!(draw([60, 5, 9], 160, 7), (60, 8));
    // Not used.
    assert_eq!(draw([60, 5, 9], 61, 3), (61, 5));
    assert_eq!(draw([60, 5, 9], 99, 3), (99, 5));
    // An empty range.
    assert_eq!(draw([100, 9, 5], 99, 3), (99, 9));
    assert_eq!(draw([100, 0, i64::MAX], u64::MAX, u64::MAX), (15, 1));
}

#[test]
fn words_make_the_padding() {
    let p = parse_padding("100-40-50.60-5-9.30-2-8").unwrap();
    assert_eq!(
        padding_for(&p, &vec![(99, 11), (130, 5)], &vec![(60, 9)]),
        (48, vec![41, 7], vec![6])
    );
    assert_eq!(
        padding_for(&p, &vec![(0, 9), (31, 5)], &vec![(61, 9)]),
        (49, vec![49, 0], vec![0])
    );
    // The empty schedule is the default one.
    assert_eq!(
        padding_for(&Padding::default(), &vec![(7, 1999), (50, 3333)], &vec![(175, 221)]),
        (1110, vec![1110, 0], vec![110])
    );
}
