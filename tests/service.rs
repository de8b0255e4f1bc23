use snowpuzzles::{
    batch_slice, contest, decimal_text, greeting, parse_i64, parse_path, strength_sum, xor_cube,
    xor_cube_value, winner_index, Attribute, BatchOutput, BatchQuery, ContestUser, RequestError,
    StrengthRecord,
};

fn strings(items: &[&str]) -> Vec<String> {
    items.iter().map(|s| s.to_string()).collect()
}

fn user(name: &str, strength: i64, speed: f64, height: i64, antler: i64, magic: i64, food: &str, candies: u64) -> ContestUser {
    ContestUser {
        name: name.to_string(),
        strength,
        speed_bits: speed.to_bits(),
        height,
        snow_magic_power: magic,
        favorite_food: food.to_string(),
        antler_width: antler,
        candies_eaten_yesterday: candies,
    }
}

fn query(offset: Option<usize>, limit: Option<usize>, split: Option<usize>) -> BatchQuery {
    BatchQuery { offset, limit, split }
}

fn flat(out: Result<BatchOutput, RequestError>) -> Vec<String> {
    match out {
        Ok(BatchOutput::Flat(v)) => v,
        Ok(BatchOutput::Chunks(_)) => panic!("expected a flat list"),
        Err(e) => panic!("unexpected error {:?}", e),
    }
}

fn chunks(out: Result<BatchOutput, RequestError>) -> Vec<Vec<String>> {
    match out {
        Ok(BatchOutput::Chunks(v)) => v,
        Ok(BatchOutput::Flat(_)) => panic!("expected chunks"),
        Err(e) => panic!("unexpected error {:?}", e),
    }
}

#[test]
fn greeting_text() {
    assert_eq!(greeting(), "Hello, world!");
}

#[test]
fn decimal_text_values() {
    assert_eq!(decimal_text(0), "0");
    assert_eq!(decimal_text(1728), "1728");
    assert_eq!(decimal_text(-27), "-27");
    assert_eq!(decimal_text(i64::MAX), "9223372036854775807");
    assert_eq!(decimal_text(i64::MIN), "-9223372036854775808");
}

#[test]
fn parse_i64_accepts_and_refuses() {
    assert_eq!(parse_i64("42"), Some(42));
    assert_eq!(parse_i64("+7"), Some(7));
    assert_eq!(parse_i64("-15"), Some(-15));
    assert_eq!(parse_i64("007"), Some(7));
    assert_eq!(parse_i64("9223372036854775807"), Some(i64::MAX));
    assert_eq!(parse_i64("-9223372036854775808"), Some(i64::MIN));
    assert_eq!(parse_i64("9223372036854775808"), None);
    assert_eq!(parse_i64("-9223372036854775809"), None);
    assert_eq!(parse_i64("123456789012345678901234567890"), None);
    assert_eq!(parse_i64(""), None);
    assert_eq!(parse_i64("-"), None);
    assert_eq!(parse_i64("+"), None);
    assert_eq!(parse_i64("1a"), None);
    assert_eq!(parse_i64(" 1"), None);
}

#[test]
fn parse_path_pieces() {
    assert_eq!(parse_path("4/8"), Ok(vec![4, 8]));
    assert_eq!(parse_path(""), Ok(vec![]));
    assert_eq!(parse_path("-3"), Ok(vec![-3]));
    assert_eq!(parse_path("4/x"), Err(RequestError::InvalidSegment));
    assert_eq!(parse_path("4/8/"), Err(RequestError::InvalidSegment));
    assert_eq!(parse_path("/4"), Err(RequestError::InvalidSegment));
    assert_eq!(parse_path("4//8"), Err(RequestError::InvalidSegment));
}

#[test]
fn xor_cube_example() {
    assert_eq!(xor_cube("4/8"), Ok(1728));
    assert_eq!(decimal_text(xor_cube("4/8").unwrap()), "1728");
}

#[test]
fn xor_cube_no_segments_is_one() {
    assert_eq!(xor_cube(""), Ok(1));
    assert_eq!(xor_cube_value(&vec![]), Ok(1));
}

#[test]
fn xor_cube_single_and_many() {
    assert_eq!(xor_cube("10"), Ok(1000));
    assert_eq!(xor_cube("4/5/8/10"), Ok(27));
    assert_eq!(xor_cube("-3"), Ok(-27));
    assert_eq!(xor_cube("5/5"), Ok(0));
    assert_eq!(xor_cube_value(&vec![1, 2, 4]), Ok(343));
}

#[test]
fn xor_cube_bad_segment() {
    assert_eq!(xor_cube("4/eight"), Err(RequestError::InvalidSegment));
    assert_eq!(xor_cube("99999999999999999999"), Err(RequestError::InvalidSegment));
}

#[test]
fn xor_cube_overflow() {
    assert_eq!(xor_cube("2097152"), Err(RequestError::Overflow));
    assert_eq!(xor_cube("3037000500"), Err(RequestError::Overflow));
    assert_eq!(xor_cube("-2097152"), Ok(i64::MIN));
    assert_eq!(xor_cube("2097151"), Ok(2097151i64 * 2097151 * 2097151));
}

#[test]
fn strength_example() {
    let records = vec![StrengthRecord { strength: 5 }, StrengthRecord { strength: 10 }];
    let total = strength_sum(&records);
    assert_eq!(total, Ok(15));
    assert_eq!(decimal_text(total.unwrap()), "15");
}

#[test]
fn strength_empty_is_zero() {
    assert_eq!(strength_sum(&vec![]), Ok(0));
    assert_eq!(decimal_text(strength_sum(&vec![]).unwrap()), "0");
}

#[test]
fn strength_order_does_not_matter() {
    let a: Vec<StrengthRecord> = [3, -7, 11, 0].iter().map(|&s| StrengthRecord { strength: s }).collect();
    let b: Vec<StrengthRecord> = [11, 0, 3, -7].iter().map(|&s| StrengthRecord { strength: s }).collect();
    assert_eq!(strength_sum(&a), Ok(7));
    assert_eq!(strength_sum(&a), strength_sum(&b));
}

#[test]
fn strength_exact_partial_sums() {
    let records = vec![
        StrengthRecord { strength: i64::MAX },
        StrengthRecord { strength: 1 },
        StrengthRecord { strength: -1 },
    ];
    assert_eq!(strength_sum(&records), Ok(i64::MAX));
}

#[test]
fn strength_overflow() {
    let records = vec![StrengthRecord { strength: i64::MAX }, StrengthRecord { strength: 1 }];
    assert_eq!(strength_sum(&records), Err(RequestError::Overflow));
    let low = vec![StrengthRecord { strength: i64::MIN }, StrengthRecord { strength: -1 }];
    assert_eq!(strength_sum(&low), Err(RequestError::Overflow));
}

#[test]
fn contest_example() {
    let users = vec![
        user("Dasher", 5, 50.4, 80, 36, 9001, "hay", 2),
        user("Dancer", 6, 48.2, 65, 37, 4004, "grass", 5),
    ];
    let r = contest(&users).unwrap();
    assert_eq!(r.fastest, "Speeding past the finish line with a strength of 5 is Dasher");
    assert_eq!(r.tallest, "Dasher is standing tall with his 36 cm wide antlers");
    assert_eq!(r.magician, "Dasher could blast you away with a snow magic power of 9001");
    assert_eq!(r.consumer, "Dancer ate lots of candies, but also some grass");
}

#[test]
fn contest_ties_go_to_the_earliest() {
    let users = vec![
        user("A", 1, 10.0, 7, 1, 3, "hay", 4),
        user("B", 2, 10.0, 7, 2, 3, "oats", 4),
    ];
    let r = contest(&users).unwrap();
    assert_eq!(r.fastest, "Speeding past the finish line with a strength of 1 is A");
    assert_eq!(r.tallest, "A is standing tall with his 1 cm wide antlers");
    assert_eq!(r.magician, "A could blast you away with a snow magic power of 3");
    assert_eq!(r.consumer, "A ate lots of candies, but also some hay");
}

#[test]
fn contest_later_strict_maximum_wins() {
    let users = vec![
        user("A", 1, 1.0, 1, 10, -5, "hay", 0),
        user("B", 2, 2.5, 3, 20, -2, "oats", 9),
        user("C", -4, 2.0, 2, 30, -3, "moss", 8),
    ];
    let r = contest(&users).unwrap();
    assert_eq!(r.fastest, "Speeding past the finish line with a strength of 2 is B");
    assert_eq!(r.tallest, "B is standing tall with his 20 cm wide antlers");
    assert_eq!(r.magician, "B could blast you away with a snow magic power of -2");
    assert_eq!(r.consumer, "B ate lots of candies, but also some oats");
}

#[test]
fn contest_speed_order_follows_floats() {
    let users = vec![
        user("Slow", 0, -2.0, 0, 0, 0, "a", 0),
        user("Less", 0, -1.5, 0, 0, 0, "b", 0),
    ];
    assert_eq!(winner_index(&users, Attribute::Speed), 1);
    let zeros = vec![user("Neg", 0, -0.0, 0, 0, 0, "a", 0), user("Pos", 0, 0.0, 0, 0, 0, "b", 0)];
    assert_eq!(winner_index(&zeros, Attribute::Speed), 0);
    let inf = vec![
        user("Big", 0, 1.0e300, 0, 0, 0, "a", 0),
        user("Inf", 0, f64::INFINITY, 0, 0, 0, "b", 0),
        user("Tiny", 0, 5.0e-324, 0, 0, 0, "c", 0),
    ];
    assert_eq!(winner_index(&inf, Attribute::Speed), 1);
    let mixed = vec![user("Neg", 0, -3.0, 0, 0, 0, "a", 0), user("Zero", 0, 0.0, 0, 0, 0, "b", 0)];
    assert_eq!(winner_index(&mixed, Attribute::Speed), 1);
}

#[test]
fn contest_winner_per_attribute() {
    let users = vec![
        user("A", 0, 1.0, 9, 0, 1, "a", u64::MAX),
        user("B", 0, 2.0, 3, 0, 8, "b", 1),
    ];
    assert_eq!(winner_index(&users, Attribute::Speed), 1);
    assert_eq!(winner_index(&users, Attribute::Height), 0);
    assert_eq!(winner_index(&users, Attribute::SnowMagicPower), 1);
    assert_eq!(winner_index(&users, Attribute::CandiesEatenYesterday), 0);
}

#[test]
fn contest_empty_is_refused() {
    assert!(matches!(contest(&vec![]), Err(RequestError::EmptyContest)));
}

#[test]
fn contest_nan_is_refused() {
    let users = vec![user("A", 0, 1.0, 0, 0, 0, "a", 0), user("B", 0, f64::NAN, 0, 0, 0, "b", 0)];
    assert!(matches!(contest(&users), Err(RequestError::SpeedIsNan)));
}

#[test]
fn batch_example_with_split() {
    let payload = strings(&["a", "b", "c", "d", "e"]);
    let out = chunks(batch_slice(&payload, query(Some(1), Some(4), Some(2))));
    assert_eq!(out, vec![strings(&["b", "c"]), strings(&["d", "e"])]);
}

#[test]
fn batch_flat_window() {
    let payload = strings(&["a", "b", "c", "d", "e"]);
    assert_eq!(flat(batch_slice(&payload, query(Some(1), Some(3), None))), strings(&["b", "c", "d"]));
    assert_eq!(flat(batch_slice(&payload, query(None, None, None))), payload);
    assert_eq!(flat(batch_slice(&payload, query(Some(2), None, None))), strings(&["c", "d", "e"]));
    assert_eq!(flat(batch_slice(&payload, query(None, Some(2), None))), strings(&["a", "b"]));
    assert_eq!(flat(batch_slice(&payload, query(Some(5), None, None))), strings(&[]));
}

#[test]
fn batch_zero_window_is_empty() {
    let payload = strings(&["a", "b"]);
    assert_eq!(flat(batch_slice(&payload, query(Some(0), Some(0), None))), strings(&[]));
    assert!(chunks(batch_slice(&payload, query(Some(0), Some(0), Some(3)))).is_empty());
    assert_eq!(flat(batch_slice(&vec![], query(Some(0), Some(0), None))), strings(&[]));
}

#[test]
fn batch_large_split_gives_one_chunk() {
    let payload = strings(&["a", "b", "c", "d", "e"]);
    let out = chunks(batch_slice(&payload, query(Some(1), Some(3), Some(10))));
    assert_eq!(out, vec![strings(&["b", "c", "d"])]);
}

#[test]
fn batch_uneven_chunks() {
    let payload = strings(&["a", "b", "c", "d", "e", "f", "g"]);
    let out = chunks(batch_slice(&payload, query(None, None, Some(3))));
    assert_eq!(out, vec![strings(&["a", "b", "c"]), strings(&["d", "e", "f"]), strings(&["g"])]);
    let ones = chunks(batch_slice(&payload, query(Some(5), None, Some(1))));
    assert_eq!(ones, vec![strings(&["f"]), strings(&["g"])]);
}

#[test]
fn batch_out_of_bounds() {
    let payload = strings(&["a", "b", "c"]);
    assert!(matches!(batch_slice(&payload, query(Some(1), Some(3), None)), Err(RequestError::OutOfBounds)));
    assert!(matches!(batch_slice(&payload, query(Some(4), None, None)), Err(RequestError::OutOfBounds)));
    assert!(matches!(batch_slice(&payload, query(None, Some(4), Some(2))), Err(RequestError::OutOfBounds)));
    assert!(matches!(batch_slice(&payload, query(Some(usize::MAX), Some(usize::MAX), None)), Err(RequestError::OutOfBounds)));
}

#[test]
fn batch_zero_split() {
    let payload = strings(&["a", "b", "c"]);
    assert!(matches!(batch_slice(&payload, query(None, None, Some(0))), Err(RequestError::ZeroSplit)));
    assert!(matches!(batch_slice(&payload, query(Some(4), None, Some(0))), Err(RequestError::OutOfBounds)));
}
