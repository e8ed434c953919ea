use beemo_joins::average_gap;
use beemo_joins::parse_join_dates;
use beemo_joins::ParseError;

const MS_PER_HOUR: i64 = 3_600_000;

#[test]
fn test_parse_valid_join_dates() {
    let text = "2022/01/01\n00:00:00.000+0000\n00:00:00.000+0000\n00:00:00.000+0000\n";
    let (join_difference, zero_difference_indexes, match_amount) = parse_join_dates(&text).unwrap();
    assert_eq!(join_difference.len(), 2);
    assert_eq!(zero_difference_indexes.len(), 2);
    assert_eq!(match_amount, 3);
}

#[test]
fn three_identical_stamps_exact_output() {
    let text = "2022/01/01\n00:00:00.000+0000\n00:00:00.000+0000\n00:00:00.000+0000\n";
    let (diffs, zeros, count) = parse_join_dates(text).unwrap();
    assert_eq!(diffs, vec![0, 0]);
    assert_eq!(zeros, vec![1, 2]);
    assert_eq!(count, 3);
}

#[test]
fn anchor_without_stamps_is_no_stamps_found() {
    let text = "2022/01/01\n";
    assert_eq!(parse_join_dates(text), Err(ParseError::NoStampsFound));
}

#[test]
fn missing_anchor_is_no_anchor_found() {
    let text = "nothing dated here, 00:00:00.000+0000 notwithstanding\n";
    assert_eq!(parse_join_dates(text), Err(ParseError::NoAnchorFound));
}

#[test]
fn empty_input_is_no_anchor_found() {
    assert_eq!(parse_join_dates(""), Err(ParseError::NoAnchorFound));
}

#[test]
fn exact_gap_within_one_day() {
    // 01:02:03.456 - 00:00:00.000 = 3723456 ms
    let text = "2022/01/01\n00:00:00.000+0000\n01:02:03.456+0000\n";
    let (diffs, zeros, count) = parse_join_dates(text).unwrap();
    assert_eq!(diffs, vec![3_723_456]);
    assert_eq!(zeros, Vec::<i64>::new());
    assert_eq!(count, 2);
}

#[test]
fn legacy_offset_is_corrected_by_fourteen_hours_total() {
    // A `-0700` stamp sits seven hours after its naive UTC conversion, which
    // itself is seven hours after the same wall clock read as `+0000`.
    let text = "2022/01/01\n00:00:00.000+0000\n00:00:00.000-0700\n";
    let (diffs, _zeros, count) = parse_join_dates(text).unwrap();
    assert_eq!(diffs, vec![14 * MS_PER_HOUR]);
    assert_eq!(count, 2);
}

#[test]
fn nearby_negative_offset_is_not_corrected() {
    // `-0800` gets only the standard conversion: eight hours, no correction.
    let text = "2022/01/01\n00:00:00.000+0000\n00:00:00.000-0800\n";
    let (diffs, _zeros, _count) = parse_join_dates(text).unwrap();
    assert_eq!(diffs, vec![8 * MS_PER_HOUR]);
}

#[test]
fn positive_offset_subtracts_from_wall_clock() {
    // 00:00+0130 is 22:30 UTC of the previous day: 90 minutes before the
    // anchor midnight; the next stamp at 03:00 UTC is 16200000 ms later.
    let text = "2022/01/01\n00:00:00.000+0130\n03:00:00.000+0000\n";
    let (diffs, _zeros, _count) = parse_join_dates(text).unwrap();
    assert_eq!(diffs, vec![16_200_000]);
}

#[test]
fn out_of_order_stamp_is_dropped_but_counted() {
    let text = "2022/01/01\n01:00:00.000+0000\n00:00:00.000+0000\n02:00:00.000+0000\n";
    let (diffs, zeros, count) = parse_join_dates(text).unwrap();
    assert_eq!(diffs, vec![2 * MS_PER_HOUR]);
    assert_eq!(zeros, Vec::<i64>::new());
    assert_eq!(count, 3);
}

#[test]
fn zero_gap_index_counts_position_in_full_stamp_sequence() {
    // The first delta is negative and dropped; the zero gap between stamps
    // 1 and 2 is recorded under index 2, its place among all stamps.
    let text = "2022/01/01\n02:00:00.000+0000\n01:00:00.000+0000\n01:00:00.000+0000\n";
    let (diffs, zeros, count) = parse_join_dates(text).unwrap();
    assert_eq!(diffs, vec![0]);
    assert_eq!(zeros, vec![2]);
    assert_eq!(count, 3);
}

#[test]
fn engine_is_idempotent() {
    let text = "2022/01/01\n00:00:00.000-0700\n01:00:00.000+0000\njunk 99:99:99.999+9999\n";
    let first = parse_join_dates(text);
    let second = parse_join_dates(text);
    assert_eq!(first, second);
}

#[test]
fn unparsable_hour_aborts_with_the_combined_string() {
    let text = "2022/01/01\n00:00:00.000+0000\n25:00:00.000+0000\n";
    assert_eq!(
        parse_join_dates(text),
        Err(ParseError::UnparsableTimestamp("2022/01/01T25:00:00.000+0000".to_string()))
    );
}

#[test]
fn legacy_comma_sign_matches_but_never_parses() {
    let text = "2022/01/01\n00:00:00.000,0000\n";
    assert_eq!(
        parse_join_dates(text),
        Err(ParseError::UnparsableTimestamp("2022/01/01T00:00:00.000,0000".to_string()))
    );
}

#[test]
fn offset_minutes_above_59_do_not_parse() {
    let text = "2022/01/01\n00:00:00.000+0060\n00:00:00.000+0000\n";
    assert_eq!(
        parse_join_dates(text),
        Err(ParseError::UnparsableTimestamp("2022/01/01T00:00:00.000+0060".to_string()))
    );
}

#[test]
fn offset_of_twenty_four_hours_does_not_parse() {
    let text = "2022/01/01\n00:00:00.000+2400\n";
    assert_eq!(
        parse_join_dates(text),
        Err(ParseError::UnparsableTimestamp("2022/01/01T00:00:00.000+2400".to_string()))
    );
}

#[test]
fn largest_valid_offset_parses() {
    let text = "2022/01/01\n00:00:00.000+2359\n00:00:00.000+0000\n";
    let (diffs, _zeros, _count) = parse_join_dates(text).unwrap();
    assert_eq!(diffs, vec![86_340_000]);
}

#[test]
fn leap_second_stamp_parses_like_the_following_midnight() {
    let text = "2022/01/01\n23:59:59.000+0000\n23:59:60.000+0000\n";
    let (diffs, _zeros, count) = parse_join_dates(text).unwrap();
    assert_eq!(diffs, vec![1000]);
    assert_eq!(count, 2);
}

#[test]
fn leap_day_of_a_leap_year_parses() {
    let text = "2020/02/29\n12:00:00.000+0000\n12:00:00.000+0000\n";
    let (diffs, zeros, count) = parse_join_dates(text).unwrap();
    assert_eq!(diffs, vec![0]);
    assert_eq!(zeros, vec![1]);
    assert_eq!(count, 2);
}

#[test]
fn leap_day_of_a_common_year_does_not_parse() {
    let text = "2021/02/29\n12:00:00.000+0000\n";
    assert_eq!(
        parse_join_dates(text),
        Err(ParseError::UnparsableTimestamp("2021/02/29T12:00:00.000+0000".to_string()))
    );
}

#[test]
fn only_the_first_anchor_counts_even_when_invalid() {
    // A date-shaped token with month 99 precedes a valid date; the first
    // match is the anchor, so every stamp fails to combine with it.
    let text = "9999/99/99 then 2022/01/01\n00:00:00.000+0000\n00:00:00.000+0000\n";
    assert_eq!(
        parse_join_dates(text),
        Err(ParseError::UnparsableTimestamp("9999/99/99T00:00:00.000+0000".to_string()))
    );
}

#[test]
fn stamps_overlapping_text_are_found_in_document_order() {
    let text = "2022/01/01 joined at 10:00:00.000+0000, again 10:00:01.500+0000.";
    let (diffs, zeros, count) = parse_join_dates(text).unwrap();
    assert_eq!(diffs, vec![1500]);
    assert_eq!(zeros, Vec::<i64>::new());
    assert_eq!(count, 2);
}

#[test]
fn average_of_no_samples_is_reported_distinctly() {
    assert_eq!(average_gap(&Vec::new()), None);
}

#[test]
fn average_rounds_down() {
    assert_eq!(average_gap(&vec![1, 2, 4]), Some(2));
}

#[test]
fn average_of_single_sample_is_the_sample() {
    assert_eq!(average_gap(&vec![5]), Some(5));
}

#[test]
fn average_of_zero_gaps_is_zero() {
    assert_eq!(average_gap(&vec![0, 0]), Some(0));
}
