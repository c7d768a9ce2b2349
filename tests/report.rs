use chat_stats::{calculate_percentage_difference, format_time};

#[test]
fn formats_hours_and_minutes() {
    assert_eq!(format_time(125), "2 hours and 5 minutes");
}

#[test]
fn formats_zero() {
    assert_eq!(format_time(0), "0 hours and 0 minutes");
}

#[test]
fn formats_under_an_hour() {
    assert_eq!(format_time(59), "0 hours and 59 minutes");
    assert_eq!(format_time(60), "1 hours and 0 minutes");
}

#[test]
fn formats_negative_by_truncation() {
    assert_eq!(format_time(-125), "-2 hours and -5 minutes");
    assert_eq!(format_time(-5), "0 hours and -5 minutes");
}

#[test]
fn formats_extremes() {
    assert_eq!(
        format_time(i128::MAX),
        format!("{} hours and {} minutes", i128::MAX / 60, i128::MAX % 60)
    );
    assert_eq!(
        format_time(i128::MIN),
        format!("{} hours and {} minutes", i128::MIN / 60, i128::MIN % 60)
    );
}

fn table(entries: &[(&str, usize)]) -> Vec<(String, usize)> {
    entries.iter().map(|(n, c)| (n.to_string(), *c)).collect()
}

#[test]
fn compares_two_authors() {
    let c = calculate_percentage_difference(&table(&[("alec", 120), ("ariel", 80)])).unwrap();
    assert_eq!(c.more, "alec");
    assert_eq!(c.more_count, 120);
    assert_eq!(c.fewer, "ariel");
    assert_eq!(c.fewer_count, 80);
    let total = (c.more_count + c.fewer_count) as f64;
    let diff = (c.more_count as f64 / total * 100.0 - c.fewer_count as f64 / total * 100.0).abs();
    assert_eq!(
        format!("{} sent {:.2}% more messages than {}!", c.more, diff, c.fewer),
        "alec sent 20.00% more messages than ariel!"
    );
}

#[test]
fn compares_in_either_order() {
    let c = calculate_percentage_difference(&table(&[("ariel", 80), ("alec", 120)])).unwrap();
    assert_eq!(c.more, "alec");
    assert_eq!(c.fewer, "ariel");
}

#[test]
fn no_comparison_for_three_authors() {
    assert!(calculate_percentage_difference(&table(&[("a", 3), ("b", 2), ("c", 1)])).is_none());
}

#[test]
fn no_comparison_for_one_or_none() {
    assert!(calculate_percentage_difference(&table(&[("a", 3)])).is_none());
    assert!(calculate_percentage_difference(&table(&[])).is_none());
}

#[test]
fn no_comparison_for_equal_counts() {
    assert!(calculate_percentage_difference(&table(&[("a", 4), ("b", 4)])).is_none());
}
