use qrender::format::{display_value, format_time, time_fits};
use qrender::model::Value;

#[test]
fn time_truncates_to_precision() {
    assert_eq!(format_time("1899-01-01T00:00:00Z", Some(9)), "1899");
    assert_eq!(format_time("1899-06-01T00:00:00Z", Some(10)), "1899-06");
    assert_eq!(format_time("1899-06-15T00:00:00Z", Some(11)), "1899-06-15");
    assert_eq!(format_time("1899-06-15T00:00:00Z", None), "1899-06-15");
}

#[test]
fn negative_years_keep_sign() {
    assert_eq!(format_time("-0500-01-01T00:00:00Z", Some(9)), "-0500");
}

#[test]
fn coarser_precisions_show_the_year() {
    assert_eq!(format_time("+2001-03-11T00:00:00Z", Some(7)), "+2001");
}

#[test]
fn quantities_show_their_unit() {
    let v = Value::Quantity {
        amount: "8848".to_string(),
        raw: "+8848".to_string(),
        unit_qid: Some("Q11573".to_string()),
        unit_label: Some("metre".to_string()),
    };
    assert_eq!(display_value(&v), "+8848 metre");
    let t = Value::Time { iso: "1952-03-11T00:00:00Z".to_string(), precision: Some(11) };
    assert_eq!(display_value(&t), "1952-03-11");
}

#[test]
fn ascii_times_always_fit() {
    assert!(time_fits("1952-03-11T00:00:00Z", Some(9)));
    assert!(time_fits("1952", Some(11)));
}
