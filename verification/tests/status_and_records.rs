use comick::prefs::{data_from_json, Field, HostValue, Record};
use comick::status::{manga_status, MangaStatus};

fn field(name: &str, value: HostValue) -> Field {
    Field { name: String::from(name), value }
}

fn text(value: &str) -> HostValue {
    HostValue::Text(String::from(value))
}

#[test]
fn status_one_is_ongoing_and_two_is_completed() {
    assert_eq!(manga_status(1), MangaStatus::Ongoing);
    assert_eq!(manga_status(2), MangaStatus::Completed);
}

#[test]
fn status_of_every_other_code_is_unknown() {
    for code in [0i64, -1, -2, 3, 4, 12, 21, 256 + 1, i64::MAX, i64::MIN, (1i64 << 32) + 1] {
        assert_eq!(manga_status(code), MangaStatus::Unknown);
    }
}

#[test]
fn record_field_that_is_a_string_is_returned() {
    let record = Record {
        fields: vec![field("title", text("One Piece")), field("slug", text("one-piece"))],
    };
    assert_eq!(data_from_json(&record, "slug"), "one-piece");
    assert_eq!(data_from_json(&record, "title"), "One Piece");
}

#[test]
fn record_field_that_is_absent_or_not_a_string_is_empty() {
    let record = Record {
        fields: vec![
            field("title", text("One Piece")),
            field("year", HostValue::Other),
            field("tags", HostValue::List(vec![Some(String::from("a"))])),
            field("cover", HostValue::Missing),
        ],
    };
    assert_eq!(data_from_json(&record, "desc"), "");
    assert_eq!(data_from_json(&record, "Title"), "");
    assert_eq!(data_from_json(&record, "year"), "");
    assert_eq!(data_from_json(&record, "tags"), "");
    assert_eq!(data_from_json(&record, "cover"), "");
    assert_eq!(data_from_json(&Record { fields: vec![] }, "title"), "");
}
