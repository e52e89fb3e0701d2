use markermaker::edl::{encode, file_name};
use markermaker::marker::{Marker, MarkerError, MarkerStore};

#[test]
fn record_of_first_marker() {
    let m = Marker::new(70_000, "Mark1".to_string());
    assert_eq!(
        m.to_edl(1),
        "001 001 V C 01:01:10:00 01:01:10:01 01:01:10:00 01:01:10:01\n |C:ResolveColorBlue |M:Mark1 |D:1\n"
    );
}

#[test]
fn record_index_grows_past_three_digits() {
    let m = Marker::new(0, "X".to_string());
    assert_eq!(
        m.to_edl(1000),
        "1000 001 V C 01:00:00:00 01:00:00:01 01:00:00:00 01:00:00:01\n |C:ResolveColorBlue |M:X |D:1\n"
    );
    assert!(m.to_edl(42).starts_with("042 001 V C "));
}

#[test]
fn record_keeps_name_verbatim() {
    let m = Marker::new(1_000, "".to_string());
    assert_eq!(
        m.to_edl(7),
        "007 001 V C 01:00:01:00 01:00:01:01 01:00:01:00 01:00:01:01\n |C:ResolveColorBlue |M: |D:1\n"
    );
}

#[test]
fn encode_of_no_markers_is_empty() {
    assert_eq!(encode(&Vec::new()), "");
}

#[test]
fn encode_numbers_records_in_order() {
    let ms = vec![
        Marker::new(0, "a".to_string()),
        Marker::new(3_661_000, "b".to_string()),
    ];
    assert_eq!(
        encode(&ms),
        "001 001 V C 01:00:00:00 01:00:00:01 01:00:00:00 01:00:00:01\n |C:ResolveColorBlue |M:a |D:1\n\
         002 001 V C 02:01:01:00 02:01:01:01 02:01:01:00 02:01:01:01\n |C:ResolveColorBlue |M:b |D:1\n"
    );
}

#[test]
fn encode_twice_gives_same_text() {
    let ms = vec![
        Marker::new(5_000, "one".to_string()),
        Marker::new(9_000, "two".to_string()),
    ];
    assert_eq!(encode(&ms), encode(&ms));
}

#[test]
fn file_name_is_start_seconds_with_extension() {
    assert_eq!(file_name(1_700_000_000), "1700000000.edl");
    assert_eq!(file_name(0), "0.edl");
}

#[test]
fn store_append_rename_clear() {
    let mut st = MarkerStore::new();
    assert_eq!(st.len(), 0);
    st.append(1_000, "a".to_string());
    st.append(2_000, "b".to_string());
    assert_eq!(st.len(), 2);
    assert_eq!(st.rename(1, "c".to_string()), Ok(()));
    assert_eq!(st.snapshot()[1].name, "c");
    assert_eq!(st.snapshot()[1].time_ms, 2_000);
    assert_eq!(st.snapshot()[0].name, "a");
    assert_eq!(st.rename(2, "d".to_string()), Err(MarkerError::NotFound));
    st.clear();
    assert_eq!(st.len(), 0);
}
