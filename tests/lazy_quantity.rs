use csv::ByteRecord;
use radvisor::buffer::Buffer;
use radvisor::lazy_quantity::LazyQuantity;

fn render(q: LazyQuantity) -> Vec<u8> {
    let mut buf = Buffer::new();
    let n = q.write_to(&mut buf);
    assert_eq!(n, buf.len());
    buf.content().to_vec()
}

fn fold(values: &[&[u8]]) -> LazyQuantity {
    let mut q = LazyQuantity::Zero;
    for v in values {
        q = q.plus(v);
    }
    q
}

#[test]
fn zero_renders_as_zero() {
    assert_eq!(render(LazyQuantity::Zero), b"0".to_vec());
    assert_eq!(render(LazyQuantity::default()), b"0".to_vec());
}

#[test]
fn single_value_is_verbatim() {
    assert_eq!(render(fold(&[b"0042"])), b"0042".to_vec());
    assert_eq!(render(fold(&[b"12 extra"])), b"12 extra".to_vec());
    assert_eq!(render(fold(&[b"not a number"])), b"not a number".to_vec());
    assert_eq!(render(fold(&[b""])), b"".to_vec());
}

#[test]
fn two_values_are_summed() {
    assert_eq!(render(fold(&[b"0042", b"8"])), b"50".to_vec());
    assert_eq!(render(fold(&[b"1", b"2", b"3", b"4"])), b"10".to_vec());
}

#[test]
fn text_with_non_digits_is_rejected_not_truncated() {
    let q = fold(&[b"1", b"1", b"12abc"]);
    assert!(matches!(q, LazyQuantity::Aggregate(2)));
    let q = fold(&[b"1", b"1", b"1a"]);
    assert!(matches!(q, LazyQuantity::Aggregate(2)));
    let q = fold(&[b"1a", b"1"]);
    assert!(matches!(q, LazyQuantity::Single(ref v) if v == b"1"));
    let q = fold(&[b"10\n", b"5 "]);
    assert!(matches!(q, LazyQuantity::Single(ref v) if v == b"5 "));
    let q = fold(&[b"4", b""]);
    assert!(matches!(q, LazyQuantity::Aggregate(4)));
}

#[test]
fn sum_saturates_at_maximum() {
    let max = u64::MAX.to_string();
    let q = fold(&[max.as_bytes(), b"1"]);
    assert!(matches!(q, LazyQuantity::Aggregate(n) if n == u64::MAX));
    assert_eq!(render(q), max.as_bytes().to_vec());
    let q = fold(&[b"18446744073709551000", b"1000", b"7"]);
    assert_eq!(render(q), max.as_bytes().to_vec());
}

#[test]
fn overflowing_literal_is_rejected() {
    let q = fold(&[b"18446744073709551616", b"3"]);
    assert!(matches!(q, LazyQuantity::Single(ref v) if v == b"3"));
    let q = fold(&[b"5", b"18446744073709551616"]);
    assert!(matches!(q, LazyQuantity::Aggregate(5)));
}

#[test]
fn malformed_middle_value_is_skipped() {
    let q = fold(&[b"12", b"abc", b"5"]);
    assert!(matches!(q, LazyQuantity::Aggregate(17)));
    assert_eq!(render(q), b"17".to_vec());
}

#[test]
fn unparseable_lone_value_is_replaced() {
    let q = fold(&[b"abc", b"9"]);
    assert!(matches!(q, LazyQuantity::Single(ref v) if v == b"9"));
    assert_eq!(render(q), b"9".to_vec());
}

#[test]
fn signs_are_not_digits() {
    let q = fold(&[b"+4", b"-2"]);
    assert!(matches!(q, LazyQuantity::Single(ref v) if v == b"-2"));
}

#[test]
fn write_to_appends_to_buffer() {
    let mut buf = Buffer::new();
    assert_eq!(buf.write(b"ab"), 2);
    let n = fold(&[b"7", b"8"]).write_to(&mut buf);
    assert_eq!(n, 2);
    assert_eq!(buf.content(), b"ab15");
    buf.clear();
    assert_eq!(buf.len(), 0);
}

#[test]
fn record_fields_are_identical_for_equal_states() {
    let mut working = Buffer::new();
    let mut record = ByteRecord::new();
    for _ in 0..3 {
        fold(&[b"20", b"22"]).write_to_record(&mut working, &mut record);
        assert_eq!(working.len(), 0);
        working.clear();
    }
    fold(&[b"0042"]).write_to_record(&mut working, &mut record);
    LazyQuantity::Zero.write_to_record(&mut working, &mut record);
    assert_eq!(record.len(), 5);
    assert_eq!(&record[0], b"42");
    assert_eq!(&record[1], b"42");
    assert_eq!(&record[2], b"42");
    assert_eq!(&record[3], b"0042");
    assert_eq!(&record[4], b"0");
}

#[test]
fn stale_scratch_content_does_not_leak_into_record() {
    let mut working = Buffer::new();
    working.write(b"stale");
    let mut record = ByteRecord::new();
    fold(&[b"1"]).write_to_record(&mut working, &mut record);
    assert_eq!(&record[0], b"1");
    assert_eq!(working.len(), 0);
}
