use mailsync::error::ErrorKind;
use mailsync::sequence_set::{number_list, sequence_set_text, SequenceSet, StartEnd};

fn set(nr: Option<u32>, range: Option<(u32, u32)>, idx: Option<Vec<u32>>) -> SequenceSet {
    SequenceSet {
        nr_messages: nr,
        start_end: range.map(|(start, end)| StartEnd { start, end }),
        idx,
    }
}

#[test]
fn a_range_is_its_ends() {
    assert_eq!(sequence_set_text(&set(None, Some((1, 20)), None), 0).unwrap(), "1:20");
    assert_eq!(
        sequence_set_text(&set(None, Some((u32::MAX - 1, u32::MAX)), None), 7).unwrap(),
        "4294967294:4294967295"
    );
    assert_eq!(sequence_set_text(&set(None, Some((5, 5)), Some(vec![])), 0).unwrap(), "5:5");
}

#[test]
fn a_list_is_its_numbers() {
    assert_eq!(sequence_set_text(&set(None, None, Some(vec![3, 1, 20])), 0).unwrap(), "3,1,20");
    assert_eq!(sequence_set_text(&set(None, None, Some(vec![7])), 0).unwrap(), "7");
    assert_eq!(number_list(&vec![1, 2]).iter().collect::<String>(), "1,2");
    assert_eq!(number_list(&vec![]).iter().collect::<String>(), "");
}

#[test]
fn the_most_recent_messages_end_at_the_last() {
    assert_eq!(sequence_set_text(&set(Some(10), None, None), 45).unwrap(), "36:*");
    assert_eq!(sequence_set_text(&set(Some(45), None, None), 45).unwrap(), "1:*");
    assert_eq!(sequence_set_text(&set(Some(100), None, None), 45).unwrap(), "1:*");
    assert_eq!(sequence_set_text(&set(Some(1), None, None), 0).unwrap(), "1:*");
    assert_eq!(sequence_set_text(&set(Some(1), None, None), u32::MAX).unwrap(), "4294967295:*");
}

#[test]
fn an_empty_set_means_all() {
    assert_eq!(sequence_set_text(&set(None, None, None), 3).unwrap(), "1:*");
    assert_eq!(sequence_set_text(&set(None, None, Some(vec![])), 3).unwrap(), "1:*");
}

#[test]
fn only_one_way_at_a_time() {
    for s in [
        set(Some(1), Some((1, 2)), None),
        set(Some(1), None, Some(vec![1])),
        set(None, Some((1, 2)), Some(vec![1])),
        set(Some(1), Some((1, 2)), Some(vec![1])),
        set(Some(0), None, None),
    ] {
        let e = sequence_set_text(&s, 5).unwrap_err();
        assert_eq!(e.kind, ErrorKind::InvalidArgument);
        assert_eq!(e.to_string(), "Invalid sequence set");
    }
}
