//! Timing-cursor behaviour for both container formats.

use karaoke_core::karaoke::{KaraokeCursor, KaraokeCursorTick};
use karaoke_core::ncn::{CurTick, NcnCursor};
use karaoke_core::tick::CurData;

#[test]
fn karaoke_test_sort() {
    let mut ticks = vec![
        KaraokeCursorTick::new(5),
        KaraokeCursorTick::new(4),
        KaraokeCursorTick::new(1),
        KaraokeCursorTick::new(2),
        KaraokeCursorTick::new(3),
    ];
    ticks.sort();
    assert_eq!(
        ticks,
        vec![
            KaraokeCursorTick::new(1),
            KaraokeCursorTick::new(2),
            KaraokeCursorTick::new(3),
            KaraokeCursorTick::new(4),
            KaraokeCursorTick::new(5)
        ]
    );
}

#[test]
fn karaoke_test_scroll_pos() {
    let mut cursor = KaraokeCursor::from(vec![1, 2, 3, 4, 5]);
    cursor.scroll(6);
    assert_eq!(cursor.last_scroll(), Some(KaraokeCursorTick::new(5)));
}

#[test]
fn ncn_test_sort() {
    let mut ticks = vec![
        CurTick::new(5),
        CurTick::new(4),
        CurTick::new(1),
        CurTick::new(2),
        CurTick::new(3),
    ];
    ticks.sort();
    assert_eq!(
        ticks,
        vec![
            CurTick::new(1),
            CurTick::new(2),
            CurTick::new(3),
            CurTick::new(4),
            CurTick::new(5)
        ]
    );
}

#[test]
fn ncn_test_scroll_pos() {
    let mut cursor = NcnCursor::new(vec![1, 2, 3, 4, 5]);
    cursor.scroll(6);
    assert_eq!(cursor.last_scroll(), Some(CurTick::new(5)));
}

#[test]
fn cursor_from_two_strides() {
    let cursor = NcnCursor::from_bytes(&vec![0x01, 0x00, 0xFF, 0xFF, 0x02, 0x00, 0xFF, 0xFF]);
    assert_eq!(cursor.len(), 2);
    assert_eq!(cursor.get(0), Some(CurTick::new(1)));
    assert_eq!(cursor.get(1), Some(CurTick::new(2)));
}

#[test]
fn cursor_from_partial_stride() {
    // A final stride of one byte contributes that byte as the low byte.
    let cursor = NcnCursor::from_bytes(&vec![0x10, 0x02, 0xFF, 0xFF, 0x07]);
    assert_eq!(cursor.len(), 2);
    assert_eq!(cursor.get(0), Some(CurTick::new(0x0210)));
    assert_eq!(cursor.get(1), Some(CurTick::new(7)));
}

#[test]
fn scroll_returns_latest_and_first_position() {
    let mut cursor = NcnCursor::new(vec![1, 2, 3, 4, 5]);
    let hit = cursor.scroll(6);
    assert_eq!(hit, Some(CurTick::new(5)));
    assert_eq!(cursor.pos(), 4);
    let miss = cursor.scroll(0);
    assert_eq!(miss, None);
    assert_eq!(cursor.pos(), 4);
}

#[test]
fn scroll_on_unsorted_storage() {
    // Storage order is not sorted; scroll still finds the latest tick at or
    // before the given time and points at its first occurrence.
    let mut cursor = NcnCursor::new(vec![30, 10, 20, 30, 5]);
    let hit = cursor.scroll(25);
    assert_eq!(hit, Some(CurTick::new(20)));
    assert_eq!(cursor.pos(), 2);
    let hit = cursor.scroll(40);
    assert_eq!(hit, Some(CurTick::new(30)));
    assert_eq!(cursor.pos(), 0);
}

#[test]
fn scroll_check_finds_exact_match() {
    let cursor = NcnCursor::new(vec![10, 20, 20, 30]);
    assert_eq!(cursor.scroll_check(20), Some(1));
    assert_eq!(cursor.scroll_check(15), None);
}

#[test]
fn scroll_to_is_bounds_checked() {
    let mut cursor = NcnCursor::new(vec![10, 20, 30]);
    assert_eq!(cursor.scroll_to(2), Some(CurTick::new(30)));
    assert_eq!(cursor.pos(), 2);
    assert_eq!(cursor.scroll_to(3), None);
    assert_eq!(cursor.pos(), 2);
}

#[test]
fn next_and_prev_do_not_wrap() {
    let mut cursor = NcnCursor::new(vec![10, 20, 30]);
    assert_eq!(cursor.prev(), None);
    assert_eq!(cursor.next(), Some(CurTick::new(20)));
    cursor.scroll_to(2);
    assert_eq!(cursor.prev(), Some(CurTick::new(20)));
    assert_eq!(cursor.next(), None);
}

#[test]
fn karaoke_cursor_lookups() {
    let mut cursor = KaraokeCursor::from(vec![7, 3, 7]);
    assert_eq!(cursor.len(), 3);
    assert_eq!(cursor.pos(), 0);
    assert_eq!(cursor.get(1), Some(KaraokeCursorTick::new(3)));
    assert_eq!(cursor.get(9), None);
    assert_eq!(cursor.scroll_check(7), Some(0));
    assert_eq!(cursor.scroll(5), Some(KaraokeCursorTick::new(3)));
    assert_eq!(cursor.pos(), 1);
    assert_eq!(cursor.prev(), Some(KaraokeCursorTick::new(7)));
    assert_eq!(cursor.next(), Some(KaraokeCursorTick::new(7)));
}

#[test]
fn cur_data_into_tick() {
    let cur = CurData::read(vec![0x01, 0x00, 0xAA, 0xBB, 0xFF, 0x01, 0xCC, 0xDD, 0x09]);
    assert_eq!(cur.into_tick(), vec![1, 0x01FF, 9]);
}
