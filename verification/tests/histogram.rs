use butterbrot::histogram::{FrameMismatch, Histogram, OutOfFrame, Pixel};

fn px(column: u64, row: u64) -> Pixel {
    Pixel { column, row }
}

#[test]
fn new_is_zeroed_with_header() {
    let h = Histogram::new(3, 2).unwrap();
    assert_eq!(h.as_slots(), &vec![3, 2, 0, 0, 0, 0, 0, 0]);
    assert_eq!(h.width(), 3);
    assert_eq!(h.height(), 2);
}

#[test]
fn new_of_empty_frame_has_only_header() {
    assert_eq!(Histogram::new(0, 0).unwrap().into_slots(), vec![0, 0]);
    assert_eq!(Histogram::new(7, 0).unwrap().into_slots(), vec![7, 0]);
}

#[test]
fn new_refuses_what_cannot_be_addressed() {
    assert!(Histogram::new(u64::MAX, 2).is_none());
    assert!(Histogram::new(u64::MAX, 1).is_none());
    assert!(Histogram::new(1 << 40, 1 << 40).is_none());
}

#[test]
fn from_slots_checks_declared_size() {
    assert!(Histogram::from_slots(vec![2, 2, 1, 2, 3, 4]).is_some());
    assert!(Histogram::from_slots(vec![0, 9]).is_some());
    assert!(Histogram::from_slots(vec![]).is_none());
    assert!(Histogram::from_slots(vec![1]).is_none());
    assert!(Histogram::from_slots(vec![2, 2, 1, 2, 3]).is_none());
    assert!(Histogram::from_slots(vec![2, 2, 1, 2, 3, 4, 5]).is_none());
    assert!(Histogram::from_slots(vec![u64::MAX, u64::MAX]).is_none());
    // 2^32 * 2^32 wraps to 0 in 64 bits; the declared size is still wrong.
    assert!(Histogram::from_slots(vec![1 << 32, 1 << 32]).is_none());
}

#[test]
fn count_reads_row_major() {
    let h = Histogram::from_slots(vec![3, 2, 10, 11, 12, 20, 21, 22]).unwrap();
    assert_eq!(h.count(0, 0), Some(10));
    assert_eq!(h.count(2, 0), Some(12));
    assert_eq!(h.count(0, 1), Some(20));
    assert_eq!(h.count(2, 1), Some(22));
    assert_eq!(h.count(3, 0), None);
    assert_eq!(h.count(0, 2), None);
}

#[test]
fn record_hits_first_and_last_slot() {
    let mut h = Histogram::new(4, 3).unwrap();
    assert_eq!(h.record(0, 0), Ok(()));
    assert_eq!(h.as_slots()[2], 1);
    assert_eq!(h.record(3, 2), Ok(()));
    let last = 2 + 3 + 2 * 4;
    assert_eq!(last, h.as_slots().len() - 1);
    assert_eq!(h.as_slots()[last], 1);
    assert_eq!(h.as_slots().iter().skip(2).sum::<u64>(), 2);
}

#[test]
fn record_index_is_column_plus_row_times_width() {
    let mut h = Histogram::new(5, 4).unwrap();
    h.record(2, 3).unwrap();
    assert_eq!(h.as_slots()[2 + 2 + 3 * 5], 1);
    assert_eq!(h.count(2, 3), Some(1));
    assert_eq!(h.count(3, 2), Some(0));
}

#[test]
fn record_outside_frame_changes_nothing() {
    let mut h = Histogram::new(2, 2).unwrap();
    assert_eq!(h.record(2, 0), Err(OutOfFrame { column: 2, row: 0 }));
    assert_eq!(h.record(0, 2), Err(OutOfFrame { column: 0, row: 2 }));
    assert_eq!(h.record(u64::MAX, u64::MAX), Err(OutOfFrame { column: u64::MAX, row: u64::MAX }));
    assert_eq!(h.into_slots(), vec![2, 2, 0, 0, 0, 0]);
}

#[test]
fn record_saturates() {
    let mut h = Histogram::from_slots(vec![1, 1, u64::MAX - 1]).unwrap();
    h.record(0, 0).unwrap();
    assert_eq!(h.as_slots()[2], u64::MAX);
    h.record(0, 0).unwrap();
    assert_eq!(h.as_slots()[2], u64::MAX);
}

#[test]
fn write_back_counts_every_point_once() {
    let mut h = Histogram::new(2, 2).unwrap();
    let trace = vec![px(0, 0), px(1, 1), px(0, 0), px(1, 0), px(0, 0)];
    assert_eq!(h.write_back(&trace), Ok(()));
    assert_eq!(h.as_slots(), &vec![2, 2, 3, 1, 0, 1]);
    assert_eq!(h.as_slots().iter().skip(2).sum::<u64>(), trace.len() as u64);
    assert_eq!(h.write_back(&vec![]), Ok(()));
    assert_eq!(h.as_slots(), &vec![2, 2, 3, 1, 0, 1]);
}

#[test]
fn write_back_is_all_or_nothing() {
    let mut h = Histogram::from_slots(vec![2, 2, 5, 5, 5, 5]).unwrap();
    let trace = vec![px(0, 0), px(2, 1), px(1, 1), px(9, 9)];
    assert_eq!(h.write_back(&trace), Err(OutOfFrame { column: 2, row: 1 }));
    assert_eq!(h.as_slots(), &vec![2, 2, 5, 5, 5, 5]);
}

#[test]
fn write_back_order_does_not_matter() {
    let a = vec![px(0, 0), px(1, 0), px(1, 0)];
    let b = vec![px(1, 0), px(0, 1), px(0, 0)];
    let mut ab = Histogram::from_slots(vec![2, 2, 0, u64::MAX - 2, 7, 0]).unwrap();
    let mut ba = Histogram::from_slots(vec![2, 2, 0, u64::MAX - 2, 7, 0]).unwrap();
    ab.write_back(&a).unwrap();
    ab.write_back(&b).unwrap();
    ba.write_back(&b).unwrap();
    ba.write_back(&a).unwrap();
    assert_eq!(ab.as_slots(), ba.as_slots());
    assert_eq!(ab.as_slots(), &vec![2, 2, 2, u64::MAX, 8, 0]);
}

#[test]
fn combine_example_scenario() {
    let mut a = Histogram::from_slots(vec![2, 2, 42, 420, 4200, 42000]).unwrap();
    let b = Histogram::from_slots(vec![2, 2, 1, 1, 1, 1]).unwrap();
    assert_eq!(a.combine(&b), Ok(0));
    assert_eq!(a.into_slots(), vec![2, 2, 43, 421, 4201, 42001]);
}

#[test]
fn combine_saturates_and_keeps_header() {
    let mut a = Histogram::from_slots(vec![2, 1, u64::MAX - 1, 10]).unwrap();
    let b = Histogram::from_slots(vec![2, 1, 5, u64::MAX]).unwrap();
    assert_eq!(a.combine(&b), Ok(2));
    assert_eq!(a.as_slots(), &vec![2, 1, u64::MAX, u64::MAX]);
    let c = Histogram::from_slots(vec![2, 1, 0, 1]).unwrap();
    assert_eq!(a.combine(&c), Ok(1));
    assert_eq!(a.as_slots(), &vec![2, 1, u64::MAX, u64::MAX]);
}

#[test]
fn combine_rejects_other_frame() {
    let mut a = Histogram::from_slots(vec![2, 3, 1, 2, 3, 4, 5, 6]).unwrap();
    let b = Histogram::from_slots(vec![3, 2, 1, 1, 1, 1, 1, 1]).unwrap();
    assert_eq!(
        a.combine(&b),
        Err(FrameMismatch { width: 2, height: 3, other_width: 3, other_height: 2 })
    );
    assert_eq!(a.as_slots(), &vec![2, 3, 1, 2, 3, 4, 5, 6]);
    let c = Histogram::new(2, 2).unwrap();
    assert!(a.combine(&c).is_err());
}

#[test]
fn combine_is_commutative_and_associative() {
    let x = vec![2, 2, 1, u64::MAX - 3, 0, 9];
    let y = vec![2, 2, 2, 2, 0, u64::MAX];
    let z = vec![2, 2, 3, 2, 5, 1];
    let h = |v: &Vec<u64>| Histogram::from_slots(v.clone()).unwrap();

    let mut xy = h(&x);
    xy.combine(&h(&y)).unwrap();
    let mut yx = h(&y);
    yx.combine(&h(&x)).unwrap();
    assert_eq!(xy.as_slots(), yx.as_slots());

    let mut left = h(&x);
    left.combine(&h(&y)).unwrap();
    left.combine(&h(&z)).unwrap();
    let mut yz = h(&y);
    yz.combine(&h(&z)).unwrap();
    let mut right = h(&x);
    right.combine(&yz).unwrap();
    assert_eq!(left.as_slots(), right.as_slots());
    assert_eq!(left.as_slots(), &vec![2, 2, 6, u64::MAX, 5, u64::MAX]);

    for (i, slot) in left.as_slots().iter().enumerate() {
        assert!(*slot >= x[i]);
    }
}

#[test]
fn corner_pixels_map_to_first_and_last_counter() {
    // the pixel of the lower-left corner has slot 2, the pixel below the
    // upper-right corner has slot 2 + (W-1) + (H-1)*W
    let (w, h) = (400u64, 300u64);
    let mut histogram = Histogram::new(w, h).unwrap();
    histogram.record(0, 0).unwrap();
    histogram.record(w - 1, h - 1).unwrap();
    let slots = histogram.as_slots();
    assert_eq!(slots[2], 1);
    assert_eq!(slots[(2 + (w - 1) + (h - 1) * w) as usize], 1);
    assert_eq!((2 + (w - 1) + (h - 1) * w) as usize, slots.len() - 1);
    assert_eq!(slots.iter().skip(2).sum::<u64>(), 2);
}

#[test]
fn flush_writes_every_trace_back() {
    let mut h = Histogram::new(3, 2).unwrap();
    let buffer = vec![vec![px(0, 0), px(2, 1)], vec![], vec![px(2, 1), px(1, 0), px(2, 1)]];
    assert_eq!(h.flush(&buffer), Ok(()));
    assert_eq!(h.as_slots(), &vec![3, 2, 1, 1, 0, 0, 0, 3]);
    assert_eq!(h.flush(&vec![]), Ok(()));
    assert_eq!(h.as_slots(), &vec![3, 2, 1, 1, 0, 0, 0, 3]);
}

#[test]
fn flush_is_all_or_nothing() {
    let mut h = Histogram::from_slots(vec![2, 2, 1, 1, 1, 1]).unwrap();
    let buffer = vec![vec![px(0, 0), px(1, 1)], vec![px(1, 0), px(0, 2), px(5, 5)], vec![px(7, 0)]];
    assert_eq!(h.flush(&buffer), Err(OutOfFrame { column: 0, row: 2 }));
    assert_eq!(h.as_slots(), &vec![2, 2, 1, 1, 1, 1]);
}
