use cl_array_ext::NotEnoughEntries;
use cl_array_ext::SliceN;

#[test]
fn slice_n() {
    let a: &[i32] = &[1, 2, 3, 4, 5];
    let b: SliceN<i32> = SliceN::try_from(a, 3).unwrap();

    assert_eq!(b.len(), 5);
    assert_eq!(b.head_vec(), [1, 2, 3]);
    assert_eq!(b.tail_vec(), [4, 5]);
    assert_eq!(b.as_slice(), a);

    let b = b.increase(2).unwrap();
    assert_eq!(b.head_vec(), [1, 2, 3, 4, 5]);
    assert_eq!(b.tail_vec(), []);
    let _ = b.increase(1).unwrap_err();
    let _ = SliceN::<i32>::try_from(a, 6).unwrap_err();
}

#[test]
fn slice_n_mut() {
    let mut b: SliceN<i32> = SliceN::from_unchecked_mut(vec![1, 2, 3, 4, 5], 3);

    b.set_head(&[3, 2, 1]);
    b.downsize_mut(2);
    b.set_head(&[9, 8]);

    assert_eq!(b.into_vec(), [9, 8, 1, 4, 5]);
}

#[test]
fn construction_succeeds_iff_long_enough() {
    let region: &[u8] = &[10, 20, 30];
    for n in 0..=3 {
        let s = SliceN::try_from(region, n).unwrap();
        assert_eq!(s.head_vec(), region[..n].to_vec());
        assert_eq!(s.tail_vec(), region[n..].to_vec());
        assert_eq!(s.as_slice(), region);
    }
    let err = SliceN::<u8>::try_from(region, 4).unwrap_err();
    assert_eq!(err, NotEnoughEntries);
    assert_eq!(region, &[10, 20, 30]);
}

#[test]
fn widen_and_narrow_scenario() {
    let region: &[i32] = &[1, 2, 3, 4, 5];
    let s = SliceN::try_from(region, 3).unwrap();
    assert_eq!(s.head_vec(), [1, 2, 3]);
    assert_eq!(s.tail_vec(), [4, 5]);
    assert_eq!(s.as_slice(), [1, 2, 3, 4, 5]);

    let widened = s.increase(2).unwrap();
    assert_eq!(widened.head_vec(), [1, 2, 3, 4, 5]);
    assert_eq!(widened.tail_vec(), []);
    let err = widened.increase(1).unwrap_err();
    assert_eq!(err, NotEnoughEntries);

    let narrowed = s.downsize(2);
    assert_eq!(narrowed.head_vec(), [1, 2]);
    assert_eq!(narrowed.tail_vec(), [3, 4, 5]);
    assert_eq!(narrowed.as_slice(), [1, 2, 3, 4, 5]);
}

#[test]
fn widen_moves_tail_front_into_head() {
    let mut s = SliceN::from_unchecked_mut(vec![1, 2, 3, 4, 5], 1);
    s.increase_mut(3).unwrap();
    assert_eq!(s.head_vec(), [1, 2, 3, 4]);
    assert_eq!(s.tail_vec(), [5]);
    assert_eq!(s.len(), 5);

    let err = s.increase_mut(2).unwrap_err();
    assert_eq!(err, NotEnoughEntries);
    assert_eq!(s.head_vec(), [1, 2, 3, 4]);
    assert_eq!(s.tail_vec(), [5]);
}

#[test]
fn unchecked_variants_match_checked_ones() {
    let region: &[i32] = &[6, 7, 8, 9];
    let s = SliceN::from_unchecked(region, 2);
    assert_eq!(s.head_vec(), [6, 7]);
    assert_eq!(s.tail_vec(), [8, 9]);

    let widened = s.increase_unchecked(2);
    assert_eq!(widened.head_vec(), [6, 7, 8, 9]);
    assert_eq!(widened.tail_vec(), []);

    let mut t = SliceN::from_unchecked(region, 2);
    t.increase_unchecked_mut(1);
    assert_eq!(t.head_vec(), [6, 7, 8]);
    assert_eq!(t.tail_vec(), [9]);
}

#[test]
fn mutation_is_visible_through_the_region() {
    let mut s = SliceN::from_unchecked_mut(vec![1, 2, 3, 4, 5], 3);
    s.set_head_at(1, 20);
    s.set_tail_at(0, 40);
    s.set_at(4, 50);
    assert_eq!(s.as_slice(), [1, 20, 3, 40, 50]);
    assert_eq!(s.head_vec(), [1, 20, 3]);
    assert_eq!(s.tail_vec(), [40, 50]);
    assert_eq!(s.into_vec(), [1, 20, 3, 40, 50]);
}

#[test]
fn element_accessors() {
    let s = SliceN::from_unchecked_mut(vec![1, 2, 3, 4, 5], 3);
    assert_eq!(s.head_len(), 3);
    assert_eq!(s.tail_len(), 2);
    assert_eq!(*s.head_at(2), 3);
    assert_eq!(*s.tail_at(0), 4);
    assert_eq!(*s.at(4), 5);
}

#[test]
fn empty_tail_and_empty_head() {
    let whole = SliceN::from_unchecked_mut(vec![1, 2], 2);
    assert_eq!(whole.tail_len(), 0);
    assert_eq!(whole.head_vec(), [1, 2]);

    let none = SliceN::from_unchecked_mut(vec![1, 2], 0);
    assert_eq!(none.head_len(), 0);
    assert_eq!(none.tail_vec(), [1, 2]);
    assert_eq!(none.len(), 2);
}

#[test]
fn owning_construction_checked() {
    let ok = SliceN::try_from_mut(vec![1, 2, 3], 2).unwrap();
    assert_eq!(ok.head_vec(), [1, 2]);
    assert_eq!(ok.tail_vec(), [3]);

    let (region, err) = SliceN::try_from_mut(vec![1, 2, 3], 4).unwrap_err();
    assert_eq!(err, NotEnoughEntries);
    assert_eq!(region, [1, 2, 3]);
}
