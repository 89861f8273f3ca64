use dither_bmp::error::FormatError;
use dither_bmp::surface::Surface;

#[test]
fn cells_are_row_major() {
    let s = Surface::new(3, 2, vec![0, 1, 2, 3, 4, 5]);
    assert_eq!(s.width(), 3);
    assert_eq!(s.height(), 2);
    assert_eq!(s.get(0, 0), Some(&0));
    assert_eq!(s.get(2, 0), Some(&2));
    assert_eq!(s.get(0, 1), Some(&3));
    assert_eq!(s.get(2, 1), Some(&5));
    assert_eq!(*s.index((1, 1)), 4);
}

#[test]
fn out_of_bounds_access_gives_none() {
    let mut s = Surface::new(3, 2, vec![0, 1, 2, 3, 4, 5]);
    assert_eq!(s.get(3, 0), None);
    assert_eq!(s.get(0, 2), None);
    assert_eq!(s.get(-1, 0), None);
    assert_eq!(s.get(0, -1), None);
    assert!(s.get_mut(3, 1).is_none());
    assert!(s.get_mut(-1, 1).is_none());
}

#[test]
fn writes_through_get_mut_and_index_mut() {
    let mut s = Surface::new(2, 2, vec![0, 0, 0, 0]);
    *s.get_mut(1, 0).unwrap() = 7;
    *s.index_mut((0, 1)) = 9;
    assert_eq!(s.enumerate(), vec![(0, 0, 0), (1, 0, 7), (0, 1, 9), (1, 1, 0)]);
}

#[test]
fn enumerate_is_in_raster_order() {
    let s = Surface::new(2, 3, vec![10, 11, 12, 13, 14, 15]);
    assert_eq!(
        s.enumerate(),
        vec![(0, 0, 10), (1, 0, 11), (0, 1, 12), (1, 1, 13), (0, 2, 14), (1, 2, 15)]
    );
}

#[test]
fn filled_surface() {
    let s = Surface::filled(2, 2, 5u8);
    assert_eq!(s.enumerate(), vec![(0, 0, 5), (1, 0, 5), (0, 1, 5), (1, 1, 5)]);
    let empty = Surface::filled(0, 4, 1u8);
    assert_eq!(empty.enumerate(), vec![]);
}

#[test]
fn mismatched_data_is_rejected() {
    assert_eq!(
        Surface::try_new(2, 2, vec![1, 2, 3]).err(),
        Some(FormatError::InvalidSurfaceShape)
    );
    let s = Surface::try_new(2, 1, vec![1, 2]).unwrap();
    assert_eq!(s.get(1, 0), Some(&2));
}
