use gprs::indexing::{index_to_2d, slice_indices};

#[test]
fn test_index_tl() {
    /*
      x o o
      o o o
      o o o
      o o o
      o o o
    */
    assert_eq!(index_to_2d(0, 5), (0, 0));
}

#[test]
fn test_index_tr() {
    /*
      o o x
      o o o
      o o o
      o o o
      o o o
    */
    assert_eq!(index_to_2d(10, 5), (2, 0));
}

#[test]
fn test_index_bl() {
    /*
      o o o
      o o o
      o o o
      o o o
      x o o
    */
    assert_eq!(index_to_2d(4, 5), (0, 4));
}

#[test]
fn test_index_br() {
    /*
      o o o
      o o o
      o o o
      o o o
      o o x
    */
    assert_eq!(index_to_2d(14, 5), (2, 4));
}

#[test]
fn test_index_middle() {
    /*
      o o o
      o o o
      o x o
      o o o
      o o o
    */
    assert_eq!(index_to_2d(7, 5), (1, 2));
}

#[test]
fn test_first() {
    /*
      x o o o o
      x o o o o
      x o o o o
    */
    assert_eq!(slice_indices(0, 3), (0, 3));
}

#[test]
fn test_last() {
    /*
      o o o o x
      o o o o x
      o o o o x
    */
    assert_eq!(slice_indices(4, 3), (12, 15));
}

#[test]
fn test_middle() {
    /*
      o o x o o
      o o x o o
      o o x o o
    */
    assert_eq!(slice_indices(2, 3), (6, 9))
}

#[test]
fn index_round_trip() {
    for nmajor in 1..7usize {
        for index in 0..40usize {
            let (minor, major) = index_to_2d(index, nmajor);
            assert!(major < nmajor);
            assert_eq!(minor * nmajor + major, index);
        }
    }
}

#[test]
fn slices_of_neighbours_touch() {
    let (s0, e0) = slice_indices(3, 4);
    let (s1, e1) = slice_indices(4, 4);
    assert_eq!((s0, e0), (12, 16));
    assert_eq!(e0, s1);
    assert_eq!(e1 - s1, 4);
}

#[test]
fn slice_of_empty_major_axis() {
    assert_eq!(slice_indices(5, 0), (0, 0));
}
