use audeye::utils::{deinterleave, deinterleave_vec, str_equal, StatefulList, TabsState};

#[test]
fn deinterleave_vec_splits_by_channel() {
    let src = [1, 10, 100, 2, 20, 200, 3, 30, 300, 4];
    let mut dst = vec![vec![0; 4], vec![0; 3], vec![0; 5], vec![7; 2]];
    deinterleave_vec(3, &src, &mut dst);
    assert_eq!(dst, vec![vec![1, 2, 3, 0], vec![10, 20, 30], vec![100, 200, 300, 0, 0], vec![7; 2]]);
}

#[test]
fn deinterleave_vec_of_one_channel_copies() {
    let src = [5u8, 6, 7];
    let mut dst = vec![vec![0u8; 3]];
    deinterleave_vec(1, &src, &mut dst);
    assert_eq!(dst, vec![vec![5, 6, 7]]);
    deinterleave_vec(1, &[], &mut dst);
    assert_eq!(dst, vec![vec![5, 6, 7]]);
}

#[test]
fn deinterleave_splits_into_slices() {
    let src = [1i64, -1, 2, -2, 3, -3, 4];
    let mut left = [0i64; 4];
    let mut right = [9i64; 3];
    {
        let mut dst: Vec<&mut [i64]> = vec![&mut left, &mut right];
        deinterleave(2, &src, dst.as_mut_slice());
    }
    assert_eq!(left, [1, 2, 3, 0]);
    assert_eq!(right, [-1, -2, -3]);
}

#[test]
fn strings_are_compared_by_character() {
    assert!(str_equal("", ""));
    assert!(str_equal("hanning", "hanning"));
    assert!(!str_equal("hanning", "hamming"));
    assert!(!str_equal("hanning", "hannin"));
    assert!(!str_equal("", "a"));
    assert!(str_equal("é∂", "é∂"));
    assert!(!str_equal("é", "e"));
}

#[test]
fn tabs_turn_around() {
    let mut tabs = TabsState::new(vec!["Waveform", "Spectral", "Metadata"]);
    assert_eq!(tabs.index, 0);
    tabs.next();
    assert_eq!(tabs.index, 1);
    tabs.next();
    tabs.next();
    assert_eq!(tabs.index, 0);
    tabs.previous();
    assert_eq!(tabs.index, 2);
    tabs.previous();
    assert_eq!(tabs.index, 1);
    assert_eq!(tabs.titles, vec!["Waveform", "Spectral", "Metadata"]);
}

#[test]
fn list_selection_turns_around() {
    let mut list = StatefulList::with_items(vec!['a', 'b', 'c']);
    assert_eq!(list.selected, None);
    list.next();
    assert_eq!(list.selected, Some(0));
    list.next();
    list.next();
    assert_eq!(list.selected, Some(2));
    list.next();
    assert_eq!(list.selected, Some(0));
    list.previous();
    assert_eq!(list.selected, Some(2));
    list.previous();
    assert_eq!(list.selected, Some(1));
    list.unselect();
    assert_eq!(list.selected, None);
    list.previous();
    assert_eq!(list.selected, Some(0));

    let mut empty: StatefulList<u8> = StatefulList::new();
    assert!(empty.items.is_empty());
    empty.next();
    assert_eq!(empty.selected, Some(0));
}
