use namplay::samples::SampleWindow;

#[test]
fn sample_window_keeps_newest() {
    let mut w: SampleWindow<u32> = SampleWindow::new(4);
    w.push_block(&[1, 2, 3]);
    assert_eq!(w.len(), 3);
    w.push_block(&[4, 5, 6]);
    assert_eq!(w.len(), 4);
    assert_eq!(w.latest(4), Some(vec![3, 4, 5, 6]));
    assert_eq!(w.latest(2), Some(vec![5, 6]));
    assert_eq!(w.latest(5), None);
}

#[test]
fn sample_window_chunked_equals_whole() {
    let mut a: SampleWindow<i32> = SampleWindow::new(5);
    let mut b: SampleWindow<i32> = SampleWindow::new(5);
    a.push_block(&[1, 2, 3, 4]);
    a.push_block(&[5, 6, 7]);
    b.push_block(&[1, 2, 3, 4, 5, 6, 7]);
    assert_eq!(a.latest(5), b.latest(5));
    assert_eq!(a.latest(5), Some(vec![3, 4, 5, 6, 7]));
}

#[test]
fn sample_window_waits_for_enough_samples() {
    let mut w: SampleWindow<f32> = SampleWindow::new(8);
    assert_eq!(w.latest(1), None);
    w.push_block(&[0.5, -0.5]);
    assert_eq!(w.latest(3), None);
    assert_eq!(w.latest(0), Some(vec![]));
    assert_eq!(w.latest(2), Some(vec![0.5, -0.5]));
}

#[test]
fn sample_window_zero_capacity_keeps_nothing() {
    let mut w: SampleWindow<u8> = SampleWindow::new(0);
    w.push_block(&[1, 2]);
    assert_eq!(w.len(), 0);
}

#[test]
fn split_channels_mono_keeps_samples() {
    let (l, r) = namplay::samples::split_channels(&vec![1, 2, 3], 1);
    assert_eq!(l, vec![1, 2, 3]);
    assert_eq!(r, None);
}

#[test]
fn split_channels_stereo_and_more() {
    let (l, r) = namplay::samples::split_channels(&vec![1, 2, 3, 4, 5, 6], 2);
    assert_eq!(l, vec![1, 3, 5]);
    assert_eq!(r, Some(vec![2, 4, 6]));
    let (l, r) = namplay::samples::split_channels(&vec![1, 2, 3, 4, 5, 6, 7, 8], 3);
    assert_eq!(l, vec![1, 4, 7]);
    assert_eq!(r, Some(vec![2, 5, 8]));
    let (l, r) = namplay::samples::split_channels(&Vec::<u8>::new(), 2);
    assert!(l.is_empty());
    assert_eq!(r, Some(vec![]));
}
