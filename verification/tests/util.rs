use image_cache::util::{frame_delay_millis, Image, ImageData};

#[test]
fn new_frame_has_no_delay() {
    let f = Image::new(vec![1u8, 2, 3]);
    assert_eq!(f.buffer(), &vec![1u8, 2, 3]);
    assert_eq!(f.delay_ms, 0);
}

#[test]
fn with_delay_keeps_buffer_and_delay() {
    let f = Image::with_delay(vec![9u8; 5], 40);
    assert_eq!(f.buffer().len(), 5);
    assert_eq!(f.delay_ms, 40);
}

#[test]
fn buffer_mut_edits_the_pixel_buffer() {
    let mut f = Image::new(vec![0u8; 4]);
    f.buffer_mut()[2] = 255;
    assert_eq!(f.buffer(), &vec![0u8, 0, 255, 0]);
    assert_eq!(f.delay_ms, 0);
}

#[test]
fn entry_size_is_the_sum_of_frame_buffers() {
    let e = ImageData::new(vec![
        Image::new(vec![0u8; 3]),
        Image::with_delay(vec![0u8; 4], 10),
        Image::with_delay(vec![0u8; 5], 10),
    ]);
    assert_eq!(e.size(), 12);
}

#[test]
fn empty_entry_measures_zero() {
    let e = ImageData::new(Vec::new());
    assert_eq!(e.size(), 0);
}

#[test]
fn frame_delay_divides_milliseconds() {
    assert_eq!(frame_delay_millis(100, 3), 33);
    assert_eq!(frame_delay_millis(0, 1), 0);
    assert_eq!(frame_delay_millis(7, 7), 1);
    assert_eq!(frame_delay_millis(500, 10), 50);
}
