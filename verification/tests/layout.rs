use planner::layout::{centered_bands, POPUP_HEIGHT, POPUP_WIDTH};

#[test]
fn bands_centre_the_popup() {
    assert_eq!(centered_bands(POPUP_WIDTH), (30, 40, 30));
    assert_eq!(centered_bands(POPUP_HEIGHT), (46, 8, 46));
    assert_eq!(centered_bands(0), (50, 0, 50));
    assert_eq!(centered_bands(100), (0, 100, 0));
    assert_eq!(centered_bands(99), (0, 99, 0));
    assert_eq!(centered_bands(33), (33, 33, 33));
}
