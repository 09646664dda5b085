use tilt_paint::display::{toggled_vsync, Presentation};

#[test]
fn the_vsync_toggle_switches_between_automatic_modes() {
    assert_eq!(toggled_vsync(Presentation::AutoNoVsync), Presentation::AutoVsync);
    assert_eq!(toggled_vsync(Presentation::Immediate), Presentation::AutoVsync);
    assert_eq!(toggled_vsync(Presentation::Mailbox), Presentation::AutoVsync);
    assert_eq!(toggled_vsync(Presentation::AutoVsync), Presentation::AutoNoVsync);
    assert_eq!(toggled_vsync(Presentation::Fifo), Presentation::AutoNoVsync);
    assert_eq!(toggled_vsync(Presentation::FifoRelaxed), Presentation::AutoNoVsync);
}
