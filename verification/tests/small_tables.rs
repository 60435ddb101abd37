use bpond::frog::Morph;
use bpond::sdf::density_char;

#[test]
fn morph_bands() {
    assert_eq!(Morph::Green.back_light(), (95, 200, 70));
    assert_eq!(Morph::Green.back_mid(), (55, 145, 45));
    assert_eq!(Morph::Green.back_dark(), (25, 90, 30));
    assert_eq!(Morph::Olive.back_light(), (130, 150, 60));
    assert_eq!(Morph::Olive.back_mid(), (85, 110, 45));
    assert_eq!(Morph::Olive.back_dark(), (45, 60, 25));
    assert_eq!(Morph::Brown.back_light(), (135, 100, 60));
    assert_eq!(Morph::Brown.back_mid(), (95, 70, 40));
    assert_eq!(Morph::Brown.back_dark(), (60, 40, 22));
}

#[test]
fn morph_bands_darken_from_light_to_dark() {
    for m in [Morph::Green, Morph::Olive, Morph::Brown] {
        let (l, mid, d) = (m.back_light(), m.back_mid(), m.back_dark());
        assert!(d.0 <= mid.0 && mid.0 <= l.0);
        assert!(d.1 <= mid.1 && mid.1 <= l.1);
        assert!(d.2 <= mid.2 && mid.2 <= l.2);
    }
}

#[test]
fn density_ramp() {
    let ramp: String = (0..12).map(density_char).collect();
    assert_eq!(ramp, "·+=*%%$$@@@@");
    assert_eq!(density_char(u32::MAX), '@');
}
