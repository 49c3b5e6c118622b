use xdiag::probe::{
    check_allocation, check_query, check_round_trip, pixel_range, probe_color, ProbeError, Rgb, PROBE_PIXELS,
};

#[test]
fn exact_allocation_accepted() {
    let c = probe_color();
    assert_eq!(c, Rgb { red: 0xcccc, green: 0xbebe, blue: 0x8181 });
    assert_eq!(check_allocation(c, c), Ok(()));
}

#[test]
fn requantised_allocation_rejected() {
    let c = probe_color();
    let got = Rgb { red: 0xcccc, green: 0xbebe, blue: 0x8080 };
    assert_eq!(
        check_allocation(c, got),
        Err(ProbeError::ChannelMismatch { requested: c, allocated: got })
    );
}

#[test]
fn query_must_return_a_colour() {
    assert_eq!(check_query(&vec![]), Err(ProbeError::EmptyQuery));
    assert_eq!(check_query(&vec![probe_color()]), Ok(()));
}

#[test]
fn bulk_pixels() {
    let p = pixel_range(PROBE_PIXELS);
    assert_eq!(p.len(), 1024);
    assert_eq!(p[0], 0);
    assert_eq!(p[1023], 1023);
    assert!(pixel_range(0).is_empty());
}

#[test]
fn round_trip_needs_exact_first_colour() {
    let c = probe_color();
    assert_eq!(check_round_trip(c, &vec![]), Err(ProbeError::EmptyQuery));
    assert_eq!(check_round_trip(c, &vec![c]), Ok(()));
    let q = Rgb { red: 0xcccc, green: 0xbebe, blue: 0x8000 };
    assert_eq!(
        check_round_trip(c, &vec![q, c]),
        Err(ProbeError::QueryMismatch { requested: c, queried: q })
    );
}
