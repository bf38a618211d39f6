use pba::Site;

#[test]
fn site_codes() {
    assert_eq!(Site::FixedMetal.to_raw(), 0);
    assert_eq!(Site::Occupied.to_raw(), 1);
    assert_eq!(Site::Vacant.to_raw(), -1);
}

#[test]
fn site_codes_round_trip() {
    for site in [Site::FixedMetal, Site::Occupied, Site::Vacant] {
        assert_eq!(Site::from_raw(site.to_raw()), Some(site));
    }
}

#[test]
fn other_codes_stand_for_no_site() {
    for code in i8::MIN..=i8::MAX {
        let site = Site::from_raw(code);
        assert_eq!(site.is_some(), (-1..=1).contains(&code));
    }
}
