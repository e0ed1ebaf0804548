use distro_info::{Date, DistroRelease};

fn ymd(year: i32, month: u32, day: u32) -> Date {
    Date::from_ymd_opt(year, month, day).unwrap()
}

fn release_with(version: &str, eol: Date, eol_server: Option<Date>) -> DistroRelease {
    DistroRelease::new(
        version.to_string(),
        "codename".to_string(),
        "series".to_string(),
        Some(ymd(2018, 6, 14)),
        Some(ymd(2018, 6, 14)),
        Some(eol),
        eol_server,
    )
}

#[test]
fn create_struct() {
    DistroRelease::new(
        "version".to_string(),
        "codename".to_string(),
        "series".to_string(),
        Some(ymd(2018, 6, 14)),
        Some(ymd(2018, 6, 14)),
        Some(ymd(2018, 6, 14)),
        Some(ymd(2018, 6, 14)),
    );
}

#[test]
fn distro_release_new() {
    let get_date = |n: u32| ymd(2018, 6, 14 + n);
    let distro_release = DistroRelease::new(
        "version".to_string(),
        "codename".to_string(),
        "series".to_string(),
        Some(get_date(0)),
        Some(get_date(1)),
        Some(get_date(2)),
        Some(get_date(3)),
    );
    assert_eq!("version", distro_release.version());
    assert_eq!("codename", distro_release.codename());
    assert_eq!("series", distro_release.series());
    assert_eq!(&Some(get_date(0)), distro_release.created());
    assert_eq!(&Some(get_date(1)), distro_release.release());
    assert_eq!(&Some(get_date(2)), distro_release.eol());
    assert_eq!(&Some(get_date(3)), distro_release.eol_server());
}

#[test]
fn distro_release_is_lts() {
    let distro_release = release_with("98.04 LTS", ymd(2018, 6, 14), Some(ymd(2018, 6, 14)));
    assert!(distro_release.is_lts());

    let distro_release = release_with("98.04", ymd(2018, 6, 14), Some(ymd(2018, 6, 14)));
    assert!(!distro_release.is_lts());
}

#[test]
fn distro_release_released_at() {
    let distro_release = release_with("98.04 LTS", ymd(2018, 6, 16), Some(ymd(2018, 6, 14)));
    // not released before release day
    assert!(!distro_release.released_at(ymd(2018, 6, 13)));
    // released on release day
    assert!(distro_release.released_at(ymd(2018, 6, 14)));
    // still released after EOL
    assert!(distro_release.released_at(ymd(2018, 6, 17)));
}

#[test]
fn distro_release_supported_at() {
    let distro_release = release_with("98.04 LTS", ymd(2018, 6, 16), Some(ymd(2018, 6, 14)));
    // not supported before release day
    assert!(!distro_release.supported_at(ymd(2018, 6, 13)));
    // supported on release day
    assert!(distro_release.supported_at(ymd(2018, 6, 14)));
    // not supported after EOL
    assert!(!distro_release.supported_at(ymd(2018, 6, 17)));
}

#[test]
fn released_stays_released_years_later() {
    let distro_release = release_with("18.04", ymd(2018, 6, 16), None);
    assert!(distro_release.released_at(ymd(2018, 6, 14)));
    assert!(distro_release.released_at(ymd(2019, 1, 1)));
    assert!(distro_release.released_at(ymd(2118, 12, 31)));
}

#[test]
fn extended_eol_extends_support() {
    let distro_release = release_with("18.04 LTS", ymd(2018, 6, 16), Some(ymd(2020, 1, 31)));
    assert!(distro_release.supported_at(ymd(2018, 6, 17)));
    assert!(distro_release.supported_at(ymd(2020, 1, 31)));
    assert!(!distro_release.supported_at(ymd(2020, 2, 1)));
}

#[test]
fn no_eol_is_never_supported() {
    let distro_release = DistroRelease::new(
        "1.0".to_string(),
        "codename".to_string(),
        "series".to_string(),
        Some(ymd(2018, 6, 14)),
        Some(ymd(2018, 6, 14)),
        None,
        Some(ymd(2030, 1, 1)),
    );
    assert!(distro_release.created_at(ymd(2018, 6, 14)));
    assert!(!distro_release.supported_at(ymd(2018, 6, 20)));
}

#[test]
fn not_created_is_not_created_or_supported() {
    let distro_release = DistroRelease::new(
        "1.0".to_string(),
        "codename".to_string(),
        "series".to_string(),
        None,
        Some(ymd(2018, 6, 14)),
        Some(ymd(2019, 6, 14)),
        None,
    );
    assert!(!distro_release.created_at(ymd(2018, 6, 20)));
    assert!(!distro_release.supported_at(ymd(2018, 6, 20)));
}

#[test]
fn in_development_between_creation_and_release() {
    let distro_release = DistroRelease::new(
        "18.10".to_string(),
        "Cosmic Cuttlefish".to_string(),
        "cosmic".to_string(),
        Some(ymd(2018, 4, 26)),
        Some(ymd(2018, 10, 18)),
        Some(ymd(2019, 7, 18)),
        None,
    );
    assert!(!distro_release.in_development_at(ymd(2018, 4, 25)));
    assert!(distro_release.in_development_at(ymd(2018, 4, 26)));
    assert!(distro_release.in_development_at(ymd(2018, 10, 17)));
    assert!(!distro_release.in_development_at(ymd(2018, 10, 18)));
    assert!(distro_release.has_series(&"cosmic".to_string()));
    assert!(!distro_release.has_series(&"bionic".to_string()));
}

#[test]
fn dates_exist_only_in_the_calendar() {
    assert!(Date::from_ymd_opt(2015, 2, 29).is_none());
    assert!(Date::from_ymd_opt(2016, 2, 29).is_some());
    assert!(Date::from_ymd_opt(2015, 0, 14).is_none());
    assert!(Date::from_ymd_opt(2015, 4, 31).is_none());
    assert!(Date::from_ymd_opt(400000, 1, 1).is_none());
    let d = ymd(2018, 6, 14);
    assert_eq!((2018, 6, 14), (d.year(), d.month(), d.day()));
}

#[test]
fn dates_parse_and_compare() {
    assert_eq!(Some(ymd(2018, 6, 14)), Date::parse("2018-06-14"));
    assert_eq!(None, Date::parse("2018-13-01"));
    assert_eq!(None, Date::parse("14/06/2018"));
    assert!(ymd(2018, 6, 14).le(&ymd(2018, 6, 14)));
    assert!(ymd(2018, 6, 14).le(&ymd(2018, 7, 1)));
    assert!(ymd(2017, 12, 31).le(&ymd(2018, 1, 1)));
    assert!(!ymd(2018, 1, 2).le(&ymd(2018, 1, 1)));
}
