use knope::semver::Version;

#[test]
fn versions_are_read_and_shown_alike() {
    for text in [
        "0.0.0",
        "1.0.0",
        "10.20.30",
        "1.0.0-alpha",
        "1.0.0-alpha.1",
        "1.0.0-0.3.7",
        "1.0.0-x-y-z.--",
        "1.0.0+20130313144700",
        "1.0.0-beta+exp.sha.5114f85",
        "1.0.0+21AF26D3----117B344092BD",
        "1.0.0+001",
    ] {
        let version = Version::from_str(text).unwrap();
        assert_eq!(version.to_string(), text);
        assert_eq!(Version::from_str(&version.to_string()).unwrap(), version);
        assert_eq!(version.clone(), version);
    }
}

#[test]
fn other_texts_are_no_versions() {
    for text in [
        "", "1", "1.0", "1.0.0.0", "01.0.0", "1.00.0", "v1.0.0", "1.0.0-", "1.0.0+", "1.0.0-a..b",
        "1.0.0-01", "1.0.0-é", "1.0.0+a+b", "1.0.0 ", "1..0", "-1.0.0", "a.b.c",
    ] {
        assert_eq!(Version::from_str(text).unwrap_err().text, text);
    }
}
