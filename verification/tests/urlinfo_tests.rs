use fget::errors::FetchError;
use fget::urlinfo::UrlInfo;

#[test]
fn http_test_parse_url() {
    let url = "https://download.virtualbox.org/virtualbox/7.0.8/VirtualBox-7.0.8_BETA4-156879-macOSArm64.dmg";
    let url_info = UrlInfo::parse(url).unwrap();

    assert_eq!("https", url_info.scheme.as_str());
    assert_eq!("download.virtualbox.org", url_info.domain.as_str());
    assert_eq!(
        "/virtualbox/7.0.8/VirtualBox-7.0.8_BETA4-156879-macOSArm64.dmg",
        url_info.path.as_str()
    );
    assert_eq!(
        "VirtualBox-7.0.8_BETA4-156879-macOSArm64.dmg",
        url_info.fname.as_str()
    );
    assert_eq!(true, url_info.is_tls());
    assert_eq!(443, url_info.port);
}

#[test]
fn urlinfo_test_parse_url() {
    let url = "https://download.virtualbox.org/virtualbox/7.0.8/VirtualBox-7.0.8_BETA4-156879-macOSArm64.dmg";
    let urlinfo = UrlInfo::parse(url).unwrap();

    assert_eq!("https", urlinfo.scheme.as_str());
    assert_eq!("download.virtualbox.org", urlinfo.domain.as_str());
    assert_eq!(
        "/virtualbox/7.0.8/VirtualBox-7.0.8_BETA4-156879-macOSArm64.dmg",
        urlinfo.path.as_str()
    );
    assert_eq!(
        "VirtualBox-7.0.8_BETA4-156879-macOSArm64.dmg",
        urlinfo.fname.as_str()
    );
    assert_eq!(true, urlinfo.is_tls());
    assert_eq!(443, urlinfo.port);
    assert_eq!("download.virtualbox.org:443", urlinfo.host_addr());
}

#[test]
fn test_parse_url_custom_port() {
    let url = "http://localhost:8080/download/GoTiengViet.dmg";
    let urlinfo = UrlInfo::parse(url).unwrap();

    assert_eq!("http", urlinfo.scheme.as_str());
    assert_eq!("localhost", urlinfo.domain.as_str());
    assert_eq!("/download/GoTiengViet.dmg", urlinfo.path.as_str());
    assert_eq!("GoTiengViet.dmg", urlinfo.fname.as_str());
    assert_eq!(false, urlinfo.is_tls());
    assert_eq!(8080, urlinfo.port);
    assert_eq!("localhost:8080", urlinfo.host_addr());
}

// the parsed parts concatenate back to the original text
#[test]
fn test_parse_round_trip_default_port() {
    let url = "http://example.test/file.bin";
    let info = UrlInfo::parse(url).unwrap();
    assert!(info.path.starts_with('/'));
    let rebuilt = format!("{}://{}{}", info.scheme, info.domain, info.path);
    assert_eq!(url, rebuilt.as_str());
    assert_eq!(80, info.port);
}

#[test]
fn test_parse_round_trip_explicit_port() {
    let url = "https://mirror.example:8443/pool/a/b.tar.gz?x=1";
    let info = UrlInfo::parse(url).unwrap();
    assert!(info.path.starts_with('/'));
    let rebuilt = format!("{}://{}:{}{}", info.scheme, info.domain, info.port, info.path);
    assert_eq!(url, rebuilt.as_str());
    assert_eq!("/pool/a/b.tar.gz?x=1", info.path.as_str());
    assert_eq!("b.tar.gz?x=1", info.fname.as_str());
}

#[test]
fn test_parse_bad_scheme() {
    assert_eq!(Some(FetchError::BadScheme), UrlInfo::parse("ftp://host/file").err());
}

#[test]
fn test_parse_too_few_segments() {
    assert_eq!(Some(FetchError::MalformedUrl), UrlInfo::parse("http://host").err());
}

// an authority naming a port past u16 is refused
#[test]
fn test_parse_port_overflow() {
    assert_eq!(Some(FetchError::BadPort), UrlInfo::parse("http://host:65536/file").err());
    assert_eq!(Ok(65535), UrlInfo::parse("http://host:65535/file").map(|u| u.port));
}

#[test]
fn test_parse_port_not_a_number() {
    assert_eq!(Some(FetchError::BadPort), UrlInfo::parse("http://host:eighty/file").err());
    assert_eq!(Some(FetchError::BadPort), UrlInfo::parse("http://host:/file").err());
}

#[test]
fn test_parse_port_leading_zeros() {
    assert_eq!(Ok(80), UrlInfo::parse("http://host:0080/file").map(|u| u.port));
}

#[test]
fn test_parse_empty_filename() {
    assert_eq!(Some(FetchError::MalformedUrl), UrlInfo::parse("http://host/dir/").err());
}
