use aura_core::metalink::{Metalink, XmlEvent};

#[test]
fn test_parse_simple_metalink() {
    let xml = r#"
        <?xml version="1.0" encoding="utf-8"?>
        <metalink version="3.0" xmlns="http://www.metalinker.org/">
          <files>
            <file name="example.zip">
              <size>12345</size>
              <resources>
                <url>http://mirror1.com/example.zip</url>
                <url>http://mirror2.com/example.zip</url>
              </resources>
            </file>
          </files>
        </metalink>
        "#;
    let metalink = Metalink::parse(xml.as_bytes()).expect("Failed to parse Metalink");
    assert_eq!(metalink.files.len(), 1);
    assert_eq!(metalink.files[0].name, "example.zip");
    assert_eq!(metalink.files[0].size, Some(12345));
    assert_eq!(metalink.files[0].resources.len(), 2);
}

#[test]
fn metalink_resources_and_hash() {
    let xml = r#"<metalink><files><file name="a"><hash>abc</hash><url>http://m/a</url></file><file name="b"><size>x</size></file></files></metalink>"#;
    let m = Metalink::parse(xml.as_bytes()).unwrap();
    assert_eq!(m.files.len(), 2);
    assert_eq!(m.files[0].hash, Some("abc".to_string()));
    assert_eq!(m.files[0].resources[0].uri, "http://m/a");
    assert_eq!(m.files[0].resources[0].priority, 0);
    assert_eq!(m.files[0].resources[0].protocol, "http");
    assert_eq!(m.files[1].name, "b");
    assert_eq!(m.files[1].size, None);
}

#[test]
fn metalink_reader_error_fails_the_document() {
    let events = vec![XmlEvent::Start("file".to_string(), vec![Some(("name".to_string(), "x".to_string()))])];
    match Metalink::from_events(&events, &Some("bad tag".to_string())) {
        Err(aura_core::Error::Protocol(m)) => assert_eq!(m, "Metalink XML error: bad tag"),
        _ => panic!("expected an error"),
    }
    let events = vec![
        XmlEvent::Start("file".to_string(), vec![None, Some(("name".to_string(), "first".to_string())), Some(("name".to_string(), "last".to_string()))]),
        XmlEvent::Start("size".to_string(), vec![]),
        XmlEvent::Text("+42".to_string()),
        XmlEvent::End("size".to_string()),
        XmlEvent::End("file".to_string()),
        XmlEvent::Text("ignored".to_string()),
        XmlEvent::Other,
    ];
    let m = Metalink::from_events(&events, &None).unwrap();
    assert_eq!(m.files.len(), 1);
    assert_eq!(m.files[0].name, "last");
    assert_eq!(m.files[0].size, Some(42));
}
