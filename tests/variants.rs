use slaters::variants::{FromVariant, ToVariant};

#[test]
fn encodings_by_extension() {
    assert_eq!(FromVariant::from_path("a/b.yml"), Some(FromVariant::Yaml));
    assert_eq!(FromVariant::from_path("x.service"), Some(FromVariant::Toml));
    assert_eq!(FromVariant::from_path("x.txt"), None);
    assert_eq!(FromVariant::from_path("noext"), None);
    assert_eq!(ToVariant::from_path("out.hjson"), Some(ToVariant::PrettyJson));
    assert_eq!(ToVariant::from_path("out.pkl"), Some(ToVariant::Pickle));
    assert_eq!(ToVariant::from_path("out"), None);
}

#[test]
fn destination_selection() {
    assert_eq!(ToVariant::select(Some(ToVariant::Systemd), Some("o.json"), FromVariant::Yaml), ToVariant::Systemd);
    assert_eq!(ToVariant::select(None, Some("o.ron"), FromVariant::Yaml), ToVariant::Ron);
    assert_eq!(ToVariant::select(None, Some("o.unknown"), FromVariant::Cbor), ToVariant::Cbor);
    assert_eq!(ToVariant::select(None, None, FromVariant::Bson), ToVariant::Bson);
    assert_eq!(ToVariant::from(FromVariant::Json), ToVariant::Json);
    assert!(ToVariant::Quadlet.is_synthesizing());
    assert!(!ToVariant::Ini.is_synthesizing());
}
