//! Local storage specifications.
use celld_store::local_storage::path_from_spec;

#[test]
fn local_specs_are_absolute_and_unambiguous() {
    assert_eq!(
        path_from_spec("SQLITE:///var/lib/celld/objects.sqlite3").unwrap(),
        Some("/var/lib/celld/objects.sqlite3".to_string())
    );
    assert!(path_from_spec("az://radio/prefix").unwrap().is_none());
    for spec in [
        "sqlite:",
        "sqlite:/tmp/db",
        "sqlite://",
        "sqlite://host/tmp/db",
        "sqlite:////tmp/db",
        "sqlite:///",
        "sqlite:///tmp/",
        "sqlite:///tmp/db?mode=ro",
        "sqlite:///tmp/db#prefix",
        "sqlite:///tmp/a%20b",
    ] {
        assert!(path_from_spec(spec).is_err(), "{spec}");
    }
}

#[test]
fn paths_must_name_a_file() {
    assert_eq!(
        path_from_spec("sqlite:///tmp/db/.").unwrap(),
        Some("/tmp/db/.".to_string())
    );
    assert!(path_from_spec("sqlite:///tmp/..").is_err());
    assert!(path_from_spec("sqlite:///.").is_err());
    assert!(path_from_spec("sqlite:///tmp/a\0b").is_err());
    assert_eq!(
        path_from_spec("SqLiTe:///\u{e9}").unwrap(),
        Some("/\u{e9}".to_string())
    );
    assert!(path_from_spec("sqlit\u{e9}:///x").unwrap().is_none());
    assert!(path_from_spec("").unwrap().is_none());
}

#[test]
fn refused_specifications_say_why() {
    assert_eq!(
        path_from_spec("sqlite:/tmp/db").unwrap_err().message(),
        "local storage requires sqlite:///absolute/path/objects.sqlite3"
    );
    assert_eq!(
        path_from_spec("sqlite://host/db").unwrap_err().message(),
        "local storage requires sqlite:///absolute/path/objects.sqlite3 without an authority, \
         URI escapes, query or fragment"
    );
}
