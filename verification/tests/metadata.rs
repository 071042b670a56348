use quark::CommandMetadata;

#[test]
fn test_metadata_creation() {
    let metadata = CommandMetadata::new(
        "test_cmd",
        "test_cmd <arg>",
        "Test command",
        "This is a test",
    );

    assert_eq!(metadata.name(), "test_cmd");
    assert_eq!(metadata.syntax(), "test_cmd <arg>");
    assert_eq!(metadata.short(), "Test command");
    assert_eq!(metadata.docs(), "This is a test");
}

#[test]
fn test_metadata_clone() {
    let metadata = CommandMetadata::new("cmd", "syntax", "short", "docs");
    let cloned = metadata.clone();
    assert_eq!(metadata, cloned);
}

#[test]
fn metadata_equality_compares_every_field() {
    let a = CommandMetadata::new("cmd", "syntax", "short", "docs");
    assert_ne!(a, CommandMetadata::new("cmd2", "syntax", "short", "docs"));
    assert_ne!(a, CommandMetadata::new("cmd", "syntax2", "short", "docs"));
    assert_ne!(a, CommandMetadata::new("cmd", "syntax", "short2", "docs"));
    assert_ne!(a, CommandMetadata::new("cmd", "syntax", "short", "docs2"));
    let b = CommandMetadata::from_strings("cmd".to_string(), "syntax".to_string(), "short".to_string(), "docs".to_string());
    assert_eq!(a, b);
}
