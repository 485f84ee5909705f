use ocelot::source_file_kind::SourceFileKind;

#[test]
fn classifies_module_paths() {
    assert_eq!(
        SourceFileKind::from_path("examples/helper.ocelot").unwrap(),
        SourceFileKind::Module
    );
}

#[test]
fn classifies_script_paths() {
    assert_eq!(
        SourceFileKind::from_path("examples/main.ocelot-script").unwrap(),
        SourceFileKind::Script
    );
}

#[test]
fn rejects_unknown_extensions() {
    let error = SourceFileKind::from_path("examples/notes.txt").unwrap_err();

    assert!(
        error
            .to_test_string()
            .contains("expected `.ocelot` or `.ocelot-script`")
    );
}
