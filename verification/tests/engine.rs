use ocelot::engine::module_name_from_path;

#[test]
fn derives_nested_module_names_from_paths() {
    assert_eq!(
        module_name_from_path("examples", "examples/math/greet.ocelot").unwrap().as_str(),
        "math::greet"
    );
}
