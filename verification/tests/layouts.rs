use backend::layout::{num_layers_default, Meta};

#[test]
fn a_keyboard_has_two_layers_unless_it_says_otherwise() {
    assert_eq!(num_layers_default(), 2);
}

#[test]
fn metadata_holds_what_it_is_given() {
    let meta = Meta {
        display_name: "Launch".to_string(),
        has_mode: true,
        has_per_layer: false,
        num_layers: num_layers_default(),
    };
    assert_eq!(meta.display_name, "Launch");
    assert!(meta.has_mode);
    assert!(!meta.has_per_layer);
    assert_eq!(meta.num_layers, 2);
}
