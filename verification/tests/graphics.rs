use emergence_lib::graphics::{Layer, LayerRegister};

#[test]
fn a_new_register_holds_no_layer() {
    let register = LayerRegister::new();
    assert_eq!(register.get(Layer::Organisms), None);
    assert_eq!(register.get(Layer::Terrain), None);
    assert_eq!(register.get(Layer::Produce), None);
    assert_eq!(LayerRegister::default().get(Layer::Terrain), None);
}

#[test]
fn a_registered_layer_is_found_again() {
    let mut register = LayerRegister::new();
    register.insert(Layer::Terrain, 17);
    register.insert(Layer::Organisms, 0);
    assert_eq!(register.get(Layer::Terrain), Some(17));
    assert_eq!(register.get(Layer::Organisms), Some(0));
    assert_eq!(register.get(Layer::Produce), None);
}

#[test]
fn registering_a_layer_again_replaces_its_tilemap() {
    let mut register = LayerRegister::new();
    register.insert(Layer::Produce, 1);
    register.insert(Layer::Produce, u64::MAX);
    assert_eq!(register.get(Layer::Produce), Some(u64::MAX));
}

#[test]
fn layers_have_keys_of_their_own() {
    assert_eq!(Layer::Organisms.key(), (0, 0));
    assert_eq!(Layer::Terrain.key(), (1, 0));
    assert_eq!(Layer::Produce.key(), (2, 0));
    assert_ne!(Layer::Organisms, Layer::Terrain);
}
