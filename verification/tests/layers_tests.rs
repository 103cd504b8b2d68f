use ifs_parser::index::layers::{Layer, LayerTable};

#[test]
fn the_highest_layer_with_a_definition_is_in_force() {
    let mut table = LayerTable::new();
    assert_eq!(table.resolve("Order_API", "Release"), None);
    assert_eq!(table.define("Order_API", "Release", Layer::Core, 1), None);
    assert_eq!(table.resolve("Order_API", "Release"), Some(1));
    assert_eq!(table.define("Order_API", "Release", Layer::Extension, 3), None);
    assert_eq!(table.resolve("Order_API", "Release"), Some(3));
    assert_eq!(table.define("Order_API", "Release", Layer::Customization, 2), None);
    assert_eq!(table.resolve("Order_API", "Release"), Some(3));
    assert_eq!(table.resolve("Order_API", "Cancel"), None);
    assert_eq!(table.resolve("Other_API", "Release"), None);
}

#[test]
fn a_call_to_the_previous_layer_goes_to_the_next_lower_definition() {
    let mut table = LayerTable::new();
    table.define("Order_API", "Release", Layer::Core, 1);
    table.define("Order_API", "Release", Layer::Extension, 3);
    assert_eq!(table.previous("Order_API", "Release", Layer::Extension), Some(1));
    assert_eq!(table.previous("Order_API", "Release", Layer::Customization), Some(1));
    assert_eq!(table.previous("Order_API", "Release", Layer::Core), None);
    table.define("Order_API", "Release", Layer::Customization, 2);
    assert_eq!(table.previous("Order_API", "Release", Layer::Extension), Some(2));
    assert_eq!(table.previous("Order_API", "Cancel", Layer::Extension), None);
}

#[test]
fn a_layer_holds_one_definition_of_a_routine() {
    let mut table = LayerTable::new();
    assert_eq!(table.define("P", "R", Layer::Core, 1), None);
    assert_eq!(table.define("P", "R", Layer::Core, 7), Some(1));
    assert_eq!(table.definition("P", "R", Layer::Core), Some(7));
    assert_eq!(table.definition("P", "R", Layer::Extension), None);
    assert_eq!(table.define("P", "r", Layer::Core, 8), None);
    assert_eq!(table.definition("P", "R", Layer::Core), Some(7));
    assert_eq!(table.definition("P", "r", Layer::Core), Some(8));
    assert_eq!(Layer::Extension.below(), Some(Layer::Customization));
    assert_eq!(Layer::Core.below(), None);
}
