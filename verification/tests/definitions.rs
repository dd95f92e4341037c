use toast::definitions::Definitions;

#[test]
fn a_definition_is_found_and_replaced() {
    let mut d: Definitions<u32> = Definitions::new();
    let x = String::from("x");
    assert_eq!(d.get(&x), None);
    d.define(String::from("x"), 1);
    d.define(String::from("y"), 2);
    assert_eq!(d.get(&x), Some(&1));
    d.define(String::from("x"), 3);
    assert_eq!(d.get(&x), Some(&3));
    assert_eq!(d.get(&String::from("y")), Some(&2));
    assert_eq!(d.get(&String::from("z")), None);
}
