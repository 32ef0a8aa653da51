use tcgscan::models::CustomData;

#[test]
fn custom_data_default_is_empty() {
    let d = CustomData::default();
    assert!(d.images.is_empty());
    assert_eq!(d.title, None);
    assert_eq!(d.description, None);
    assert_eq!(d.link_id, None);
}
