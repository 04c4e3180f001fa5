use catalogue::models::{Category, SubCategory};

#[test]
fn subcategory_with_id_converts() {
    let sc = SubCategory {
        id: Some(4),
        name: "Cases".to_string(),
        description: Some("for phones".to_string()),
        parent_id: Some(2),
    };
    let c = Category::try_from(&sc).unwrap();
    assert_eq!(c.id, 4);
    assert_eq!(c.name, "Cases");
    assert_eq!(c.description.as_deref(), Some("for phones"));
    assert_eq!(c.parent_id, Some(2));
}

#[test]
fn subcategory_without_id_is_refused() {
    let sc = SubCategory { id: None, name: "x".to_string(), description: None, parent_id: None };
    assert_eq!(Category::try_from(&sc).unwrap_err(), "Couldnt convert subcategory into category");
}

#[test]
fn copies_keep_every_field() {
    let c = Category { id: 1, name: "A".to_string(), description: None, parent_id: Some(3) };
    let d = c.copy();
    assert_eq!((d.id, d.name.as_str(), d.description, d.parent_id), (1, "A", None, Some(3)));
}
