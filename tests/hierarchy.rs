use catalogue::hierarchy::Catalogue;
use catalogue::models::{Category, Product};

fn category(id: i64, name: &str, parent_id: Option<i64>) -> Category {
    Category { id, name: name.to_string(), description: None, parent_id }
}

fn product(id: i64, name: &str, category_id: Option<i64>) -> Product {
    Product { id, name: name.to_string(), description: None, price: 100 * id, category_id }
}

fn sample() -> Catalogue {
    Catalogue::new(
        vec![
            category(1, "Electronics", None),
            category(2, "Phones", Some(1)),
            category(3, "Cases", Some(2)),
        ],
        vec![product(1, "P1", Some(2)), product(2, "P2", Some(3))],
    )
    .unwrap()
}

fn category_ids(cs: &[Category]) -> Vec<i64> {
    cs.iter().map(|c| c.id).collect()
}

fn product_ids(ps: &[Product]) -> Vec<i64> {
    ps.iter().map(|p| p.id).collect()
}

#[test]
fn resolve_root_of_three_levels() {
    let t = sample();
    let r = t.resolve(1);
    assert_eq!(category_ids(&r.sub_categories), vec![1, 2, 3]);
    assert_eq!(product_ids(&r.products), vec![1, 2]);
    assert!(r.parent_categories.is_empty());
    for id in [1, 2, 3] {
        assert!(t.is_in_subtree(1, id));
    }
}

#[test]
fn resolve_middle_category() {
    let t = sample();
    let r = t.resolve(2);
    assert_eq!(category_ids(&r.sub_categories), vec![2, 3]);
    assert!(t.is_in_subtree(2, 2));
    assert!(!t.is_in_subtree(2, 1));
    assert_eq!(product_ids(&r.products), vec![1, 2]);
    assert_eq!(category_ids(&r.parent_categories), vec![1]);
    assert_eq!(r.parent_categories[0].name, "Electronics");
}

#[test]
fn resolve_leaf_category() {
    let t = sample();
    let r = t.resolve(3);
    assert_eq!(category_ids(&r.sub_categories), vec![3]);
    assert_eq!(product_ids(&r.products), vec![2]);
    assert_eq!(category_ids(&r.parent_categories), vec![1, 2]);
}

#[test]
fn every_category_is_in_its_own_subtree() {
    let t = sample();
    for id in [1, 2, 3] {
        assert!(t.is_in_subtree(id, id));
        assert!(category_ids(&t.sub_categories(id)).contains(&id));
    }
}

#[test]
fn parent_is_an_ancestor_and_self_is_not() {
    let t = sample();
    for (id, parent) in [(2, 1), (3, 2)] {
        let ps = category_ids(&t.parent_categories(id));
        assert!(ps.contains(&parent));
        assert!(!ps.contains(&id));
    }
}

#[test]
fn subtree_and_ancestors_are_disjoint() {
    let t = sample();
    for id in [1, 2, 3] {
        let below = category_ids(&t.sub_categories(id));
        let above = category_ids(&t.parent_categories(id));
        assert!(below.iter().all(|x| !above.contains(x)));
    }
}

#[test]
fn resolving_twice_gives_the_same_result() {
    let t = sample();
    for id in [1, 2, 3, 4] {
        let a = t.resolve(id);
        let b = t.resolve(id);
        assert_eq!(product_ids(&a.products), product_ids(&b.products));
        assert_eq!(category_ids(&a.sub_categories), category_ids(&b.sub_categories));
        assert_eq!(category_ids(&a.parent_categories), category_ids(&b.parent_categories));
    }
}

#[test]
fn unknown_category_resolves_to_empty_lists() {
    let t = sample();
    let r = t.resolve(42);
    assert!(r.products.is_empty());
    assert!(r.sub_categories.is_empty());
    assert!(r.parent_categories.is_empty());
}

#[test]
fn uncategorized_products_are_never_rolled_up() {
    let t = Catalogue::new(
        vec![category(1, "Root", None)],
        vec![product(1, "loose", None), product(2, "filed", Some(1))],
    )
    .unwrap();
    assert_eq!(product_ids(&t.subtree_products(1)), vec![2]);
}

#[test]
fn cyclic_parents_terminate() {
    let t = Catalogue::new(
        vec![category(1, "A", Some(2)), category(2, "B", Some(1)), category(3, "C", Some(2))],
        vec![product(1, "x", Some(3))],
    )
    .unwrap();
    let r = t.resolve(1);
    assert_eq!(category_ids(&r.sub_categories), vec![1, 2, 3]);
    assert_eq!(category_ids(&r.parent_categories), vec![2]);
    assert_eq!(product_ids(&r.products), vec![1]);
}

#[test]
fn missing_parent_row_ends_the_walk() {
    let t = Catalogue::new(vec![category(5, "Orphan", Some(9))], vec![]).unwrap();
    assert!(t.parent_categories(5).is_empty());
    assert_eq!(t.parent_of(5), None);
}

#[test]
fn parent_of_follows_one_link() {
    let t = sample();
    assert_eq!(t.parent_of(3), Some(2));
    assert_eq!(t.parent_of(1), None);
    assert_eq!(t.find_category(2), Some(1));
    assert_eq!(t.find_category(7), None);
}

#[test]
fn unsorted_input_is_refused() {
    assert!(Catalogue::new(vec![category(2, "B", None), category(1, "A", None)], vec![]).is_none());
    assert!(Catalogue::new(vec![category(1, "A", None), category(1, "A", None)], vec![]).is_none());
    assert!(Catalogue::new(vec![], vec![product(3, "c", None), product(2, "b", None)]).is_none());
    assert!(Catalogue::new(vec![], vec![]).is_some());
}
