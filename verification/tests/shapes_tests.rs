use luxifer::pattern_fill::Pattern;
use luxifer::shapes::PolyShape;

#[test]
fn katalog_hat_alle_formen_mit_stabiler_id() {
    let cat = PolyShape::catalog();
    assert_eq!(cat.len(), 9);
    assert_eq!(cat[0].id, "tri");
    assert_eq!(cat[3].id, "hex");
    assert!(cat.iter().all(|c| c.id == c.icon));
}

#[test]
fn from_id_findet_und_verwirft() {
    assert_eq!(PolyShape::from_id("star"), Some(PolyShape::Star));
    assert_eq!(PolyShape::from_id("herz"), None);
}

#[test]
fn every_catalog_id_reads_back() {
    for info in PolyShape::catalog() {
        let shape = PolyShape::from_id(&info.id).expect("catalog id is known");
        assert_eq!(shape.id(), info.id);
        assert_eq!(shape.label(), info.label);
    }
}

#[test]
fn pattern_keys() {
    assert_eq!(Pattern::from_key("lines"), Some(Pattern::Lines));
    assert_eq!(Pattern::from_key("hex"), Some(Pattern::Hex));
    assert_eq!(Pattern::from_key("waves"), None);
}
