use wacc_32::analyser::semantic::{table_lookup, table_update};
use wacc_32::ast::Type;
use wacc_32::ident_map::IdentMap;

fn tables() -> Vec<IdentMap<Type>> {
    let table: IdentMap<Type> = IdentMap::new();
    let mut vec: Vec<IdentMap<Type>> = Vec::new();
    vec.insert(0, table);

    for i in 0..4 {
        let mut curr: IdentMap<Type> = IdentMap::new();

        let var1 = format!("{}{}", "x", i);
        let var2 = format!("{}{}", "y", i);
        let var3 = format!("{}{}", "z", i);

        curr.insert(var1, Type::Bool);
        curr.insert(var2, Type::Int);
        curr.insert(var3, Type::String);

        vec.insert(0, curr.clone());
    }
    vec
}

#[test]
fn semantic_test_table_lookup() {
    let vec = tables();

    assert_eq!(table_lookup(&vec, "x3"), Ok(Type::Bool),);

    assert_eq!(table_lookup(&vec, "z3"), Ok(Type::String),);

    assert_ne!(table_lookup(&vec, "v3"), Ok(Type::String),);

    assert_eq!(table_lookup(&vec, "random"), Err("not found".to_string()),);
}

#[test]
fn semantic_test_table_update() {
    let mut vec = tables();

    // before tests = [x1: Bool, y1: Int, z1: String][x2: Bool, y2: Int, z2: String]
    // [x3: Bool, y3: Int, z3: String]

    let mut expected: IdentMap<Type> = IdentMap::new();
    expected.insert("x1".to_string(), Type::Char);
    expected.insert("y1".to_string(), Type::Int);
    expected.insert("z1".to_string(), Type::String);
    assert_eq!(table_update(&mut vec, "x1", Type::Char, true), Ok(expected));

    assert_ne!(table_lookup(&vec, "x1"), Ok(Type::Bool),)
}

#[test]
fn update_of_a_new_name_goes_to_the_innermost_table() {
    let mut vec = tables();
    let r = table_update(&mut vec, "w", Type::Char, false).unwrap();
    assert_eq!(r.len(), 4);
    assert_eq!(table_lookup(&vec, "w"), Ok(Type::Char));
    /* An existing name keeps its type. */
    table_update(&mut vec, "x3", Type::Char, false).unwrap();
    assert_eq!(table_lookup(&vec, "x3"), Ok(Type::Bool));
}
