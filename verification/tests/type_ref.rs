use beans_core::jvm::{PrimitiveKind, TypeRef};

#[test]
fn display_simple_types() {
    assert_eq!(TypeRef::Void.to_string(), "void");
    assert_eq!(TypeRef::Primitive(PrimitiveKind::Int).to_string(), "int");
    assert_eq!(TypeRef::simple("String").to_string(), "String");
    assert_eq!(TypeRef::type_var("T").to_string(), "T");
    assert_eq!(TypeRef::Unknown.to_string(), "<unknown>");
}

#[test]
fn display_parameterized() {
    let list_string = TypeRef::parameterized(TypeRef::simple("List"), vec![TypeRef::simple("String")]);
    assert_eq!(list_string.to_string(), "List<String>");

    let map = TypeRef::parameterized(
        TypeRef::simple("Map"),
        vec![TypeRef::simple("String"), TypeRef::simple("Integer")],
    );
    assert_eq!(map.to_string(), "Map<String, Integer>");
}

#[test]
fn display_wildcards() {
    assert_eq!(TypeRef::Wildcard { bound: None }.to_string(), "?");
    assert_eq!(TypeRef::wildcard_extends(TypeRef::simple("Number")).to_string(), "? extends Number");
    assert_eq!(TypeRef::wildcard_super(TypeRef::simple("Integer")).to_string(), "? super Integer");
}

#[test]
fn display_array() {
    assert_eq!(TypeRef::array(TypeRef::Primitive(PrimitiveKind::Int)).to_string(), "int[]");
    assert_eq!(TypeRef::array(TypeRef::array(TypeRef::simple("String"))).to_string(), "String[][]");
}

#[test]
fn erasure_parameterized() {
    let list_string = TypeRef::parameterized(
        TypeRef::simple("java.util.List"),
        vec![TypeRef::simple("java.lang.String")],
    );
    assert_eq!(list_string.erasure(), TypeRef::simple("java.util.List"));
}

#[test]
fn erasure_type_variable() {
    let t = TypeRef::type_var("T");
    assert_eq!(t.erasure(), TypeRef::simple("java.lang.Object"));
}

#[test]
fn erasure_wildcard() {
    let w = TypeRef::wildcard_extends(TypeRef::simple("Number"));
    assert_eq!(w.erasure(), TypeRef::simple("Number"));
}

#[test]
fn substitute_type_variables() {
    let map_t_list_u = TypeRef::parameterized(
        TypeRef::simple("Map"),
        vec![
            TypeRef::type_var("T"),
            TypeRef::parameterized(TypeRef::simple("List"), vec![TypeRef::type_var("U")]),
        ],
    );

    let bindings = vec![
        ("T".to_string(), TypeRef::simple("String")),
        ("U".to_string(), TypeRef::simple("Integer")),
    ];

    let result = map_t_list_u.substitute(&bindings);
    assert_eq!(result.to_string(), "Map<String, List<Integer>>");
}

#[test]
fn primitive_widening() {
    assert!(PrimitiveKind::Int.widens_to(&PrimitiveKind::Long));
    assert!(PrimitiveKind::Int.widens_to(&PrimitiveKind::Double));
    assert!(!PrimitiveKind::Int.widens_to(&PrimitiveKind::Short));
    assert!(!PrimitiveKind::Long.widens_to(&PrimitiveKind::Int));
    assert!(PrimitiveKind::Char.widens_to(&PrimitiveKind::Int));
}

#[test]
fn primitive_boxing() {
    assert_eq!(PrimitiveKind::Int.boxed_fqn(), "java.lang.Integer");
    assert_eq!(PrimitiveKind::Char.boxed_fqn(), "java.lang.Character");
}

#[test]
fn intersections_print_and_erase_to_their_first_member() {
    let both = TypeRef::Intersection {
        types: vec![TypeRef::simple("Serializable"), TypeRef::simple("Comparable")],
    };
    assert_eq!(both.to_string(), "Serializable & Comparable");
    assert_eq!(both.erasure(), TypeRef::simple("Serializable"));
    assert_eq!(TypeRef::Intersection { types: vec![] }.erasure(), TypeRef::simple("java.lang.Object"));
}

#[test]
fn erasure_reaches_into_arrays_and_drops_super_bounds() {
    let arr = TypeRef::array(TypeRef::parameterized(TypeRef::simple("List"), vec![TypeRef::type_var("T")]));
    assert_eq!(arr.erasure(), TypeRef::array(TypeRef::simple("List")));
    assert_eq!(
        TypeRef::wildcard_super(TypeRef::simple("Integer")).erasure(),
        TypeRef::simple("java.lang.Object")
    );
    assert_eq!(arr.erasure().erasure(), arr.erasure());
}

#[test]
fn substitution_keeps_unbound_variables_and_first_binding_wins() {
    let t = TypeRef::parameterized(TypeRef::simple("Pair"), vec![TypeRef::type_var("T"), TypeRef::type_var("V")]);
    let bindings = vec![
        ("T".to_string(), TypeRef::simple("A")),
        ("T".to_string(), TypeRef::simple("B")),
    ];
    assert_eq!(t.substitute(&bindings).to_string(), "Pair<A, V>");
    assert_eq!(t.substitute(&vec![]), t);
}

#[test]
fn primitive_names_parse_back() {
    for p in [
        PrimitiveKind::Boolean,
        PrimitiveKind::Byte,
        PrimitiveKind::Short,
        PrimitiveKind::Int,
        PrimitiveKind::Long,
        PrimitiveKind::Float,
        PrimitiveKind::Double,
        PrimitiveKind::Char,
    ] {
        assert_eq!(PrimitiveKind::from_str(p.name()), Some(p));
    }
    assert_eq!(PrimitiveKind::from_str("integer"), None);
    assert!(!PrimitiveKind::Boolean.widens_to(&PrimitiveKind::Int));
}
