use bwms::bindings::{
    additions_block, bindings_inner, collect_elements, extract_elements, is_merged, merge_file,
    merge_into, restore_file, unknown_tags, ConfigFile, Target,
};

#[test]
fn extrai_self_closing_e_aninhado() {
    let xml = r#"
            <mapping name="A" type="Axis">
                <button id="IK_W"/>
            </mapping>
            <!-- c -->
            <preset name="P"/>
            <context name="C"><action/></context>
        "#;
    let els = extract_elements(xml);
    let tags: Vec<&str> = els.iter().map(|(t, _)| t.as_str()).collect();
    assert_eq!(tags, vec!["mapping", "preset", "context"]);
    assert!(els[0].1.contains("IK_W"));
    assert!(els[1].1.ends_with("/>"));
}

#[test]
fn merge_insere_antes_do_fecho() {
    let base = "<bindings>\n\t<mapping name=\"X\"/>\n</bindings>\n";
    let out = merge_into(base, "\n\t<mapping name=\"Y\"/>\n").unwrap();
    assert!(out.find("name=\"Y\"").unwrap() < out.find("</bindings>").unwrap());
    assert!(out.find("name=\"X\"").unwrap() < out.find("name=\"Y\"").unwrap());
}

#[test]
fn bindings_inner_pega_miolo() {
    let xml = "<?xml?>\n<bindings>\nMEIO\n</bindings>\n";
    assert_eq!(bindings_inner(xml).unwrap().trim(), "MEIO");
}

#[test]
fn nested_elements_of_one_name() {
    let els = extract_elements("<a><a x='1'/><a></a></a><b/></c><?d?><!e><f");
    assert_eq!(
        els,
        vec![
            ("a".to_string(), "<a><a x='1'/><a></a></a>".to_string()),
            ("b".to_string(), "<b/>".to_string()),
        ]
    );
    assert!(extract_elements("<a><b></b>").is_empty());
    assert!(extract_elements("<!-- <a/>").is_empty());
    assert_eq!(bindings_inner("<bindings></bindings>"), None);
    assert_eq!(merge_into("x", "y").unwrap_err(), "base sem </bindings>");
}

#[test]
fn elements_are_routed_by_tag() {
    let mods = vec![
        "<bindings>\n <context a='1'/>\n <mapping b='2'/>\n <odd/></bindings>".to_string(),
        "<mapping c='3'/><odd/><other/>".to_string(),
    ];
    let els = collect_elements(&mods);
    assert_eq!(els.len(), 6);
    assert_eq!(unknown_tags(&els), vec!["odd", "other"]);
    let (n, block) = additions_block(&els, Target::UserMappings);
    assert_eq!(n, 2);
    assert_eq!(
        block,
        "\n\t<!-- input-loader: 2 node(s) de mods -->\n\t<mapping b='2'/>\n\t<mapping c='3'/>\n"
    );
    let (n, _) = additions_block(&els, Target::Contexts);
    assert_eq!(n, 1);
}

#[test]
fn merging_repeats_and_undoes() {
    let els = collect_elements(&vec!["<mapping b='2'/>".to_string()]);
    let f = ConfigFile { base: "<bindings></bindings>".to_string(), orig: None };
    assert!(restore_file(&f).is_none());
    let once = merge_file(&f, &els, Target::UserMappings).unwrap();
    assert!(is_merged(&once.base));
    let twice = merge_file(&once, &els, Target::UserMappings).unwrap();
    assert_eq!(once.base, twice.base);
    let back = restore_file(&twice).unwrap();
    assert_eq!(back.base, f.base);
    assert!(!is_merged(&back.base));
}

#[test]
fn longer_names_are_no_nesting() {
    let inner = "<hold><holdTime>1</holdTime></hold>";
    assert_eq!(extract_elements(inner), vec![("hold".to_string(), inner.to_string())]);
    let nested = "<a><a-b/><a>x</a></a><b/>";
    assert_eq!(
        extract_elements(nested),
        vec![("a".to_string(), "<a><a-b/><a>x</a></a>".to_string()), ("b".to_string(), "<b/>".to_string())]
    );
}
