use bwms::node::{Kind, Node};
use bwms::template::{expand, format_string, process, whole_placeholder, Data};
use bwms::toml;
use bwms::tweakxl::{interpret, interpret_from, EditOp, Op};
use bwms::yaml;

fn map(n: &Node) -> &[(String, Node)] {
    match &n.kind {
        Kind::Table(e) => e,
        _ => panic!("esperava mapa, veio {:?}", n.kind),
    }
}

fn list(n: &Node) -> &[Node] {
    match &n.kind {
        Kind::List(items) => items,
        _ => panic!("esperava lista, veio {:?}", n.kind),
    }
}

fn scalar(s: &str) -> Node {
    Node::scalar(s.to_string())
}

// ---- yaml ----

#[test]
fn dotted_e_aninhado() {
    let n = yaml::parse("PreventionSystem.setup.totalEntitiesLimit: 40\nExample.struct:\n  foo: 1\n  bar: 2\n").unwrap();
    let e = map(&n);
    assert_eq!(e[0].0, "PreventionSystem.setup.totalEntitiesLimit");
    assert_eq!(e[0].1.as_str(), Some("40"));
    assert_eq!(e[1].0, "Example.struct");
    let inner = map(&e[1].1);
    assert_eq!(inner[0], ("foo".to_string(), scalar("1")));
    assert_eq!(inner[1], ("bar".to_string(), scalar("2")));
}

#[test]
fn base_e_flow_seq() {
    let n = yaml::parse("Items.Weapon_B:\n  $base: Items.Weapon_A\n  tags: [a, b, c]\n").unwrap();
    let rec = &map(&n)[0].1;
    assert_eq!(rec.get("$base").unwrap().as_str(), Some("Items.Weapon_A"));
    assert_eq!(list(rec.get("tags").unwrap()).len(), 3);
}

#[test]
fn seq_com_tags_inline() {
    let n = yaml::parse(
        "Vehicle.vehicle_list.list:\n  - !prepend Vehicle.v_012\n  - !append Vehicle.v_std\n  - !remove Vehicle.v_old\n",
    )
    .unwrap();
    let items = list(&map(&n)[0].1);
    assert_eq!(items[0].tag.as_deref(), Some("!prepend"));
    assert_eq!(items[0].as_str(), Some("Vehicle.v_012"));
    assert_eq!(items[1].tag.as_deref(), Some("!append"));
    assert_eq!(items[2].tag.as_deref(), Some("!remove"));
}

#[test]
fn seq_item_tag_com_mapa() {
    let n = yaml::parse(
        "Items.Weapon_B:\n  statModifiers:\n    - !append\n      $type: ConstantStatModifier\n      value: -0.15\n",
    )
    .unwrap();
    let rec = &map(&n)[0].1;
    let items = list(rec.get("statModifiers").unwrap());
    assert_eq!(items[0].tag.as_deref(), Some("!append"));
    assert_eq!(items[0].get("$type").unwrap().as_str(), Some("ConstantStatModifier"));
    assert_eq!(items[0].get("value").unwrap().as_str(), Some("-0.15"));
}

#[test]
fn comentario_e_lockey_hash() {
    let n = yaml::parse("# comentário\nItems.X:\n  displayName: LocKey#45371  # inline\n  range: 30\n").unwrap();
    let rec = &map(&n)[0].1;
    assert_eq!(rec.get("displayName").unwrap().as_str(), Some("LocKey#45371"));
    assert_eq!(rec.get("range").unwrap().as_str(), Some("30"));
}

#[test]
fn rejeita_anchor() {
    assert!(yaml::parse("x: &anchor 1\n").is_err());
}

#[test]
fn yaml_errors_name_the_line() {
    assert_eq!(yaml::parse("a: 1\n\tb: 2\n").unwrap_err(), "linha 2: tab na indentação (use espaços)");
    assert_eq!(yaml::parse("---\na: 1\n").unwrap_err(), "linha 1: multi-documento não suportado");
    assert_eq!(yaml::parse("a: 1\n<<: b\n").unwrap_err(), "linha 2: âncoras/merge YAML não suportados");
    assert_eq!(yaml::parse("a: 1\n| b\n").unwrap_err(), "linha 2: escalares de bloco (|/>) não suportados");
    assert_eq!(yaml::parse("nada").unwrap_err(), "linha 1: esperava `chave: valor`");
    assert_eq!(
        yaml::parse("a: 1\n  b: 2\n").unwrap_err(),
        "linha 2: indentação inesperada (esperava fim do documento)"
    );
    assert_eq!(
        yaml::parse("a: |x\n").unwrap_err(),
        "valor YAML não suportado (âncora/alias/bloco): '|x'"
    );
    assert_eq!(yaml::parse("a: {b}\n").unwrap_err(), "flow map inválido: 'b'");
}

#[test]
fn yaml_edge_cases() {
    assert_eq!(map(&yaml::parse("").unwrap()).len(), 0);
    assert_eq!(map(&yaml::parse("# so comentario\n\n").unwrap()).len(), 0);
    let n = yaml::parse("a: 'x # y'\nb:\n\"c: d\": [ ]\ne: {k: [1, {z: 2}], }\r\n").unwrap();
    let e = map(&n);
    assert_eq!(e[0].1.as_str(), Some("x # y"));
    assert_eq!(e[1].1.as_str(), Some(""));
    assert_eq!(e[2].0, "c: d");
    assert_eq!(list(&e[2].1).len(), 0);
    let k = e[3].1.get("k").unwrap();
    assert_eq!(list(k)[0].as_str(), Some("1"));
    assert_eq!(list(k)[1].get("z").unwrap().as_str(), Some("2"));
    let n = yaml::parse("- a\n-\n  b: 1\n- c: 1\n  d: 2\n").unwrap();
    assert_eq!(list(&n).len(), 3);
    assert_eq!(list(&n)[0].as_str(), Some("a"));
    assert_eq!(list(&n)[2].get("d").unwrap().as_str(), Some("2"));
}

// ---- toml ----

#[test]
fn record_com_base_e_flats() {
    let src = r#"
            # cria uma arma a partir de uma base
            ["Items.MinhaArma"]
            "$base" = "Items.ArmaBase"
            damage = 100
            critChance = 0.5
        "#;
    let root = toml::parse(src).unwrap();
    let top = map(&root);
    assert_eq!(top.len(), 1);
    assert_eq!(top[0].0, "Items.MinhaArma");
    let rec = map(&top[0].1);
    assert_eq!(rec[0], ("$base".into(), Node { tag: None, kind: Kind::Scalar("Items.ArmaBase".into()) }));
    assert_eq!(rec[1].0, "damage");
    assert_eq!(rec[1].1.as_str(), Some("100"));
    assert_eq!(rec[2].1.as_str(), Some("0.5"));
}

#[test]
fn array_simples_atribuicao() {
    let root = toml::parse(r#"tags = ["A", "B", "C"]"#).unwrap();
    let items = list(&map(&root)[0].1);
    assert_eq!(items.len(), 3);
    assert!(items.iter().all(|i| i.tag.is_none()));
    assert_eq!(items[0].as_str(), Some("A"));
}

#[test]
fn ops_de_array_por_item_com_tag() {
    let root = toml::parse(r#"mods = [ { "!append" = "X" }, { "!remove" = "Y" } ]"#).unwrap();
    let items = list(&map(&root)[0].1);
    assert_eq!(items[0].tag.as_deref(), Some("!append"));
    assert_eq!(items[0].as_str(), Some("X"));
    assert_eq!(items[1].tag.as_deref(), Some("!remove"));
    assert_eq!(items[1].as_str(), Some("Y"));
}

#[test]
fn inline_table_vira_struct() {
    let root = toml::parse(r#"pos = { x = 1.0, y = 2.0, z = 3.0 }"#).unwrap();
    let m = map(&map(&root)[0].1);
    assert_eq!(m.len(), 3);
    assert_eq!(m[0].0, "x");
    assert_eq!(m[2].1.as_str(), Some("3.0"));
}

#[test]
fn multilinha_e_comentarios() {
    let src = r#"
            tags = [
              "A",   # primeiro
              "B",
            ]
        "#;
    let root = toml::parse(src).unwrap();
    assert_eq!(list(&map(&root)[0].1).len(), 2);
}

#[test]
fn tag_com_array_erra() {
    let err = toml::parse(r#"x = { "!append" = ["A", "B"] }"#).unwrap_err();
    assert!(err.contains("não array"), "msg: {err}");
}

#[test]
fn tag_com_mapa_inline_ok() {
    let root = toml::parse(r#"mods = [ { "!append" = { "$type" = "gamedataX_Record", v = 1 } } ]"#).unwrap();
    let items = list(&map(&root)[0].1);
    assert_eq!(items[0].tag.as_deref(), Some("!append"));
    assert!(matches!(items[0].kind, Kind::Table(_)));
}

#[test]
fn header_com_aspas() {
    let root = toml::parse("[\"Base.With.Dots\"]\nv = 1\n").unwrap();
    assert_eq!(map(&root)[0].0, "Base.With.Dots");
}

#[test]
fn toml_errors() {
    let err = |s: &str| toml::parse(s).unwrap_err();
    assert_eq!(err("[[x]]\n"), "array-of-tables `[[...]]` não suportado");
    assert_eq!(err("a = \"x\n"), "aspas não fechadas: `a = \"x`");
    assert_eq!(err("a = [1,\n"), "statement TOML incompleto (colchete/chave não fechado)");
    assert_eq!(err("solto\n"), "esperava `chave = valor` em `solto`");
    assert_eq!(err("a =\n"), "valor vazio");
    assert_eq!(err("a = [1]2\n"), "array malformado: `[1]2`");
    assert_eq!(err("a = {b=1}2\n"), "inline table malformada: `{b=1}2`");
    assert_eq!(err("a = 1\n[a]\nb = 2\n"), "tabela é sempre Map");
    assert_eq!(
        err("x = { \"!append\" = [1] }"),
        "tag `!append` aceita escalar ou record inline (mapa), não array; p/ vários use `[ { \"!append\" = item }, ... ]`"
    );
}

#[test]
fn toml_escapes_and_reopened_tables() {
    let root = toml::parse("[t]\na = \"x\\n\\\"y\\\\\\q\"\n[u]\n[t]\nb = 'raw\\n'\n").unwrap();
    let top = map(&root);
    assert_eq!(top.len(), 2);
    let t = map(&top[0].1);
    assert_eq!(t[0].1.as_str(), Some("x\n\"y\\\\q"));
    assert_eq!(t[1].1.as_str(), Some("raw\\n"));
}

#[test]
fn yaml_and_toml_meet_in_one_tree() {
    let a = yaml::parse("Items.A:\n  tags: [ !append X, !append Y ]\n").unwrap();
    let b = toml::parse("[Items.A]\ntags = [ { \"!append\" = \"X\" }, { \"!append\" = \"Y\" } ]\n").unwrap();
    assert_eq!(a, b);
}

// ---- template ----

#[test]
fn toml_escapes_inside_collections() {
    let root = toml::parse("a = [\"x\\\"y\", \"z\"]\nb = { \"k,1\" = \"p\\\"=q\" }\n").unwrap();
    assert_eq!(list(&map(&root)[0].1), &[scalar("x\"y"), scalar("z")]);
    assert_eq!(map(&map(&root)[1].1)[0], ("k,1".to_string(), scalar("p\"=q")));
}

#[test]
fn toml_refuses_what_it_cannot_read() {
    for src in [
        "a = \"\"\"x\"\"\"\n",
        "a = '''x'''\n",
        "a = [\"\"\"x\"\"\"]\n",
        "a = 1979-05-27\n",
        "a = 1979-05-27T07:32:00Z\n",
        "a = 07:32:00\n",
        "a.b = 1\n",
        "a = { b.c = 1 }\n",
        "[[x]]\n",
    ] {
        assert!(toml::parse(src).is_err(), "{src}");
    }
    assert!(toml::parse("a = \"1979-05-27\"\n\"a.b\" = 1\nc = 1.5\nd = \"\"\n").is_ok());
}

#[test]
fn yaml_refuses_what_it_cannot_read() {
    for src in [
        "x: { <<: y }\n",
        "x:\n  - <<: *a\n",
        "x:\n  - <<: y\n    k: v\n",
        "x:\n  - &a k: v\n    k2: v\n",
        "x: [ <<: y ]\n",
        "x: { &a k: v }\n",
        "--- {x: 1}\n",
        "--- # doc\nx: 1\n",
    ] {
        assert!(yaml::parse(src).is_err(), "{src}");
    }
    assert_eq!(yaml::parse("x: <<hello>>\n").unwrap(), yaml::parse("x: '<<hello>>'\n").unwrap());
}

#[test]
fn unexpanded_templates_are_refused() {
    let root = yaml::parse("Items.A:\n  $type: T\n  $instances:\n    - { n: 1 }\n  v: 2\n").unwrap();
    match interpret(&root) {
        Err(e) => assert_eq!(e, "'Items.A': template $instances não expandido"),
        Ok(_) => panic!("accepted"),
    }
    let root = yaml::parse("Items.A:\n  p:\n    $value: 1\n    $instances: x\n").unwrap();
    assert!(interpret(&root).is_err());
}

#[test]
fn records_read_back_from_both_formats() {
    let y = "Items.A:\n  damage: 10\n  name: Katana\nItems.B:\n  cost: 5\n";
    let t = "[Items.A]\ndamage = 10\nname = Katana\n[Items.B]\ncost = 5\n";
    let from_yaml = yaml::parse(y).unwrap();
    let root = map(&from_yaml);
    assert_eq!(root.len(), 2);
    assert_eq!(root[0].0, "Items.A");
    assert_eq!(map(&root[0].1)[0], ("damage".to_string(), scalar("10")));
    assert_eq!(map(&root[0].1)[1], ("name".to_string(), scalar("Katana")));
    assert_eq!(root[1].0, "Items.B");
    assert_eq!(map(&root[1].1)[0], ("cost".to_string(), scalar("5")));
    assert_eq!(from_yaml, toml::parse(t).unwrap());
}

#[test]
fn template_top_level_expande_n_records() {
    let src = "\
Items.Gun_$(name):
  $instances:
    - { name: A, dmg: 10 }
    - { name: B, dmg: 20 }
  $type: gamedataItemType_Record
  damage: $(dmg)
";
    let root = yaml::parse(src).unwrap();
    let exp = expand(&root).unwrap();
    let t = map(&exp);
    assert_eq!(t.len(), 2);
    assert_eq!(t[0].0, "Items.Gun_A");
    assert_eq!(t[1].0, "Items.Gun_B");
    assert_eq!(t[0].1.get("damage").unwrap().as_str(), Some("10"));
    assert_eq!(t[1].1.get("damage").unwrap().as_str(), Some("20"));
    assert!(t[0].1.get("$instances").is_none());
    assert_eq!(t[0].1.get("$type").unwrap().as_str(), Some("gamedataItemType_Record"));
}

#[test]
fn placeholder_embutido_em_string() {
    let mut data = Data::new();
    data.insert("x".into(), Node { tag: None, kind: Kind::Scalar("Foo".into()) });
    assert_eq!(format_string("pre_$(x)_pos", &data), "pre_Foo_pos");
    assert_eq!(format_string("${x}", &data), "Foo");
    assert_eq!(format_string("sem_marca", &data), "sem_marca");
    assert_eq!(format_string("a$(y)b", &data), "ab");
}

#[test]
fn doc_sem_templates_inalterado() {
    let src = "Items.Foo:\n  damage: 5\n";
    let root = yaml::parse(src).unwrap();
    let exp = expand(&root).unwrap();
    assert_eq!(map(&exp).len(), 1);
    assert_eq!(map(&exp)[0].1.get("damage").unwrap().as_str(), Some("5"));
    assert_eq!(exp, root);
}

#[test]
fn instances_aninhado_em_array() {
    let src = "\
Items.Foo:
  tags:
    - first
    - $instances:
        - { v: B }
        - { v: C }
      $value: $(v)
    - last
";
    let root = yaml::parse(src).unwrap();
    let exp = expand(&root).unwrap();
    let foo = &map(&exp)[0].1;
    let items = list(foo.get("tags").unwrap());
    let vals: Vec<&str> = items.iter().filter_map(Node::as_str).collect();
    assert_eq!(vals, vec!["first", "B", "C", "last"]);
}

#[test]
fn placeholders_at_the_edges() {
    let mut data = Data::new();
    data.insert("x".into(), scalar("1"));
    data.insert("x".into(), scalar("2"));
    data.insert("l".into(), Node { tag: Some("!t".into()), kind: Kind::List(vec![scalar("a")]) });
    assert_eq!(data.get("x").unwrap().as_str(), Some("2"));
    assert_eq!(format_string("$x $(x $", &data), "$x $(x $");
    assert_eq!(format_string("$$(x)", &data), "$2");
    assert_eq!(format_string("[$(l)]", &data), "[]");
    assert_eq!(whole_placeholder("$(nome)"), Some("nome".to_string()));
    assert_eq!(whole_placeholder("${a)"), None);
    assert_eq!(whole_placeholder("$(a)$(b)"), None);
    assert_eq!(whole_placeholder("$()"), None);
    let n = process(&Node { tag: None, kind: Kind::Scalar("$(l)".into()) }, &data);
    assert_eq!(n.tag.as_deref(), Some("!t"));
    assert_eq!(list(&n)[0].as_str(), Some("a"));
}

#[test]
fn template_errors() {
    let root = yaml::parse("A:\n  $instances: x\n").unwrap();
    assert_eq!(expand(&root).unwrap_err(), "'A': $instances precisa ser uma lista");
    let root = yaml::parse("A:\n  $instances:\n    - x\n").unwrap();
    assert_eq!(expand(&root).unwrap_err(), "cada item de $instances precisa ser um mapa de dados");
}

// ---- tweakxl ----

fn summarize(ops: &[Op]) -> Vec<String> {
    ops.iter()
        .map(|o| match o {
            Op::Clone { record, base } => format!("clone {record} <- {base}"),
            Op::Create { record, class } => format!("create {record} : {class}"),
            Op::Edit { flat, op } => format!("edit {flat} {}", editop(op)),
        })
        .collect()
}

fn editop(op: &EditOp) -> String {
    match op {
        EditOp::Assign(v) => format!("= {v}"),
        EditOp::Append(v) => format!("append {v}"),
        EditOp::AppendOnce(v) => format!("append-once {v}"),
        EditOp::Prepend(v) => format!("prepend {v}"),
        EditOp::PrependOnce(v) => format!("prepend-once {v}"),
        EditOp::Remove(v) => format!("remove {v}"),
        EditOp::AppendFrom(v) => format!("append-from {v}"),
        EditOp::PrependFrom(v) => format!("prepend-from {v}"),
    }
}

fn run(src: &str) -> Vec<String> {
    let root = yaml::parse(src).unwrap();
    let root = expand(&root).unwrap();
    summarize(&interpret_from(&root, "test.yaml").unwrap())
}

fn failure(src: &str) -> String {
    let root = yaml::parse(src).unwrap();
    match interpret(&root) {
        Ok(_) => panic!("esperava erro"),
        Err(e) => e,
    }
}

#[test]
fn flat_simples_e_base() {
    let s = run("Items.A:\n  $base: Items.B\n  damage: 10\n");
    assert_eq!(s, vec!["clone Items.A <- Items.B", "edit Items.A.damage = 10"]);
}

#[test]
fn tags_de_array_por_item() {
    let s = run("Items.A:\n  tags:\n    - !append X\n    - !remove Y\n    - !append-from Items.B.tags\n    - !merge Items.C.tags\n");
    assert_eq!(
        s,
        vec![
            "edit Items.A.tags append X",
            "edit Items.A.tags remove Y",
            "edit Items.A.tags append-from Items.B.tags",
            "edit Items.A.tags append-from Items.C.tags",
        ]
    );
}

#[test]
fn record_inline_em_array() {
    let s = run(
        "Items.A:\n  stats:\n    - $type: gamedataStat_Record\n      value: 1\n    - $type: gamedataStat_Record\n      value: 2\n",
    );
    assert_eq!(s.len(), 5, "ops: {s:?}");
    assert!(s[0].starts_with("create Items.A.stats$"));
    assert!(s[0].ends_with(": gamedataStat_Record"));
    assert!(s[1].starts_with("edit Items.A.stats$") && s[1].ends_with(".value = 1"));
    assert!(s[2].starts_with("create Items.A.stats$"));
    assert!(s[3].ends_with(".value = 2"));
    assert!(s[4].starts_with("edit Items.A.stats = [Items.A.stats$"));
    assert_ne!(&s[0], &s[2]);
}

#[test]
fn the_first_items_of_a_list_have_names_of_their_own() {
    let mut src = String::from("Items.A:\n  stats:\n");
    for i in 0..10 {
        src.push_str(&format!("    - $type: T\n      value: {i}\n"));
    }
    let made: std::collections::HashSet<String> =
        run(&src).into_iter().filter(|l| l.starts_with("create ")).collect();
    assert_eq!(made.len(), 10);
    assert_eq!(run(&src), run(&src));
}

#[test]
fn record_inline_como_flat_escalar() {
    let s = run("Items.A:\n  icon:\n    $type: gamedataUIIcon_Record\n    atlas: foo\n");
    assert_eq!(s.len(), 3, "ops: {s:?}");
    assert!(s[0].starts_with("create Items.A.icon$"));
    assert!(s[1].starts_with("edit Items.A.icon$") && s[1].ends_with(".atlas = foo"));
    assert!(s[2].starts_with("edit Items.A.icon = Items.A.icon$"));
}

#[test]
fn nome_inline_e_deterministico() {
    let a = run("Items.A:\n  ref:\n    $type: gamedataX_Record\n    v: 1\n");
    let b = run("Items.A:\n  ref:\n    $type: gamedataX_Record\n    v: 1\n");
    assert_eq!(a, b);
}

#[test]
fn structures_become_positional() {
    let s = run("Items.A:\n  pos: {z: 3, x: 1, y: 2}\n  rot: {r: 4, i: 1, j: 2, k: 3}\n  v: {x: 1}\n  w: {$value: 7}\n");
    assert_eq!(
        s,
        vec![
            "edit Items.A.pos = 1,2,3",
            "edit Items.A.rot = 1,2,3,4",
            "edit Items.A.v.x = 1",
            "edit Items.A.w = 7",
        ]
    );
}

#[test]
fn interpreter_errors() {
    assert_eq!(failure("- a\n"), "o documento precisa ser um mapa de records/flats");
    assert_eq!(failure("A:\n  $base: [x]\n"), "'A': $base precisa ser um nome de record");
    assert_eq!(failure("A:\n  $type: [x]\n"), "'A': $type precisa ser um nome de classe");
    assert_eq!(failure("A:\n  $foo: 1\n"), "'A': chave '$foo' não suportada offline");
    assert_eq!(failure("A:\n  b: {$value: [x]}\n"), "'A.b': $value precisa ser escalar");
    assert_eq!(failure("A:\n  b: {$type: [x]}\n"), "'A.b': record inline precisa de $type ou $base");
    assert_eq!(failure("A: [[x]]\n"), "'A': elemento de array precisa ser escalar");
    assert_eq!(failure("A: [!append x, y]\n"), "'A': item sem tag numa lista de operações (!append etc.)");
    assert_eq!(
        failure("A: [!append [x]]\n"),
        "'A': operação '!append' espera valor escalar (ou record inline)"
    );
    assert_eq!(failure("A: [!foo x]\n"), "'A': tag de array desconhecida '!foo'");
    assert_eq!(run("A:\n  $game: x\n  b: 1\n"), vec!["edit A.b = 1"]);
}
