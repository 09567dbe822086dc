use bwms::bake::{is_loaded, lookup, BakedFlats};
use bwms::cursor::encode_lp_string;
use bwms::encode::{encode_floats, float_texts};
use bwms::hashes::{fnv1a64, tweak_db_id};
use bwms::kraken::{decompress, packing, unpack_failure, KrakenError, Packing};
use bwms::names::NameDb;
use bwms::tweakdb::{
    encode_array, encode_value, red_type_name, resolve_type, split_array_elements, type_hashes,
    vlq_encode, Cursor, FlatValue, ResolvedType, TweakDb, MAGIC,
};
use std::collections::HashSet;

#[test]
fn vlq_decodifica_valores() {
    let mut c = Cursor::new(&[0x00]);
    assert_eq!(c.vlq_i32().unwrap(), 0);
    let mut c = Cursor::new(&[0x05]);
    assert_eq!(c.vlq_i32().unwrap(), 5);
    let mut c = Cursor::new(&[0b1000_0001]);
    assert_eq!(c.vlq_i32().unwrap(), -1);
    let mut c = Cursor::new(&[0b0100_0000, 0x01]);
    assert_eq!(c.vlq_i32().unwrap(), 64);
}

#[test]
fn string_utf8_negativa() {
    let mut buf = vec![0b1000_0011];
    buf.extend_from_slice(b"abc");
    let mut c = Cursor::new(&buf);
    assert_eq!(c.lp_string().unwrap(), "abc");
}

#[test]
fn type_hashes_distintos_e_resolvem() {
    let mut seen = HashSet::new();
    for i in 0..20 {
        let red = red_type_name(i);
        assert!(seen.insert(fnv1a64(red.as_bytes())));
        assert!(seen.insert(fnv1a64(format!("array:{red}").as_bytes())));
    }
    assert_eq!(seen.len(), 40);
    let hashes = type_hashes();
    let r = resolve_type(&hashes, fnv1a64(b"array:Float")).unwrap();
    assert_eq!(r, ResolvedType { index: 4, is_array: true });
    assert_eq!(r.label(), "array:CFloat");
    assert!(resolve_type(&hashes, 0).is_none());
}

#[test]
fn encode_bool_case_insensitive_e_rejeita_lixo() {
    assert_eq!(encode_value(5, "true").unwrap(), vec![1]);
    assert_eq!(encode_value(5, "TRUE").unwrap(), vec![1]);
    assert_eq!(encode_value(5, "false").unwrap(), vec![0]);
    assert_eq!(encode_value(5, "0").unwrap(), vec![0]);
    assert!(encode_value(5, "2").is_err());
    assert!(encode_value(5, "yes").is_err());
}

#[test]
fn encode_int_rejeita_overflow() {
    assert_eq!(encode_value(12, "1000").unwrap(), 1000i32.to_le_bytes().to_vec());
    assert!(encode_value(12, "5000000000").is_err());
    assert!(encode_value(6, "256").is_err());
    assert!(encode_value(6, "-1").is_err());
}

#[test]
fn vlq_round_trip() {
    for v in [0i32, 1, 5, -1, 63, 64, -64, 127, 128, 8191, 8192, 1_000_000, -1_000_000] {
        let bytes = vlq_encode(v);
        let mut c = Cursor::new(&bytes);
        assert_eq!(c.vlq_i32().unwrap(), v, "vlq round-trip de {v}");
    }
    for v in [i32::MAX, i32::MIN] {
        let bytes = vlq_encode(v);
        assert_eq!(Cursor::new(&bytes).vlq_i32().unwrap(), v);
    }
}

#[test]
fn string_round_trip() {
    for s in ["", "base\\test.ent", "Hello World", "café"] {
        let bytes = encode_lp_string(s);
        let mut c = Cursor::new(&bytes);
        assert_eq!(c.lp_string().unwrap(), s, "string round-trip de {s:?}");
    }
}

#[test]
fn array_round_trip() {
    let elems = vec![
        encode_value(8, "1").unwrap(),
        encode_value(8, "2").unwrap(),
        encode_value(8, "300").unwrap(),
    ];
    let raw = encode_array(&elems);
    assert_eq!(split_array_elements(&raw, 8).unwrap(), elems);
    assert!(split_array_elements(&encode_array(&[]), 8).unwrap().is_empty());
}

#[test]
fn id_de_nome_e_hex() {
    assert_eq!(
        encode_value(2, "$Items.Test").unwrap(),
        tweak_db_id("Items.Test").to_le_bytes().to_vec()
    );
    assert_eq!(
        encode_value(2, "0x1122334455667788").unwrap(),
        0x1122_3344_5566_7788_u64.to_le_bytes().to_vec()
    );
}

#[test]
fn ids_in_every_form() {
    let id = |s: &str| {
        let b = encode_value(2, s).unwrap();
        u64::from_le_bytes(b.try_into().unwrap())
    };
    assert_eq!(id(""), 0);
    assert_eq!(id("None"), 0);
    assert_eq!(id("t\"Items.A\""), tweak_db_id("Items.A"));
    assert_eq!(id("t 'Items.A'"), tweak_db_id("Items.A"));
    assert_eq!(id("TweakDBID(\"Items.A\")"), tweak_db_id("Items.A"));
    assert_eq!(id("Items.A"), tweak_db_id("Items.A"));
    assert_eq!(id("LocKey# 45371"), 45371);
    assert_eq!(id("<TDBID:ABCD1234:0A>"), 0x0A_ABCD_1234);
    assert_eq!(id("+17"), 17);
    let err = |s: &str| encode_value(2, s).unwrap_err();
    assert_eq!(err("r\"x\""), "'r\"x\"': ref de recurso (ResRef) por caminho ainda não suportado");
    assert_eq!(err("LocKey#x"), "'LocKey#x' inválido ou fora da faixa para LocKey#<número>");
    assert_eq!(err("<TDBID:Z:1>"), "'<TDBID:Z:1>' inválido ou fora da faixa para TDBID crc");
    assert_eq!(err("<TDBID:1:100>"), "'<TDBID:1:100>' inválido ou fora da faixa para TDBID len");
    assert_eq!(err("0xZ"), "'0xZ' inválido ou fora da faixa para id (hex u64)");
    assert_eq!(
        err("-1"),
        "'-1' inválido ou fora da faixa para id ($Nome, t\"Nome\", LocKey#N, 0xHEX, decimal ou None)"
    );
}

#[test]
fn scalars_of_every_kind() {
    assert_eq!(encode_value(0, "n\"Foo\"").unwrap(), encode_lp_string("Foo"));
    assert_eq!(encode_value(0, "CName('Foo')").unwrap(), encode_lp_string("Foo"));
    assert_eq!(encode_value(1, " n\"Foo\" ").unwrap(), encode_lp_string("n\"Foo\""));
    assert_eq!(encode_value(10, "-128").unwrap(), vec![0x80]);
    assert_eq!(encode_value(11, "-2").unwrap(), vec![0xFE, 0xFF]);
    assert_eq!(encode_value(13, "-1").unwrap(), vec![0xFF; 8]);
    assert_eq!(encode_value(7, "65535").unwrap(), vec![0xFF, 0xFF]);
    assert_eq!(encode_value(9, "256").unwrap(), vec![0, 1, 0, 0, 0, 0, 0, 0]);
    assert_eq!(encode_value(14, "1, 2,3,255").unwrap(), vec![1, 2, 3, 255]);
    assert_eq!(encode_value(14, "#01FF0aB0").unwrap(), vec![1, 255, 10, 176]);
    assert_eq!(
        encode_value(14, "#12").unwrap_err(),
        "'#12': Color hex precisa de 8 dígitos (#RRGGBBAA)"
    );
    assert_eq!(encode_value(14, "#ééaabb").unwrap_err(), "'#ééaabb' inválido ou fora da faixa para Color");
    assert_eq!(
        encode_value(14, "1,2").unwrap_err(),
        "'1,2': Color precisa de 'r,g,b,a' (0-255) ou '#RRGGBBAA'"
    );
    assert_eq!(encode_value(14, "1,2,3,256").unwrap_err(), "'256' inválido ou fora da faixa para Color (0-255)");
    assert_eq!(encode_value(20, "x").unwrap_err(), "índice de tipo 20 desconhecido");
    assert_eq!(encode_value(5, "sim").unwrap_err(), "'sim' não é um Bool válido (use true/false/1/0)");
}

#[test]
fn floats_are_encoded_from_their_bits() {
    let texts = float_texts(18, " 1.5, -2 ,3 ").unwrap();
    assert_eq!(texts, vec!["1.5", "-2", "3"]);
    let bits: Vec<Option<u32>> = texts.iter().map(|t| t.parse::<f32>().ok().map(f32::to_bits)).collect();
    let mut want = 1.5f32.to_le_bytes().to_vec();
    want.extend_from_slice(&(-2f32).to_le_bytes());
    want.extend_from_slice(&3f32.to_le_bytes());
    assert_eq!(encode_floats(18, " 1.5, -2 ,3 ", &bits).unwrap(), want);
    assert_eq!(float_texts(4, " 7 ").unwrap(), vec!["7"]);
    assert_eq!(encode_floats(4, "x", &vec![None]).unwrap_err(), "'x' inválido ou fora da faixa para Float");
    assert_eq!(
        float_texts(17, "1").unwrap_err(),
        "'1': Vector2 precisa de 2 floats separados por vírgula"
    );
}

fn put32(out: &mut Vec<u8>, v: u32) {
    out.extend_from_slice(&v.to_le_bytes());
}

fn put64(out: &mut Vec<u8>, v: u64) {
    out.extend_from_slice(&v.to_le_bytes());
}

/// A small file: one group of strings, one of unknown type, two records, one
/// query and one group tag.
fn sample() -> Vec<u8> {
    let mut d = Vec::new();
    put32(&mut d, MAGIC);
    put32(&mut d, 8);
    put32(&mut d, 4);
    put32(&mut d, 0xC0FFEE);
    for _ in 0..4 {
        put32(&mut d, 0);
    }
    let flats = d.len() as u32;
    put32(&mut d, 2);
    put64(&mut d, fnv1a64(b"array:String"));
    put32(&mut d, 2);
    put32(&mut d, 3);
    let slot = d.len();
    put32(&mut d, 0);
    put64(&mut d, 0xABCD);
    put32(&mut d, 0);
    put32(&mut d, 4);
    put32(&mut d, 0);
    let group = d.len() as u32;
    d[slot..slot + 4].copy_from_slice(&group.to_le_bytes());
    put32(&mut d, 2);
    d.extend(encode_array(&[encode_lp_string("a"), encode_lp_string("é")]));
    d.extend(encode_array(&[]));
    put32(&mut d, 3);
    for (id, index) in [(10u64, 0i32), (11, 1), (12, 0)] {
        put64(&mut d, id);
        put32(&mut d, index as u32);
    }
    let records = d.len() as u32;
    put32(&mut d, 3);
    for (id, key) in [(1u64, 7u32), (2, 7), (3, 9)] {
        put64(&mut d, id);
        put32(&mut d, key);
    }
    let queries = d.len() as u32;
    put32(&mut d, 1);
    put64(&mut d, 5);
    put32(&mut d, 2);
    put64(&mut d, 51);
    put64(&mut d, 52);
    let tags = d.len() as u32;
    put32(&mut d, 1);
    put64(&mut d, 6);
    d.push(42);
    for (i, off) in [flats, records, queries, tags].iter().enumerate() {
        d[16 + 4 * i..20 + 4 * i].copy_from_slice(&off.to_le_bytes());
    }
    d
}

#[test]
fn a_database_is_read() {
    let db = TweakDb::open(sample()).unwrap();
    assert_eq!(db.record_checksum, 0xC0FFEE);
    assert_eq!(db.flat_types.len(), 2);
    assert_eq!(db.flat_types[0].resolved, Some(ResolvedType { index: 1, is_array: true }));
    assert_eq!(db.flat_types[1].resolved, None);
    assert_eq!(db.total_flat_keys(), 7);
    assert_eq!(db.records.len(), 3);
    assert_eq!(db.distinct_record_types(), 2);
    assert_eq!((db.query_count, db.group_tag_count), (1, 1));
    let values = db.read_values(0).unwrap();
    assert_eq!(values.len(), 3);
    assert_eq!(values[0].0, 10);
    let ab = FlatValue::Array(vec![FlatValue::Str("a".into()), FlatValue::Str("é".into())]);
    assert_eq!(values[0].1, ab);
    assert_eq!(values[1].1, FlatValue::Array(vec![]));
    assert_eq!(values[2].1, ab);
    let raw = db.read_group_raw(0).unwrap();
    assert_eq!(raw.values[0], encode_array(&[encode_lp_string("a"), encode_lp_string("é")]));
    assert_eq!(raw.values[1], vec![0]);
    assert_eq!(raw.keys, vec![(10, 0), (11, 1), (12, 0)]);
    assert_eq!(db.read_queries().unwrap(), vec![(5, vec![51, 52])]);
    assert_eq!(db.read_group_tags().unwrap(), vec![(6, 42)]);
}

fn open_error(d: Vec<u8>) -> String {
    match TweakDb::open(d) {
        Ok(_) => panic!("esperava erro"),
        Err(e) => e.message(),
    }
}

#[test]
fn a_broken_database_is_refused() {
    assert_eq!(open_error(vec![1, 2]), "tweakdb.bin inválido: leitura de 4 bytes além do fim em 0");
    assert_eq!(open_error(vec![0; 32]), "tweakdb.bin inválido: magic não é 0x0BB1DB47");
    let mut d = sample();
    d[4] = 7;
    d[8..12].copy_from_slice(&(-1i32).to_le_bytes());
    assert_eq!(
        open_error(d),
        "tweakdb.bin inválido: versão não suportada (blob 7, parser -1; esperado 8/4)"
    );
    let mut d = sample();
    d[16..20].copy_from_slice(&9999u32.to_le_bytes());
    assert_eq!(open_error(d), "tweakdb.bin inválido: offset 9999 além do fim");
    let mut d = sample();
    let flats = u32::from_le_bytes(d[16..20].try_into().unwrap()) as usize;
    d[flats..flats + 4].copy_from_slice(&(-1i32).to_le_bytes());
    assert_eq!(open_error(d), "tweakdb.bin inválido: numFlatTypes negativo");
    let mut d = sample();
    let recs = u32::from_le_bytes(d[20..24].try_into().unwrap()) as usize;
    d[recs..recs + 4].copy_from_slice(&(-1i32).to_le_bytes());
    assert_eq!(open_error(d), "tweakdb.bin inválido: numRecords negativo");
    let db = TweakDb::open(sample()).unwrap();
    let text = |e: bwms::tweakdb::Error| e.message();
    assert_eq!(text(db.read_values(2).unwrap_err()), "tweakdb.bin inválido: índice de flat type fora do alcance");
    assert_eq!(
        text(db.read_group_raw(1).unwrap_err()),
        "tweakdb.bin inválido: typeHash 000000000000abcd desconhecido"
    );
}

#[test]
fn a_bad_value_index_is_an_error() {
    let mut d = sample();
    let at = d.windows(12).position(|w| w == [10, 0, 0, 0, 0, 0, 0, 0, 0, 0, 0, 0]).unwrap();
    d[at + 8..at + 12].copy_from_slice(&(-1i32).to_le_bytes());
    let db = TweakDb::open(d).unwrap();
    assert_eq!(db.read_values(0).unwrap_err().message(), "tweakdb.bin inválido: valueIndex fora do alcance");
    assert_eq!(db.read_group_raw(0).unwrap().keys[0], (10, -1));
}

#[test]
fn cursor_limits() {
    assert_eq!(
        Cursor::new(&[0xFF, 0xFF, 0xFF, 0xFF, 0xFF]).vlq_i32().unwrap_err().message(),
        "tweakdb.bin inválido: VLQ excede 5 bytes"
    );
    assert_eq!(
        split_array_elements(&[0x81], 8).unwrap_err().message(),
        "tweakdb.bin inválido: contagem de array negativa"
    );
    assert_eq!(
        split_array_elements(&[0x01, 0], 20).unwrap_err().message(),
        "tweakdb.bin inválido: índice de tipo desconhecido"
    );
    let utf16 = [0x02, 0x41, 0x00, 0xE9, 0x00];
    assert_eq!(Cursor::new(&utf16).lp_string().unwrap(), "Aé");
    let pair = [0x02, 0x3D, 0xD8, 0x00, 0xDE];
    assert_eq!(Cursor::new(&pair).lp_string().unwrap(), "\u{1f600}");
    let lone = [0x03, 0x3D, 0xD8, 0x41, 0x00, 0x00, 0xDE];
    assert_eq!(Cursor::new(&lone).lp_string().unwrap(), "\u{fffd}A\u{fffd}");
    let lone = [0x01, 0x00, 0xD8];
    assert_eq!(Cursor::new(&lone).lp_string().unwrap(), "\u{FFFD}");
    let bad = [0x82, 0xFF, 0x41];
    assert_eq!(Cursor::new(&bad).lp_string().unwrap(), "\u{FFFD}A");
}

#[test]
fn indisponivel_sem_a_feature() {
    assert!(matches!(decompress(None, 8), Err(KrakenError::Unavailable)));
}

#[test]
fn a_decompressed_size_must_match() {
    assert_eq!(decompress(Some((2, vec![1, 2])), 2).unwrap(), vec![1, 2]);
    let e = decompress(Some((-1, vec![0; 3])), 3).unwrap_err();
    assert_eq!(e.message(), "Kraken descomprimiu 0 bytes, esperado 3");
    assert!(unpack_failure(&e).starts_with("descompressão Kraken da lista de nomes falhou (Kraken"));
    let mut b = b"KARK".to_vec();
    b.extend_from_slice(&77u32.to_le_bytes());
    assert!(matches!(packing(&b), Packing::Kraken { size: 77 }));
    assert!(matches!(packing(&b[..7]), Packing::Plain));
}

fn name_list(names: &[&str]) -> Vec<u8> {
    let mut d = Vec::new();
    put32(&mut d, 0x0BB1_DB57);
    put32(&mut d, 1);
    put32(&mut d, names.len() as u32);
    put32(&mut d, 0);
    put32(&mut d, 0);
    for n in names {
        d.extend(encode_lp_string(n));
    }
    d
}

#[test]
fn names_resolve_and_are_found() {
    let db = NameDb::load(&name_list(&["Items.A", "Items.B", "Items.A", "Vehicle.X"])).ok().unwrap();
    assert_eq!(db.records, 4);
    assert_eq!(db.len(), 3);
    assert_eq!(db.resolve(tweak_db_id("Items.B")), Some("Items.B"));
    assert_eq!(db.resolve(1), None);
    let found: Vec<String> = db.search("ITEMS").into_iter().map(|(_, n)| n).collect();
    assert_eq!(found, vec!["Items.A", "Items.B"]);
    assert_eq!(db.search("").len(), 3);
}

#[test]
fn broken_name_lists_are_refused() {
    let err = |d: &[u8]| NameDb::load(d).err().unwrap();
    assert_eq!(err(&[1]), "truncado");
    assert_eq!(err(&[0; 20]), "magic da lista de nomes inválido (esperado 0x0BB1DB57)");
    let d = name_list(&["Items.A"]);
    assert_eq!(err(&d[..19]), "truncado");
    assert_eq!(err(&d[..d.len() - 1]), "string truncada na lista de nomes");
}

#[test]
fn baked_flats_are_found_by_id() {
    let mut d = b"BWTDB01\0".to_vec();
    put64(&mut d, 3);
    for (id, v, tag) in [(5u64, 50u64, 1u8), (9, 90, 2), (20, 200, 5)] {
        put64(&mut d, id);
        put64(&mut d, v);
        d.push(tag);
    }
    assert!(BakedFlats::load(d[..d.len() - 1].to_vec()).is_none());
    let mut huge = d.clone();
    huge[8..16].copy_from_slice(&u64::MAX.to_le_bytes());
    assert!(BakedFlats::load(huge).is_none());
    let db = BakedFlats::load(d);
    assert!(is_loaded(&db));
    assert_eq!(lookup(&db, 5), Some((1, 50)));
    assert_eq!(lookup(&db, 9), Some((2, 90)));
    assert_eq!(lookup(&db, 20), Some((5, 200)));
    assert_eq!(lookup(&db, 6), None);
    assert!(!is_loaded(&None));
    assert_eq!(lookup(&None, 5), None);
}

#[test]
fn type_hashes_are_those_of_the_names() {
    let hashes = bwms::tweakdb::type_hashes();
    let distinct: std::collections::HashSet<u64> = hashes.iter().copied().collect();
    assert_eq!(distinct.len(), 40);
    assert_eq!(hashes[0], bwms::hashes::fnv1a64(b"CName"));
    assert_eq!(hashes[39], bwms::hashes::fnv1a64(b"array:gamedataLocKeyWrapper"));
    for (k, h) in hashes.iter().enumerate() {
        let t = bwms::tweakdb::resolve_type(&hashes, *h).unwrap();
        assert_eq!((t.index, t.is_array), (k / 2, k % 2 == 1));
    }
}

#[test]
fn encoded_values_have_the_length_of_their_type() {
    for (index, text, len) in [
        (2usize, "Items.A", 8usize), (5, "true", 1), (6, "7", 1), (7, "7", 2), (8, "7", 4), (9, "7", 8),
        (10, "-7", 1), (11, "-7", 2), (12, "-7", 4), (13, "-7", 8), (14, "1,2,3,4", 4), (19, "5", 8),
    ] {
        let b = bwms::encode::encode_value(index, text).unwrap();
        assert_eq!(b.len(), len, "{index}");
        let raw = encode_array(&[b.clone(), b.clone()]);
        assert_eq!(split_array_elements(&raw, index).unwrap(), vec![b.clone(), b]);
        assert!(split_array_elements(&raw[..raw.len() - 1], index).is_err());
    }
    assert!(bwms::encode::encode_value(20, "1").is_err());
    let bits = vec![Some(1.5f32.to_bits()), Some(2f32.to_bits())];
    let v = bwms::encode::encode_floats(17, "1.5, 2", &bits).unwrap();
    assert_eq!(v.len(), 8);
    assert_eq!(split_array_elements(&encode_array(&[v.clone()]), 17).unwrap(), vec![v]);
}

#[test]
fn searches_do_not_mind_the_case() {
    let db = NameDb::load(&name_list(&["Items.A", "Items.B", "Vehicle.X"])).ok().unwrap();
    assert_eq!(db.search("items."), db.search("ITEMS."));
    assert_eq!(db.search("").len(), db.len());
}
