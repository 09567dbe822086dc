use bwms::bits::{bit_set, bit_shl, bit_shr, bit_test, mask_arg};
use bwms::hashes::{
    crc32, fnv1a32, fnv1a64, murmur3_32, record_type_key, resource_path_hash, tweak_db_id,
};
use bwms::keycodes::map_macos_keycode_to_einputkey;
use bwms::modconfig::{
    config_get, config_get_from, config_sanitize_key, config_sanitize_value, config_set,
    config_upsert,
};
use bwms::numbers::{parse_int, parse_number_core, parse_uint, strtoll_like, strtoull_like};
use bwms::strutil::{
    utf8_str_left, utf8_str_len, utf8_str_lower, utf8_str_mid, utf8_str_right, utf8_str_upper,
};

// ---- settings ----

#[test]
fn upsert_atualiza_e_preserva() {
    let existing = "godmode=1\nlegs=0\n";
    let out = config_upsert(existing, "legs", "1");
    assert_eq!(config_get_from(&out, "legs"), "1");
    assert_eq!(config_get_from(&out, "godmode"), "1");
}

#[test]
fn upsert_insere_chave_nova() {
    let out = config_upsert("a=1\n", "b", "2");
    assert_eq!(config_get_from(&out, "a"), "1");
    assert_eq!(config_get_from(&out, "b"), "2");
}

#[test]
fn upsert_colapsa_duplicatas() {
    let existing = "k=1\nk=2\nother=9\nk=3\n";
    let out = config_upsert(existing, "k", "5");
    assert_eq!(out.lines().filter(|l| l.starts_with("k=")).count(), 1);
    assert_eq!(config_get_from(&out, "k"), "5");
    assert_eq!(config_get_from(&out, "other"), "9");
}

#[test]
fn sanitiza_quebra_de_linha_e_igual() {
    let v = config_sanitize_value("mau\nfake=999");
    assert!(!v.contains('\n'));
    let out = config_upsert("", "k", &v);
    assert_eq!(out.lines().count(), 1, "1 linha só, sem chave 'fake' injetada");
    assert_eq!(config_get_from(&out, "fake"), "");
    assert_eq!(config_sanitize_key("a=b\nc"), "abc");
}

#[test]
fn get_primeiro_match_e_vazio_ausente() {
    assert_eq!(config_get_from("k=1\nk=2\n", "k"), "1");
    assert_eq!(config_get_from("k=1\n", "ausente"), "");
}

#[test]
fn settings_are_cleaned_on_the_way_in() {
    assert_eq!(config_upsert("a=1\r\n\n\nb=2", "b", "3"), "a=1\nb=3\n");
    assert_eq!(config_set("a=1\n", "=\n", "x"), None);
    let out = config_set("a=1\n", "b=", "x\ny").unwrap();
    assert_eq!(out, "a=1\nb=x y\n");
    assert_eq!(config_get(&out, "b="), "x y");
}

// ---- strings ----

#[test]
fn conta_ascii_simples() {
    assert_eq!(utf8_str_len("hello"), 5);
}

#[test]
fn conta_codepoints_multibyte_nao_bytes() {
    assert_eq!(utf8_str_len("café"), 4);
    assert_eq!("café".len(), 5);
}

#[test]
fn string_vazia() {
    assert_eq!(utf8_str_len(""), 0);
}

#[test]
fn emoji_multibyte() {
    assert_eq!(utf8_str_len("👍👍"), 2);
}

#[test]
fn left_right_mid_em_codepoints() {
    assert_eq!(utf8_str_left("hello world", 5), "hello");
    assert_eq!(utf8_str_right("hello world", 5), "world");
    assert_eq!(utf8_str_mid("hello world", 6, 5), "world");
    assert_eq!(utf8_str_left("café com leite", 4), "café");
}

#[test]
fn left_right_mid_clampam_fora_do_alcance() {
    assert_eq!(utf8_str_left("hi", 100), "hi");
    assert_eq!(utf8_str_left("hi", 0), "");
    assert_eq!(utf8_str_left("hi", -5), "");
    assert_eq!(utf8_str_right("hi", 100), "hi");
    assert_eq!(utf8_str_mid("hi", 50, 5), "");
}

#[test]
fn lower_upper_ascii_e_acentuado() {
    assert_eq!(utf8_str_lower("HELLO"), "hello");
    assert_eq!(utf8_str_upper("hello"), "HELLO");
    assert_eq!(utf8_str_lower("CAFÉ"), "café");
    assert_eq!(utf8_str_upper("café"), "CAFÉ");
}

#[test]
fn upper_case_may_grow() {
    assert_eq!(utf8_str_upper("straße"), "STRASSE");
    assert_eq!(utf8_str_right("abc", -1), "");
    assert_eq!(utf8_str_mid("abc", -3, 2), "ab");
}

// ---- numbers ----

#[test]
fn parseint_decimal_simples() {
    assert_eq!(strtoll_like("42", 10), Some(42));
    assert_eq!(strtoll_like("-42", 10), Some(-42));
    assert_eq!(strtoll_like("  7", 10), Some(7));
}

#[test]
fn parseint_hex_com_prefixo() {
    assert_eq!(strtoll_like("0x2A", 16), Some(42));
    assert_eq!(strtoll_like("2A", 16), Some(42));
    assert_eq!(strtoll_like("0x2A", 0), Some(42));
}

#[test]
fn parseint_octal_base0() {
    assert_eq!(strtoll_like("010", 0), Some(8));
}

#[test]
fn parseint_lixo_sobrando_falha() {
    assert_eq!(strtoll_like("42abc", 10), None);
    assert_eq!(strtoll_like("42 ", 10), None);
    assert_eq!(strtoll_like("", 10), None);
    assert_eq!(strtoll_like("abc", 10), None);
}

#[test]
fn parseint_overflow_clampa() {
    assert_eq!(strtoll_like("99999999999999999999", 10), Some(i64::MAX));
    assert_eq!(strtoll_like("-99999999999999999999", 10), Some(i64::MIN));
}

#[test]
fn parseuint_aceita_minus_e_nega_mod2_64() {
    assert_eq!(strtoull_like("-1", 10), Some(u64::MAX));
}

#[test]
fn parseuint_overflow_clampa() {
    assert_eq!(strtoull_like("99999999999999999999", 10), Some(u64::MAX));
}

#[test]
fn trampoline_trunca_pela_largura_do_tipo_alvo() {
    let v = strtoll_like("-1", 10).unwrap();
    assert_eq!((v as u64) & 0xFF, 0xFF);
    assert_eq!(parse_int("-1", 10, 1), 0xFF);
}

#[test]
fn numbers_in_other_bases() {
    assert_eq!(parse_number_core("z!", 36), Some((1, false, 35)));
    assert_eq!(parse_number_core("1", 37), None);
    assert_eq!(parse_number_core("99999999999999999999", 10), Some((20, false, u64::MAX as u128)));
    assert_eq!(parse_number_core("-99999999999999999999x", 10), Some((21, true, u64::MAX as u128)));
    assert_eq!(parse_number_core("1", 1), None);
    assert_eq!(strtoll_like("-9223372036854775808", 10), Some(i64::MIN));
    assert_eq!(strtoll_like("+9", 10), Some(9));
    assert_eq!(strtoll_like("0", 0), Some(0));
    assert_eq!(strtoll_like("-0", 0), Some(0));
    assert_eq!(strtoll_like("017", 0), Some(15));
    assert_eq!(strtoll_like("08", 0), None);
    assert_eq!(strtoll_like("0x", 0), None);
    assert_eq!(strtoll_like("\u{b}7", 10), Some(7));
    assert_eq!(strtoull_like("-99999999999999999999", 10), Some(u64::MAX));
    assert_eq!(strtoull_like("-18446744073709551615", 10), Some(1));
    assert_eq!(strtoull_like("-18446744073709551616", 10), Some(u64::MAX));
    assert_eq!(strtoull_like("-0", 10), Some(0));
    assert_eq!(parse_uint("0x1FF", 16, 1), 0xFF);
    assert_eq!(parse_uint("x", 10, 8), 0);
    assert_eq!(parse_int("-2", 10, 8), u64::MAX - 1);
}

// ---- bits ----

#[test]
fn bit_test_le_e_fora_do_range() {
    assert!(bit_test(0b1010, 1));
    assert!(!bit_test(0b1010, 0));
    assert!(!bit_test(0xFF, -1));
    assert!(!bit_test(0xFF, 64));
}

#[test]
fn bit_set_liga_e_desliga() {
    assert_eq!(bit_set(0b0000, 2, true), 0b0100);
    assert_eq!(bit_set(0b1111, 2, false), 0b1011);
    assert_eq!(bit_set(0xAB, -1, true), 0xAB);
    assert_eq!(bit_set(0xAB, 64, true), 0xAB);
}

#[test]
fn bit_shl_mascara_pela_largura() {
    assert_eq!(bit_shl(0xFF, 4, 8), 0xF0);
    assert_eq!(bit_shl(1, 31, 32), 1u64 << 31);
    assert_eq!(bit_shl(1, 63, 64), 1u64 << 63);
}

#[test]
fn bit_shr_simples() {
    assert_eq!(bit_shr(0b1000, 3), 0b1);
    assert_eq!(bit_shr(0xFF, -1), 0xFF);
}

#[test]
fn mask_arg_trunca_pela_largura_certa() {
    assert_eq!(mask_arg(0x1234_5678_9ABC_DEF0, 1), 0xF0);
    assert_eq!(mask_arg(0x1234_5678_9ABC_DEF0, 2), 0xDEF0);
    assert_eq!(mask_arg(0x1234_5678_9ABC_DEF0, 4), 0x9ABC_DEF0);
    assert_eq!(mask_arg(0x1234_5678_9ABC_DEF0, 8), 0x1234_5678_9ABC_DEF0);
}

#[test]
fn a_set_bit_reads_back() {
    for n in 0..64 {
        for state in [true, false] {
            let v = bit_set(0x0123_4567_89AB_CDEF, n, state);
            assert_eq!(bit_test(v, n), state);
            assert_eq!(bit_test(v, (n + 1) % 64), bit_test(0x0123_4567_89AB_CDEF, (n + 1) % 64));
        }
    }
    assert_eq!(bit_shl(1, 65, 64), 2);
    assert_eq!(bit_shr(4, 65), 2);
    assert_eq!(bit_shl(3, -1, 8), 3);
}

// ---- hashes and keys ----

#[test]
fn fnv_golden_bate_com_apply_xl() {
    assert_eq!(resource_path_hash("base\\resource.cooked_mlsetup"), 0x3a12_b4fd_1938_d5ca);
    assert_eq!(resource_path_hash("BASE/resource.cooked_mlsetup"), 0x3a12_b4fd_1938_d5ca);
}

#[test]
fn hash_check_values() {
    assert_eq!(crc32(b"123456789"), 0xCBF4_3926);
    assert_eq!(fnv1a32(b""), 0x811c_9dc5);
    assert_eq!(fnv1a32(b"a"), 0xe40c_292c);
    assert_eq!(fnv1a64(b"a"), 0xaf63_dc4c_8601_ec8c);
    assert_eq!(murmur3_32(b"", 0), 0);
    assert_eq!(murmur3_32(b"", 1), 0x514e_28b7);
    assert_eq!(murmur3_32(b"test", 0), 0xba6b_d213);
    assert_eq!(murmur3_32(b"Hello, world!", 0), 0xc036_3e43);
    assert_eq!(tweak_db_id("Items.A") >> 32, 7);
    assert_eq!(tweak_db_id("123456789") & 0xFFFF_FFFF, 0xCBF4_3926);
    assert_eq!(record_type_key("gamedataWeaponItem_Record"), 0x7fde_f930);
    assert_eq!(record_type_key("gamedataWeaponItem_Record"), record_type_key("WeaponItem"));
    assert_ne!(record_type_key("gamedataWeaponItem"), record_type_key("WeaponItem"));
}

#[test]
fn keys_from_characters_and_codes() {
    assert_eq!(map_macos_keycode_to_einputkey(0, Some('a')), 65);
    assert_eq!(map_macos_keycode_to_einputkey(0, Some('A')), 65);
    assert_eq!(map_macos_keycode_to_einputkey(0, Some('7')), 55);
    assert_eq!(map_macos_keycode_to_einputkey(0, Some(' ')), 32);
    assert_eq!(map_macos_keycode_to_einputkey(123, None), 37);
    assert_eq!(map_macos_keycode_to_einputkey(122, Some('?')), 112);
    assert_eq!(map_macos_keycode_to_einputkey(1, None), 0);
}

#[test]
fn decimal_texts_read_back() {
    for v in [0, 1, -1, 42, i64::MAX, i64::MIN, -1_000_000_007] {
        assert_eq!(strtoll_like(&v.to_string(), 10), Some(v));
    }
    for v in [0, 7, u64::MAX, 1 << 63] {
        assert_eq!(strtoull_like(&v.to_string(), 10), Some(v));
    }
}

#[test]
fn updates_leave_no_blank_lines() {
    let out = config_upsert("\n\na=1\n\r\n\nb=2\n", "b", "");
    assert_eq!(out, "a=1\nb=\n");
    assert!(out.lines().all(|l| !l.is_empty()));
}
