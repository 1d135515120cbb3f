use highgarden::config::AppConfig;
use highgarden::gacha::{
    app_code_for, build_gacha_url, build_page_url, build_records_with_pity, classify_pool,
    compute_stats, csv_escape, days_to_ymd, export_csv, extract_query_param, find_url_in_bytes,
    format_ts, gacha_inquiry_base, gacha_url_pattern, is_leap, mask_phone, pool_type_cn,
    GachaData, GachaRecord, RawChar, RawEntry,
};
use highgarden::game::{
    build_manifest, check_update, game_api_config, has_exe_suffix, is_excluded_exe,
    known_exe_names, pack_dest_path, pack_filename, version_config_url, RawPack,
};
use highgarden::shell::extraction_event;
use highgarden::text::{format_bytes, i64_to_dec, parse_u64, u64_to_dec};

#[test]
fn app_codes_and_endpoints() {
    assert_eq!(app_code_for("arknights"), "GzD1CpaWgmSq1wew");
    assert_eq!(app_code_for("endfield"), "6LL0KJuqHBVz33WK");
    assert_eq!(
        gacha_inquiry_base("arknights"),
        "https://ak.hypergryph.com/user/api/inquiry/gacha"
    );
    assert_eq!(
        gacha_inquiry_base("endfield"),
        "https://beyond.hypergryph.com/user/api/inquiry/gacha"
    );
    assert_eq!(
        gacha_url_pattern("arknights"),
        Some("ak.hypergryph.com/user/api/inquiry/gacha")
    );
    assert_eq!(gacha_url_pattern("other"), None);
}

#[test]
fn gacha_url_is_assembled() {
    assert_eq!(
        build_gacha_url("arknights", "tok", "42"),
        "https://ak.hypergryph.com/user/api/inquiry/gacha?channelId=1&token=tok&uid=42"
    );
}

#[test]
fn page_urls() {
    assert_eq!(build_page_url("https://a/b", 0, 10), "https://a/b?size=10");
    assert_eq!(
        build_page_url("https://a/b?x=1", 77, 10),
        "https://a/b?x=1&seqNum=77&size=10"
    );
}

#[test]
fn phone_masking() {
    assert_eq!(mask_phone("13800000000"), "138****0000");
    assert_eq!(mask_phone("+86 138-0000-1111"), "861****1111");
    assert_eq!(mask_phone("12345"), "***");
}

#[test]
fn pool_classification() {
    assert_eq!(classify_pool("arknights", "Standard Pool"), "standard");
    assert_eq!(classify_pool("arknights", "新手寻访"), "beginner");
    assert_eq!(classify_pool("arknights", "中坚寻访"), "special");
    assert_eq!(classify_pool("arknights", "limited banner"), "limited");
    assert_eq!(classify_pool("endfield", "常驻调查"), "standard");
    assert_eq!(classify_pool("other", "anything"), "standard");
}

#[test]
fn pool_labels() {
    assert_eq!(pool_type_cn("standard"), "标准");
    assert_eq!(pool_type_cn("limited"), "限定");
    assert_eq!(pool_type_cn("beginner"), "新手");
    assert_eq!(pool_type_cn("special"), "特殊");
    assert_eq!(pool_type_cn("weird"), "其他");
}

#[test]
fn csv_field_escaping() {
    assert_eq!(csv_escape("plain"), "plain");
    assert_eq!(csv_escape("a,b"), "\"a,b\"");
    assert_eq!(csv_escape("say \"hi\""), "\"say \"\"hi\"\"\"");
}

#[test]
fn timestamp_formatting() {
    assert_eq!(format_ts(0), "1970-01-01 00:00:00");
    assert_eq!(format_ts(-5), "1970-01-01 00:00:00");
    assert_eq!(format_ts(1700000000), "2023-11-14 22:13:20");
    assert_eq!(format_ts(951827696), "2000-02-29 12:34:56");
}

#[test]
fn calendar_math() {
    assert_eq!(days_to_ymd(0), (1970, 1, 1));
    assert_eq!(days_to_ymd(365), (1971, 1, 1));
    assert_eq!(days_to_ymd(11016), (2000, 2, 29));
    assert!(is_leap(2000));
    assert!(!is_leap(1900));
    assert!(is_leap(2024));
    assert!(!is_leap(2023));
}

#[test]
fn byte_count_formatting() {
    assert_eq!(format_bytes(512), "512B");
    assert_eq!(format_bytes(1536), "1.5KB");
    assert_eq!(format_bytes(2048), "2.0KB");
    assert_eq!(format_bytes(5 * 1024 * 1024), "5.0MB");
    assert_eq!(format_bytes(3 * 1024 * 1024 * 1024 + 512 * 1024 * 1024), "3.50GB");
}

#[test]
fn number_rendering_and_parsing() {
    assert_eq!(u64_to_dec(0), "0");
    assert_eq!(u64_to_dec(90210), "90210");
    assert_eq!(i64_to_dec(-42), "-42");
    assert_eq!(parse_u64("123"), Some(123));
    assert_eq!(parse_u64("+7"), Some(7));
    assert_eq!(parse_u64(""), None);
    assert_eq!(parse_u64("12x"), None);
    assert_eq!(parse_u64("99999999999999999999999"), None);
}

#[test]
fn query_parameter_extraction() {
    let url = "https://ak.example/api?channelId=1&token=abc&uid=4567";
    assert_eq!(extract_query_param(url, "uid"), Some("4567".to_string()));
    assert_eq!(extract_query_param(url, "token"), Some("abc".to_string()));
    assert_eq!(extract_query_param(url, "missing"), None);
    assert_eq!(extract_query_param("https://no.query/path", "uid"), None);
    assert_eq!(extract_query_param("https://x?empty=&uid=1", "empty"), None);
}

#[test]
fn records_with_pity_counters() {
    // Raw rarities are 0-indexed: 5 means a six-star.
    let entries = vec![
        RawEntry {
            ts: 200,
            pool: "标准寻访".to_string(),
            chars: vec![
                RawChar {
                    name: "c".to_string(),
                    item_type: "CHAR".to_string(),
                    rarity: 3,
                    is_new: false,
                },
            ],
        },
        RawEntry {
            ts: 100,
            pool: "标准寻访".to_string(),
            chars: vec![
                RawChar {
                    name: "a".to_string(),
                    item_type: "char".to_string(),
                    rarity: 2,
                    is_new: false,
                },
                RawChar {
                    name: "b".to_string(),
                    item_type: "WEAPON".to_string(),
                    rarity: 5,
                    is_new: true,
                },
            ],
        },
    ];
    let recs = build_records_with_pity("42", "arknights", entries);
    assert_eq!(recs.len(), 3);
    // Entries arrive newest first; output is chronological.
    assert_eq!(recs[0].item_name, "a");
    assert_eq!(recs[0].rarity, 3);
    assert_eq!(recs[0].pity, 1);
    assert_eq!(recs[0].item_type, "character");
    assert_eq!(recs[0].id, "42_0");
    assert_eq!(recs[0].pool_type, "standard");
    assert_eq!(recs[1].item_name, "b");
    assert_eq!(recs[1].rarity, 6);
    assert_eq!(recs[1].pity, 2);
    assert_eq!(recs[1].item_type, "weapon");
    assert!(recs[1].is_new);
    // The six-star reset the counter.
    assert_eq!(recs[2].item_name, "c");
    assert_eq!(recs[2].pity, 1);
    assert_eq!(recs[2].timestamp, 200);
}

fn record(pool_type: &str, rarity: u8, pity: u32) -> GachaRecord {
    GachaRecord {
        id: "r".to_string(),
        uid: "u".to_string(),
        game_id: "arknights".to_string(),
        pool_name: "p".to_string(),
        pool_type: pool_type.to_string(),
        item_name: "i".to_string(),
        item_type: "character".to_string(),
        rarity,
        timestamp: 0,
        is_new: false,
        pity,
    }
}

#[test]
fn statistics_per_pool() {
    let data = GachaData {
        uid: "u1".to_string(),
        game_id: "arknights".to_string(),
        records: vec![
            record("standard", 6, 1),
            record("standard", 3, 1),
            record("standard", 3, 2),
            record("limited", 5, 1),
        ],
        fetched_at: 7,
    };
    let stats = compute_stats(&data);
    assert_eq!(stats.uid, "u1");
    assert_eq!(stats.total_pulls, 4);
    assert_eq!(stats.fetched_at, 7);
    assert_eq!(stats.by_pool.len(), 2);
    let std_stats = stats.by_pool.iter().find(|p| p.pool_type == "standard").unwrap();
    assert_eq!(std_stats.total_pulls, 3);
    assert_eq!(std_stats.six_star_count, 1);
    assert_eq!(std_stats.three_star_count, 2);
    // round(1 * 1000 / 3) = 333 tenths of a percent.
    assert_eq!(std_stats.six_star_rate_permille, 333);
    assert_eq!(std_stats.current_pity, 2);
    // One six-star after one pull: average pity 1.0.
    assert_eq!(std_stats.avg_pity_tenths, 10);
    let lim = stats.by_pool.iter().find(|p| p.pool_type == "limited").unwrap();
    assert_eq!(lim.total_pulls, 1);
    assert_eq!(lim.six_star_count, 0);
    assert_eq!(lim.avg_pity_tenths, 0);
    assert_eq!(lim.current_pity, 1);
}

#[test]
fn csv_export_document() {
    let recs = vec![record("standard", 6, 3)];
    let out = export_csv(&recs);
    let expected = "\u{FEFF}时间,卡池,卡池类型,干员/物品,稀有度,是否新干员,水位\n\
                    1970-01-01 00:00:00,p,标准,i,6,否,3\n";
    assert_eq!(out, expected);
}

#[test]
fn url_scan_in_cache_bytes() {
    let mut blob: Vec<u8> = Vec::new();
    blob.extend_from_slice(b"garbage\x00more");
    blob.extend_from_slice(b"https://ak.hypergryph.com/user/api/inquiry/gacha?token=t&uid=1");
    blob.extend_from_slice(b"\ntrailer");
    let pattern = b"ak.hypergryph.com/user/api/inquiry/gacha";
    let url = find_url_in_bytes(&blob, pattern).expect("url found");
    assert_eq!(
        url,
        b"https://ak.hypergryph.com/user/api/inquiry/gacha?token=t&uid=1".to_vec()
    );
    assert_eq!(find_url_in_bytes(b"nothing here", pattern), None);
    // Present but without a query string: rejected.
    assert_eq!(
        find_url_in_bytes(b"https://ak.hypergryph.com/user/api/inquiry/gacha\n", pattern),
        None
    );
}

#[test]
fn manifest_assembly() {
    let packs = vec![
        RawPack {
            url: "https://cdn.example/dir/part1.zip?auth=k".to_string(),
            md5: "aa".to_string(),
            package_size: "100".to_string(),
        },
        RawPack {
            url: "https://cdn.example/dir/part2.zip".to_string(),
            md5: "bb".to_string(),
            package_size: "bogus".to_string(),
        },
    ];
    let m = build_manifest("arknights", "1.2.3".to_string(), packs, None, None, None);
    assert_eq!(m.game_id, "arknights");
    assert_eq!(m.version, "1.2.3");
    assert_eq!(m.packs.len(), 2);
    assert_eq!(m.packs[0].filename, "part1.zip");
    assert_eq!(m.packs[0].size, 100);
    assert_eq!(m.packs[1].filename, "part2.zip");
    assert_eq!(m.packs[1].size, 0);
    assert_eq!(m.total_size, 100, "missing total falls back to the pack sum");
    assert_eq!(m.game_files_md5, "");

    let m2 = build_manifest(
        "arknights",
        "1.2.3".to_string(),
        Vec::new(),
        Some("4096".to_string()),
        Some("cc".to_string()),
        Some("https://files".to_string()),
    );
    assert_eq!(m2.total_size, 4096);
    assert_eq!(m2.game_files_md5, "cc");
    assert_eq!(m2.file_path, "https://files");
}

#[test]
fn filenames_and_paths() {
    assert_eq!(pack_filename("https://cdn/x/y.zip?auth=1"), "y.zip");
    assert_eq!(pack_filename("no-slashes"), "no-slashes");
    assert_eq!(pack_dest_path("/downloads/", "y.zip"), "/downloads/y.zip");
    assert_eq!(pack_dest_path("/downloads", "y.zip"), "/downloads/y.zip");
}

#[test]
fn update_check() {
    let r = check_update(Some("1.0".to_string()), Some("1.1".to_string()));
    assert!(r.update_available);
    let r = check_update(Some("1.0".to_string()), Some("1.0".to_string()));
    assert!(!r.update_available);
    let r = check_update(None, Some("1.0".to_string()));
    assert!(!r.update_available);
}

#[test]
fn game_registry() {
    assert_eq!(game_api_config("arknights").unwrap().appcode, "GzD1CpaWgmSq1wew");
    assert!(game_api_config("x").is_none());
    assert!(version_config_url("endfield").unwrap().starts_with("https://beyond-conf"));
    assert_eq!(known_exe_names("arknights"), vec!["Arknights.exe", "明日方舟.exe"]);
    assert!(known_exe_names("x").is_empty());
    assert!(is_excluded_exe("setup.exe"));
    assert!(!is_excluded_exe("arknights.exe"));
    assert!(has_exe_suffix("game.exe"));
    assert!(!has_exe_suffix("game.dll"));
    assert!(!has_exe_suffix("exe"));
}

#[test]
fn config_paths_table() {
    let mut c = AppConfig::fresh();
    assert_eq!(c.settings.theme, "dark");
    assert_eq!(c.settings.download_concurrency, 8);
    assert_eq!(c.settings.download_threads, 3);
    c.set_game_path("arknights", Some("/games/ak".to_string()));
    assert_eq!(c.get_game_path("arknights"), Some("/games/ak".to_string()));
    c.set_game_path("arknights", Some("/games/ak2".to_string()));
    assert_eq!(c.get_game_path("arknights"), Some("/games/ak2".to_string()));
    assert_eq!(c.game_paths.len(), 1);
    c.set_game_path("arknights", None);
    assert_eq!(c.get_game_path("arknights"), None);
}

#[test]
fn extraction_events() {
    let e = extraction_event("g".to_string(), 2, 3, None);
    assert!(!e.done);
    let e = extraction_event("g".to_string(), 3, 3, None);
    assert!(e.done);
    let e = extraction_event("g".to_string(), 3, 3, Some("boom".to_string()));
    assert!(!e.done);
}
