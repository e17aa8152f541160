use letras_sync::louvorja::{
    catalog_is_stale, entries_from_page, next_catalog_page, official_audio_file_name,
    official_audio_url, replaced_audio_file_names, retry_delay_secs, use_stored_catalog,
    CatalogPageItem,
};
use letras_sync::louvorja::{
    build_lines, catalog_needs_album_refresh, extract_album_from_url, find_best_match, normalize,
    parse_time, CatalogEntry, CatalogIdMusic, LouvorJaProvider, LyricItem,
};

fn entry(id: &str, name: &str) -> CatalogEntry {
    CatalogEntry {
        id: id.to_string(),
        name: name.to_string(),
        album: String::new(),
    }
}

#[test]
fn parse_time_converts_hms_to_seconds() {
    assert_eq!(parse_time("00:01:14"), Some(74_000));
    assert_eq!(parse_time("01:00:00"), Some(3_600_000));
}

#[test]
fn parse_time_rejects_invalid_input() {
    assert_eq!(parse_time("74"), None);
    assert_eq!(parse_time("00:01"), None);
}

#[test]
fn filters_empty_lyrics() {
    let lines = build_lines(
        "m1",
        vec![LyricItem {
            lyric: Some("".to_string()),
            time: "00:01:14".to_string(),
        }],
    );

    assert!(lines.is_empty());
}

#[test]
fn build_lines_sets_end_time_from_next_line() {
    let lines = build_lines(
        "m1",
        vec![
            LyricItem {
                lyric: Some("Primeira".to_string()),
                time: "00:00:10".to_string(),
            },
            LyricItem {
                lyric: Some("Segunda".to_string()),
                time: "00:00:14".to_string(),
            },
        ],
    );

    assert_eq!(lines.len(), 2);
    assert_eq!(lines[0].start_ms, 10_000);
    assert_eq!(lines[0].end_ms, 14_000);
    assert_eq!(lines[1].start_ms, 14_000);
    assert_eq!(lines[1].end_ms, 19_000);
    assert_eq!(lines[0].music_id, "m1");
}

#[test]
fn normalize_removes_accents() {
    assert_eq!(normalize("O Sábado Chegou"), "o sabado chegou");
}

#[test]
fn normalize_handles_nfd_unicode_and_punctuation() {
    let nfd_title = "Vem, Santo Espi\u{301}rito, Agora";
    let nfc_title = "Vem, Santo Espírito Agora";

    assert_eq!(normalize(nfd_title), "vem santo espirito agora");
    assert_eq!(normalize(nfc_title), "vem santo espirito agora");
}

#[test]
fn find_best_match_prefers_exact_match() {
    let catalog = vec![entry("1", "Novo Hinário Adventista"), entry("2", "O Sábado Chegou")];

    let found = find_best_match(&catalog, "O Sábado Chegou").expect("match");
    assert_eq!(found.id, "2");
}

#[test]
fn find_best_match_allows_containment() {
    let catalog = vec![entry("2", "O Sábado Chegou")];

    let found = find_best_match(&catalog, "O Sábado Chegou (Lyrics)").expect("match");
    assert_eq!(found.id, "2");
}

#[test]
fn find_best_match_prefers_highest_id_for_newer_version() {
    let catalog = vec![
        entry("431", "Vem, Santo Espírito Agora"),
        entry("1770", "Vem, Santo Espírito, Agora"),
    ];

    let matched = find_best_match(&catalog, "Vem, Santo Espi\u{301}rito, Agora");
    assert!(matched.is_some());
    assert_eq!(matched.unwrap().id, "1770");
}

#[test]
fn find_best_match_rejects_empty_query_and_keeps_latest_of_equal_ids() {
    let catalog = vec![entry("x", "Hino"), entry("y", "hino")];
    assert!(find_best_match(&catalog, " !? ").is_none());
    assert_eq!(find_best_match(&catalog, "HINO").unwrap().id, "y");
    assert!(find_best_match(&catalog, "outra coisa").is_none());
}

#[test]
fn extract_album_from_music_url() {
    let url =
        "https://api.louvorja.com.br/file/musics/pt/1992 - Brilha Jesus/Nosso Sol É Jesus.mp3";

    assert_eq!(
        extract_album_from_url(url).as_deref(),
        Some("1992 - Brilha Jesus")
    );
}

#[test]
fn legacy_catalog_without_album_triggers_refresh() {
    let catalog = vec![entry("1", "Nosso Sol é Jesus"), entry("2", "Brilha Jesus")];

    assert!(catalog_needs_album_refresh(&catalog));
}

#[test]
fn extracts_album_name_from_louvorja_url() {
    let url1 = "https://api.louvorja.com.br/file/musics/pt/Hin%C3%A1rio%20Adventista%202022/Vem,%20Santo%20Esp%C3%ADrito,%20Agora.mp3";
    assert_eq!(
        extract_album_from_url(url1),
        Some("Hinário Adventista 2022".to_string())
    );

    let url2 = "https://api.louvorja.com.br/file/musics/pt/1992%20-%20Brilha%20Jesus/Nosso%20Sol%20%C3%89%20Jesus.mp3";
    assert_eq!(
        extract_album_from_url(url2),
        Some("1992 - Brilha Jesus".to_string())
    );
}

#[test]
fn album_reader_refuses_service_folders() {
    assert_eq!(extract_album_from_url("https://api.louvorja.com.br/pt/x.mp3"), None);
    assert_eq!(extract_album_from_url("single"), None);
    assert_eq!(extract_album_from_url("a/%zz%2b/b"), Some("%%2b".to_string()).filter(|_| false).or(Some("%+".to_string())));
}

#[test]
fn catalog_ids_become_text() {
    assert_eq!(CatalogIdMusic::Number(-42).into_string(), "-42");
    assert_eq!(CatalogIdMusic::Number(i64::MIN).into_string(), i64::MIN.to_string());
    assert_eq!(CatalogIdMusic::Unsigned(7).into_string(), "7");
    assert_eq!(CatalogIdMusic::String("abc".to_string()).into_string(), "abc");
    let _ = LouvorJaProvider::new();
}

#[test]
fn catalog_search_orders_newest_first_and_caps_results() {
    let catalog = vec![
        entry("5", "Santo"),
        entry("12", "Santo Santo"),
        entry("x", "Santo dos Santos"),
        entry("12", "Santo é o Senhor"),
        entry("3", "Outro"),
    ];
    let found = LouvorJaProvider::search_catalog(&catalog, "santo");
    let ids: Vec<(String, String)> = found.iter().map(|e| (e.id.clone(), e.name.clone())).collect();
    assert_eq!(
        ids,
        vec![
            ("12".to_string(), "Santo é o Senhor".to_string()),
            ("12".to_string(), "Santo Santo".to_string()),
            ("5".to_string(), "Santo".to_string()),
            ("x".to_string(), "Santo dos Santos".to_string()),
        ]
    );
    assert!(LouvorJaProvider::search_catalog(&catalog, " !! ").is_empty());
    let many: Vec<CatalogEntry> = (0..20).map(|i| entry(&i.to_string(), "Hino")).collect();
    let capped = LouvorJaProvider::search_catalog(&many, "hino");
    assert_eq!(capped.len(), 15);
    assert_eq!(capped[0].id, "19");
    assert_eq!(capped[14].id, "5");
}

#[test]
fn entry_for_query_trims_and_refuses_blank_names() {
    let catalog = vec![entry("1", "O Sábado Chegou")];
    assert!(LouvorJaProvider::entry_for_query(&catalog, "   ").is_none());
    assert_eq!(
        LouvorJaProvider::entry_for_query(&catalog, "  o sabado chegou ").map(|e| e.id.clone()),
        Some("1".to_string())
    );
}

#[test]
fn song_details_from_the_service() {
    let items = vec![
        LyricItem { lyric: Some("Primeira".to_string()), time: "00:00:10".to_string() },
        LyricItem { lyric: Some("Segunda".to_string()), time: "00:00:14".to_string() },
    ];
    let detail = LouvorJaProvider::fetch_song_by_id(
        "77",
        "m1",
        None,
        Some(" https://api.louvorja.com.br/file/1992%20-%20Brilha%20Jesus/x.mp3 ".to_string()),
        Some(items),
    )
    .unwrap();
    assert_eq!(detail.id, "77");
    assert_eq!(detail.title, "LouvorJA #77");
    assert_eq!(detail.album, Some("1992 - Brilha Jesus".to_string()));
    assert_eq!(
        detail.audio_url,
        Some("https://api.louvorja.com.br/file/1992%20-%20Brilha%20Jesus/x.mp3".to_string())
    );
    assert_eq!(detail.lines.len(), 2);
    assert_eq!(detail.lines[0].end_ms, 14000);
    assert!(LouvorJaProvider::fetch_song_by_id("1", "m", None, None, None).is_none());
    assert!(LouvorJaProvider::fetch_song_by_id("1", "m", None, None, Some(Vec::new())).is_none());
    assert!(LouvorJaProvider::fetch_synced_lyrics("m", None).is_none());
}

#[test]
fn catalog_refresh_and_paging_rules() {
    assert!(catalog_is_stale(None));
    assert!(!catalog_is_stale(Some(604_800_000_000_000)));
    assert!(catalog_is_stale(Some(604_800_000_000_001)));
    assert!(use_stored_catalog(&[]));
    assert!(!use_stored_catalog(&[entry("1", "a")]));
    let mut with_album = entry("1", "a");
    with_album.album = "Álbum".to_string();
    assert!(use_stored_catalog(&[entry("2", "b"), with_album]));
    assert_eq!(next_catalog_page(1, None), None);
    assert_eq!(next_catalog_page(1, Some(3)), Some(2));
    assert_eq!(next_catalog_page(3, Some(3)), None);
    assert_eq!(retry_delay_secs(1), Some(1));
    assert_eq!(retry_delay_secs(2), Some(2));
    assert_eq!(retry_delay_secs(3), None);
}

#[test]
fn catalog_pages_become_entries() {
    let items = vec![
        CatalogPageItem {
            id_music: CatalogIdMusic::Number(431),
            name: "  Vem, Santo Espírito  ".to_string(),
            url_music: Some("https://api.louvorja.com.br/file/Hinário%20Adventista%202022/x.mp3".to_string()),
        },
        CatalogPageItem {
            id_music: CatalogIdMusic::String("9".to_string()),
            name: "   ".to_string(),
            url_music: None,
        },
        CatalogPageItem {
            id_music: CatalogIdMusic::Unsigned(10),
            name: "Sem álbum".to_string(),
            url_music: None,
        },
    ];
    let entries = entries_from_page(items);
    assert_eq!(entries.len(), 2);
    assert_eq!(entries[0].id, "431");
    assert_eq!(entries[0].name, "Vem, Santo Espírito");
    assert_eq!(entries[0].album, "Hinário Adventista 2022");
    assert_eq!(entries[1].id, "10");
    assert_eq!(entries[1].album, "");
}

#[test]
fn official_audio_files() {
    assert_eq!(official_audio_url(&Some("  ".to_string())), None);
    assert_eq!(official_audio_url(&Some(" u ".to_string())), Some("u".to_string()));
    assert_eq!(official_audio_file_name("m1"), "m1.mp3");
    assert_eq!(
        replaced_audio_file_names("m1"),
        vec!["m1.webm".to_string(), "m1.m4a".to_string()]
    );
}

#[test]
fn normalizing_twice_is_normalizing_once() {
    for name in ["  Olá,  Mundo!! ", "Vem, Santo Espírito", "HINO 12 - Ação", "", "   "] {
        let once = normalize(name);
        assert_eq!(normalize(&once), once);
    }
}

#[test]
fn a_blank_louvorja_query_searches_nothing() {
    assert_eq!(LouvorJaProvider::search_query("   "), None);
    assert_eq!(LouvorJaProvider::search_query(""), None);
    assert_eq!(
        LouvorJaProvider::search_query("  Grandioso És Tu "),
        Some("Grandioso És Tu".to_string())
    );
}
