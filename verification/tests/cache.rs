use xteink::cache::{
    cache_paths_for_epub, decode_offset, decode_progress, encode_offset, encode_progress,
    parse_meta, sanitize_cache_name, serialize_meta, short_cache_name, CacheMeta, ProgressState,
    CACHE_VERSION,
};

fn sample_meta() -> CacheMeta {
    CacheMeta {
        version: CACHE_VERSION,
        source_size: 2584345,
        content_length: 281307,
        build_complete: false,
        next_chapter_index: 17,
        layout_sig_version: 1,
        layout_sig_width: 600,
        layout_sig_height: 800,
        layout_sig_content_height: 749,
        layout_sig_font: 0xDEAD_BEEF,
        layout_sig_paginator: 0x1234_5678,
    }
}

#[test]
fn cache_paths_use_logical_dot_cool_root() {
    let paths = cache_paths_for_epub("/MYBOOKS", "PET_JA~1.EPU");

    assert!(paths.directory.as_str().starts_with("/.cool/"));
    assert!(paths.meta.as_str().starts_with("/.cool/"));
    assert!(paths.content.as_str().starts_with("/.cool/"));
    assert!(paths.chapters.as_str().starts_with("/.cool/"));
    assert!(paths.pages.as_str().starts_with("/.cool/"));
    assert!(paths.progress.as_str().starts_with("/.cool/"));
    assert!(paths.chapters.ends_with("chapters.idx"));
    assert!(paths.pages.ends_with("pages.idx"));
}

#[test]
fn cache_meta_roundtrip() {
    let raw = serialize_meta(&sample_meta());
    assert_eq!(parse_meta(raw.as_str()), Some(sample_meta()));
}

#[test]
fn progress_roundtrip() {
    let progress = ProgressState {
        current_byte_offset: 123_456,
        current_page_hint: 33,
    };
    assert_eq!(decode_progress(&encode_progress(progress)), Some(progress));
}

#[test]
fn idx_offset_roundtrip() {
    let offset = 0x1122_3344_5566_7788;
    assert_eq!(decode_offset(&encode_offset(offset)), Some(offset));
}

#[test]
fn sanitized_cache_name_respects_component_limit() {
    let name = sanitize_cache_name("/MYBOOKS/WHEN_I WRITE/BOOK.EPU");

    assert_eq!(name.len(), 8);
    assert!(name
        .chars()
        .all(|ch| ch.is_ascii_alphanumeric() || ch == '_'));
}

#[test]
fn short_cache_name_fits_component_limit() {
    let name = short_cache_name(0x11B3_D183);
    assert_eq!(name.len(), 8);
    assert_eq!(name.as_str(), "B1B3D183");
}

#[test]
fn sanitize_cache_name_keeps_only_alnum_and_underscore() {
    let name = sanitize_cache_name("/MYBOOKS/WHEN_I WRITE/BOOK.EPU");
    assert_eq!(name.len(), 8);
    assert!(name
        .chars()
        .all(|ch| ch.is_ascii_alphanumeric() || ch == '_'));
}

#[test]
fn paths_are_rooted_under_cool_dir() {
    let paths = cache_paths_for_epub("/MYBOOKS", "PET.JA~1.EPU");
    let directory = paths.directory.as_str();
    let meta = paths.meta.as_str();
    let content = paths.content.as_str();
    let progress = paths.progress.as_str();

    assert!(directory.starts_with("/.cool/"));
    assert!(paths.directory.as_str().starts_with("/.cool/"));
    assert_eq!(directory.split('/').nth(2).unwrap().len(), 8);
    assert!(meta.starts_with(directory));
    assert!(meta.ends_with("/meta.txt"));
    assert!(content.starts_with(directory));
    assert!(content.ends_with("/content.txt"));
    assert!(progress.starts_with(directory));
    assert!(progress.ends_with("/progress.bin"));
}

#[test]
fn cache_paths_stay_under_logical_dot_cool_root() {
    let paths = cache_paths_for_epub("/MYBOOKS", "WHEN_I~1.EPU");

    assert!(paths.directory.as_str().starts_with("/.cool/"));
    assert!(paths.meta.as_str().starts_with("/.cool/"));
    assert!(paths.content.as_str().starts_with("/.cool/"));
    assert!(paths.progress.as_str().starts_with("/.cool/"));
}

#[test]
fn parse_meta_rejects_invalid_version() {
    let raw = "version=2\nsource_size=1\ncontent_length=2\ncached_pages=1\ncached_progress_percent=1\nnext_spine_index=0\nresume_page=0\nresume_cursor_y=0\ncomplete=1\n";
    assert!(parse_meta(raw).is_none());
}

#[test]
fn serialized_meta_is_one_line_per_field() {
    let raw = serialize_meta(&sample_meta());
    assert_eq!(
        raw,
        "version=6\nsource_size=2584345\ncontent_length=281307\nbuild_complete=0\nnext_chapter_index=17\nlayout_sig_version=1\nlayout_sig_width=600\nlayout_sig_height=800\nlayout_sig_content_height=749\nlayout_sig_font=3735928559\nlayout_sig_paginator=305419896\n"
    );
}

#[test]
fn parse_meta_ignores_unknown_lines_and_takes_the_last_value() {
    let raw = "# note\nversion=6\nsource_size=+1\ncontent_length=2\nbuild_complete=1\nnext_chapter_index=3\nlayout_sig_version=4\nlayout_sig_width=5\nlayout_sig_height=6\nlayout_sig_content_height=7\nlayout_sig_font=8\nlayout_sig_paginator=9\nsource_size=10";
    let meta = parse_meta(raw).expect("complete record");
    assert_eq!(meta.source_size, 10);
    assert!(meta.build_complete);
    assert_eq!(meta.layout_sig_paginator, 9);
}

#[test]
fn parse_meta_rejects_bad_values_and_missing_fields() {
    let full = serialize_meta(&sample_meta());
    let overflow = full.replace("layout_sig_width=600", "layout_sig_width=65536");
    assert_eq!(parse_meta(&overflow), None);
    let bad_flag = full.replace("build_complete=0", "build_complete=01");
    assert_eq!(parse_meta(&bad_flag), None);
    let missing = full.replace("layout_sig_font=3735928559\n", "");
    assert_eq!(parse_meta(&missing), None);
    assert_eq!(parse_meta(""), None);
}

#[test]
fn records_have_fixed_lengths_and_little_endian_bytes() {
    assert_eq!(encode_offset(0x0102), vec![2, 1, 0, 0, 0, 0, 0, 0]);
    assert_eq!(decode_offset(&[1, 2, 3]), None);
    let record = encode_progress(ProgressState { current_byte_offset: 1, current_page_hint: 0x0201 });
    assert_eq!(record, vec![1, 0, 0, 0, 0, 0, 0, 0, 1, 2, 0, 0]);
    assert_eq!(decode_progress(&record[..11]), None);
}

#[test]
fn short_names_cover_empty_and_long_inputs() {
    assert_eq!(sanitize_cache_name(""), "COOL");
    assert_eq!(sanitize_cache_name("___"), "COOL");
    assert_eq!(sanitize_cache_name("ab.c_"), "AB_C");
    assert_eq!(short_cache_name(0xFFFF_FFFF), "BFFFFFFF");
    assert_eq!(short_cache_name(0), "B0000000");
}

#[test]
fn reading_position_record_holds_previous_current_and_next_offsets() {
    let position = xteink::cache::ReadingPosition {
        previous_page_start_offset: 0x0102,
        current_page_start_offset: 0x0304_0506,
        next_page_start_offset: u64::MAX,
    };
    let record = xteink::cache::encode_reading_position(position);
    assert_eq!(record.len(), 24);
    assert_eq!(&record[0..8], &0x0102u64.to_le_bytes());
    assert_eq!(&record[8..16], &0x0304_0506u64.to_le_bytes());
    assert_eq!(&record[16..24], &u64::MAX.to_le_bytes());
    assert_eq!(xteink::cache::decode_reading_position(&record), Some(position));
    assert_eq!(xteink::cache::decode_reading_position(&record[..23]), None);
}

#[test]
fn serialize_and_parse_meta_roundtrip() {
    let meta = CacheMeta {
        version: CACHE_VERSION,
        source_size: 12345,
        content_length: 4096,
        build_complete: false,
        next_chapter_index: 7,
        layout_sig_version: 2,
        layout_sig_width: 480,
        layout_sig_height: 800,
        layout_sig_content_height: 412,
        layout_sig_font: 42,
        layout_sig_paginator: 3,
    };
    let raw = serialize_meta(&meta);
    let parsed = parse_meta(raw.as_str()).expect("meta should parse");
    assert_eq!(
        parsed,
        CacheMeta {
            version: CACHE_VERSION,
            source_size: 12345,
            content_length: 4096,
            build_complete: false,
            next_chapter_index: 7,
            layout_sig_version: 2,
            layout_sig_width: 480,
            layout_sig_height: 800,
            layout_sig_content_height: 412,
            layout_sig_font: 42,
            layout_sig_paginator: 3,
        }
    );
}
