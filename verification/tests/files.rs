//! Files: output naming, dates, fingerprints, size rules and the JPEG
//! header scan with scaled decoding.

use gendesk::files::naming::trash_candidate;
use std::io::Cursor;

use gendesk::files::decode::{
    decode_budget, decode_full, decode_scaled, plan_scaled_decode, scan_jpeg_header,
    try_decode_scaled_jpeg, DecodePermit, ScalePlan,
};
use gendesk::files::{
    DataDirs, content_hash_bytes, date_yymmdd, is_oversize, normalize_ext, output_ext_from_path,
    output_filename, sanitize_filename, UPLOAD_MAX_BYTES, UPLOAD_MAX_EDGE,
};
use gendesk::files::fingerprint::fingerprint_from;
use gendesk::files::preview::cache_file_name;
use gendesk::files::thumb::{
    preview_jpeg, thumbnail_jpeg, thumbnail_source, upload_copy_jpeg, PREVIEW_EDGE,
};
use gendesk::files::THUMB_MAX;
use gendesk::error::AppError;
use image::codecs::jpeg::JpegEncoder;
use image::{ExtendedColorType, GrayImage, RgbImage};

#[test]
fn output_filename_strips_hyphen_and_keeps_chinese() {
    assert_eq!(
        output_filename("productA", "DZ-0001", "260708", 1, "jpg"),
        "productA_260708_DZ0001_1.JPG"
    );
    assert_eq!(
        output_filename("商品主图", "DZ-0128", "260101", 2, "jpg"),
        "商品主图_260101_DZ0128_2.JPG"
    );
}

// 任务1：保留原格式时扩展名跟随源结果（大写）。
#[test]
fn output_filename_follows_source_ext() {
    assert_eq!(
        output_filename("p", "DZ-0001", "260708", 1, "png"),
        "p_260708_DZ0001_1.PNG"
    );
    assert_eq!(output_ext_from_path("/data/results/12.png"), "PNG");
    assert_eq!(output_ext_from_path("/data/results/12.jpg"), "JPG");
    assert_eq!(output_ext_from_path("/data/results/noext"), "JPG");
}

// E17 D2：同一组合不同抽卡序号的文件名不冲突。
#[test]
fn output_filename_draw_index_avoids_collision() {
    let a = output_filename("productA", "DZ-0001", "260708", 1, "jpg");
    let b = output_filename("productA", "DZ-0001", "260708", 2, "jpg");
    assert_ne!(a, b, "同组合两次抽卡的输出文件名必须不同");
}

#[test]
fn sanitize_replaces_illegal_chars() {
    assert_eq!(sanitize_filename("a/b:c*d?"), "a_b_c_d_");
    assert_eq!(sanitize_filename("  正常名  "), "正常名");
    assert_eq!(sanitize_filename(""), "_");
}

#[test]
fn sanitize_handles_controls_and_trailing_dots() {
    assert_eq!(sanitize_filename("名字..."), "名字");
    assert_eq!(sanitize_filename("a\tb\u{7f}c"), "a_b_c");
    assert_eq!(sanitize_filename("<|>\"\\"), "_____");
    assert_eq!(sanitize_filename(" . "), "_");
    assert_eq!(sanitize_filename("x. "), "x");
    assert_eq!(sanitize_filename("a ."), "a");
    assert_eq!(sanitize_filename("a . . "), "a");
}

#[test]
fn normalize_ext_trims_dots_and_defaults() {
    assert_eq!(normalize_ext(" .png "), "PNG");
    assert_eq!(normalize_ext("..webp"), "WEBP");
    assert_eq!(normalize_ext(""), "JPG");
    assert_eq!(normalize_ext(" . "), "JPG");
    assert_eq!(output_ext_from_path("/a.b/c"), "JPG");
    assert_eq!(output_ext_from_path("/x/.hidden"), "JPG");
    assert_eq!(output_ext_from_path("/x/y.tar.gz"), "GZ");
}

#[test]
fn output_filename_negative_draw_and_odd_ext() {
    assert_eq!(output_filename("a", "--", "d", -3, ".heic"), "a_d__-3.HEIC");
}

#[test]
fn date_is_utc_yymmdd() {
    assert_eq!(date_yymmdd(0), "700101");
    assert_eq!(date_yymmdd(86_399), "700101");
    assert_eq!(date_yymmdd(86_400), "700102");
    assert_eq!(date_yymmdd(951_782_400), "000229"); // 2000-02-29
    assert_eq!(date_yymmdd(1_783_468_800), "260708"); // 2026-07-08
    assert_eq!(date_yymmdd(-1), "691231");
    assert_eq!(date_yymmdd(4_107_542_400), "000301"); // 2100-03-01
}

#[test]
fn oversize_by_edge_or_bytes() {
    assert!(is_oversize(3000, 1000, 10));
    assert!(is_oversize(10, UPLOAD_MAX_EDGE + 1, 10));
    assert!(is_oversize(1600, 1600, UPLOAD_MAX_BYTES + 1));
    assert!(!is_oversize(UPLOAD_MAX_EDGE, UPLOAD_MAX_EDGE, UPLOAD_MAX_BYTES));
    assert!(!is_oversize(500, 500, 1000));
}

#[test]
fn content_hash_bytes_tell_contents_apart() {
    let a = content_hash_bytes(b"same-content");
    assert_eq!(a, content_hash_bytes(b"same-content"), "同内容 hash 一致");
    assert_ne!(a, content_hash_bytes(b"different"), "异内容 hash 不同");
    assert!(a.starts_with("c-"), "长度前缀为十六进制字节数：{a}");
    assert_eq!(a.len(), 2 + 16);
    assert!(content_hash_bytes(b"").starts_with("0-"));
}

#[test]
fn fingerprint_layout() {
    assert_eq!(fingerprint_from(255, 0xab), "ff-00000000000000ab");
    assert_eq!(fingerprint_from(0, u64::MAX), "0-ffffffffffffffff");
}

/// 造一张有内容的 JPEG（纯色图会被 DCT 完美还原，掩盖色彩通道错位）。
fn jpeg_bytes(w: u32, h: u32, gray: bool) -> Vec<u8> {
    let mut out = Vec::new();
    if gray {
        let mut img = GrayImage::new(w, h);
        for (x, y, px) in img.enumerate_pixels_mut() {
            *px = image::Luma([((x * 7 + y * 3) % 256) as u8]);
        }
        JpegEncoder::new_with_quality(&mut out, 92)
            .encode(&img, w, h, ExtendedColorType::L8)
            .unwrap();
    } else {
        let mut img = RgbImage::new(w, h);
        for (x, y, px) in img.enumerate_pixels_mut() {
            // 三个通道明显不同，通道错位会让平均差异爆掉。
            *px = image::Rgb([(x % 256) as u8, (y % 256) as u8, 40]);
        }
        JpegEncoder::new_with_quality(&mut out, 92)
            .encode(&img, w, h, ExtendedColorType::Rgb8)
            .unwrap();
    }
    out
}

#[test]
fn scan_header_reads_original_dims() {
    let b = jpeg_bytes(2400, 1200, false);
    let h = scan_jpeg_header(&b).unwrap();
    assert_eq!((h.width, h.height), (2400, 1200));
    assert_eq!(h.components, 3);
    assert_eq!(h.precision, 8);
}

#[test]
fn scan_header_rejects_non_jpeg() {
    assert!(scan_jpeg_header(b"\x89PNG\r\n\x1a\n").is_none());
    assert!(scan_jpeg_header(b"").is_none());
    // SOI 之后就截断：不能读越界，只能 None。
    assert!(scan_jpeg_header(b"\xFF\xD8\xFF\xC0").is_none());
}

#[test]
fn scan_header_walks_segments_and_fill_bytes() {
    // SOI, APP0 (len 4), fill bytes, RST0, SOF0 with 8 payload bytes.
    let bytes = [
        0xFF, 0xD8, 0xFF, 0xE0, 0x00, 0x04, 0xAA, 0xBB, 0xFF, 0xFF, 0xFF, 0xD0, 0xFF, 0xC0, 0x00,
        0x08, 0x08, 0x01, 0x02, 0x03, 0x04, 0x01,
    ];
    let h = scan_jpeg_header(&bytes).unwrap();
    assert_eq!((h.precision, h.height, h.width, h.components), (8, 0x0102, 0x0304, 1));
    // DHT (C4) is not a frame header; EOI before any frame gives nothing.
    let dht_then_eoi = [0xFF, 0xD8, 0xFF, 0xC4, 0x00, 0x02, 0xFF, 0xD9];
    assert!(scan_jpeg_header(&dht_then_eoi).is_none());
    // A length below 2 is malformed.
    assert!(scan_jpeg_header(&[0xFF, 0xD8, 0xFF, 0xE1, 0x00, 0x01, 0x00]).is_none());
    // A frame header cut short is no header.
    assert!(scan_jpeg_header(&[0xFF, 0xD8, 0xFF, 0xC0, 0x00, 0x08, 0x08, 0x00]).is_none());
}

#[test]
fn scaled_decode_plan_rules() {
    let b = jpeg_bytes(2400, 1200, false);
    assert_eq!(plan_scaled_decode(&b, 300), Some(ScalePlan { edge: 300, components: 3 }));
    assert_eq!(plan_scaled_decode(&b, 2400), None, "不比目标大则不缩放");
    assert_eq!(plan_scaled_decode(&b, 70_000), None, "请求超出 16 位");
    let g = jpeg_bytes(800, 400, true);
    assert_eq!(plan_scaled_decode(&g, 100), Some(ScalePlan { edge: 100, components: 1 }));
    assert_eq!(plan_scaled_decode(b"not a jpeg", 100), None);
}

#[test]
fn scaled_decode_is_at_least_requested_and_not_wastefully_large() {
    let b = jpeg_bytes(2400, 1200, false);
    let img = decode_scaled(&b, 300, &DecodePermit::for_test()).unwrap();
    // DCT 只有 1/2·1/4·1/8：2400 → 300 正好是 1/8。
    assert!(img.width() >= 300, "长边不得小于请求值，否则缩略图会糊");
    assert!(img.width() < 600, "不该白解一档更大的（{}）", img.width());
}

#[test]
fn small_jpeg_falls_back_to_full_decode() {
    let b = jpeg_bytes(200, 100, false);
    let img = decode_scaled(&b, 512, &DecodePermit::for_test()).unwrap();
    assert_eq!((img.width(), img.height()), (200, 100));
}

#[test]
fn png_takes_fallback_path_at_full_size() {
    let mut buf = Vec::new();
    let img = RgbImage::new(1200, 800);
    image::DynamicImage::ImageRgb8(img)
        .write_to(&mut Cursor::new(&mut buf), image::ImageFormat::Png)
        .unwrap();
    assert!(
        try_decode_scaled_jpeg(&buf, 240).is_none(),
        "PNG 不该走 JPEG 路径"
    );
    let out = decode_scaled(&buf, 240, &DecodePermit::for_test()).unwrap();
    assert_eq!((out.width(), out.height()), (1200, 800));
}

/// 灰度是最容易写错的分支：通道数不对 `from_raw` 会返回 None 静默回落，
/// 于是「能出图」并不说明走对了路。这里直接断言它确实走了缩放路径。
#[test]
fn grayscale_jpeg_decodes_scaled() {
    let b = jpeg_bytes(1600, 800, true);
    let img = try_decode_scaled_jpeg(&b, 200).expect("8 位灰度应走缩放解码");
    assert!(img.width() >= 200 && img.width() < 400);
}

/// 头完好但扫描数据被砍断：`scale()` 能过（它只读 SOF），`decode()` 必然失败，
/// 于是回落到 image，image 同样失败 → Err。**关键是它不该 panic**，
/// 更不该拿一张半截图当成功返回。
#[test]
fn truncated_jpeg_falls_back_and_errors() {
    let full = jpeg_bytes(2400, 1200, false);
    // 砍在 SOS（0xFFDA）刚开始的地方：SOF 还在，像素数据一个字节都没有。
    let sos = full
        .windows(2)
        .position(|w| w == [0xFF, 0xDA])
        .expect("测试前提：编码结果里应有 SOS 标记");
    let cut = &full[..sos + 12];
    assert!(
        scan_jpeg_header(cut).is_some(),
        "测试前提：截断后 SOF 仍应可读，否则测的就不是解码失败那条路"
    );
    assert!(decode_scaled(cut, 240, &DecodePermit::for_test()).is_err());
}

/// 防色彩空间回归：缩放解码 + 缩放，与旧的全解码 + 缩放，逐像素平均绝对差
/// 必须很小。通道错位、YCbCr 系数搞反这类问题会让这个数字直接爆掉，
/// 而肉眼看缩略图「好像也还行」。
#[test]
fn scaled_decode_matches_full_decode_visually() {
    let b = jpeg_bytes(1600, 1200, false);
    let scaled = decode_scaled(&b, 200, &DecodePermit::for_test())
        .unwrap()
        .thumbnail(200, 200)
        .to_rgb8();
    let full = decode_full(&b).unwrap().thumbnail(200, 200).to_rgb8();
    assert_eq!(scaled.dimensions(), full.dimensions());

    let total: u64 = scaled
        .pixels()
        .zip(full.pixels())
        .map(|(a, b)| {
            a.0.iter()
                .zip(b.0.iter())
                .map(|(x, y)| u64::from(x.abs_diff(*y)))
                .sum::<u64>()
        })
        .sum();
    let mae = total as f64 / (scaled.pixels().len() * 3) as f64;
    assert!(
        mae < 8.0,
        "缩放解码与全解码的平均绝对差 {mae:.2} 过大，疑似色彩通道错位"
    );
}

#[test]
fn decode_budget_is_half_the_cores_within_two_and_three() {
    assert_eq!(decode_budget(None), 2);
    assert_eq!(decode_budget(Some(1)), 2);
    assert_eq!(decode_budget(Some(5)), 2);
    assert_eq!(decode_budget(Some(6)), 3);
    assert_eq!(decode_budget(Some(64)), 3);
}

#[test]
fn broken_image_is_a_file_error() {
    match decode_full(&[0, 1, 2, 3]) {
        Err(gendesk::error::AppError::Io(_)) => {}
        other => panic!("应为文件错误：{:?}", other.map(|i| i.width())),
    }
}

#[test]
fn trash_candidates_number_the_stem() {
    assert_eq!(trash_candidate(Some("a"), Some("jpg"), 1), "a_1.jpg");
    assert_eq!(trash_candidate(Some("a"), None, 2), "a_2");
    assert_eq!(trash_candidate(None, Some(""), 10), "file_10");
}

#[test]
fn data_dirs_lay_out_under_the_root() {
    let root = std::path::PathBuf::from("/data/gendesk");
    let dirs = DataDirs::new(root.clone());
    assert_eq!(dirs.db(), root.join("gendesk.db"));
    assert_eq!(dirs.refs(), root.join("refs"));
    assert_eq!(dirs.thumbs(), root.join("thumbs"));
    assert_eq!(dirs.previews(), root.join("previews"));
    assert_eq!(dirs.outputs(), root.join("outputs"));
    assert_eq!(dirs.results(), root.join("results"));
    assert_eq!(dirs.trash(), root.join("trash"));
    assert_eq!(dirs.logs(), root.join("logs"));
    assert_eq!(dirs.clips(), root.join("clips"));
    assert_eq!(DataDirs::new("/x").root, std::path::PathBuf::from("/x"));
}

#[test]
fn preview_cache_names_follow_time_and_size() {
    let a = cache_file_name("/p/a.jpg", 1_000, 10);
    assert_eq!(a, cache_file_name("/p/a.jpg", 1_000, 10), "键必须稳定");
    assert_ne!(a, cache_file_name("/p/a.jpg", 1_001, 10), "纳秒 mtime 变了键必须变");
    assert_ne!(a, cache_file_name("/p/a.jpg", 1_000, 11), "字节数变了键必须变");
    assert!(a.ends_with(".jpg") && a.len() == 20, "{a}");
}

#[test]
fn thumbnail_source_reports_the_header_size() {
    let bytes = jpeg_bytes(2400, 1800, false);
    let ((w, h), img) = thumbnail_source(&bytes, &DecodePermit::for_test()).unwrap();
    assert_eq!((w, h), (2400, 1800), "the original size, not the decoded one");
    assert!(img.width() < 2400 && img.width() >= THUMB_MAX);
    let err = thumbnail_source(b"definitely not a jpeg", &DecodePermit::for_test()).unwrap_err();
    assert!(matches!(err, AppError::Io(_)), "{err:?}");
}

#[test]
fn thumbnail_and_upload_copy_fit_their_edges() {
    let img = image::load_from_memory(&jpeg_bytes(3000, 1500, false)).unwrap();
    let t = image::load_from_memory(&thumbnail_jpeg(&img).unwrap()).unwrap();
    assert_eq!((t.width(), t.height()), (512, 256));
    let u = image::load_from_memory(&upload_copy_jpeg(&img).unwrap()).unwrap();
    assert_eq!((u.width(), u.height()), (2048, 1024));
    let small = image::load_from_memory(&jpeg_bytes(300, 200, false)).unwrap();
    let s = image::load_from_memory(&thumbnail_jpeg(&small).unwrap()).unwrap();
    assert_eq!((s.width(), s.height()), (300, 200), "small images are not scaled");
}

#[test]
fn preview_is_scaled_to_its_edge() {
    let bytes = jpeg_bytes(2400, 1800, false);
    let p = image::load_from_memory(&preview_jpeg(&bytes, &DecodePermit::for_test()).unwrap())
        .unwrap();
    assert_eq!((p.width(), p.height()), (PREVIEW_EDGE, 180));
    assert!(preview_jpeg(b"definitely not a jpeg", &DecodePermit::for_test()).is_err());
}
