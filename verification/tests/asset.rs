use fusion_design::asset::colors::{color_names, extract_colors};
use fusion_design::asset::pictures::{colors_of_decoded, extract_colors_of, image_dimensions_of};
use fusion_design::asset::{
    accept_file, default_categories, image_dimensions, import_file, new_asset_id,
    new_library_with_defaults, Annotation, AssetError, AssetItem, AssetKind, AssetLibrary,
    ColorExtraction, FileFacts, MAX_IMAGE_FILE_SIZE,
};
use fusion_design::num::Num;

fn num(x: f64) -> Num {
    Num { bits: x.to_bits(), text: x.to_string() }
}

fn sample_item(id: &str) -> AssetItem {
    AssetItem {
        id: id.to_string(),
        name: format!("测试素材-{id}"),
        kind: AssetKind::Image,
        file_path: "/tmp/test.png".to_string(),
        categories: vec!["cat-reference".into()],
        tags: vec!["test".into()],
        annotations: vec![],
        color_extraction: None,
        design_system_id: None,
        file_size: 1024,
        width: 100,
        height: 200,
        created_at: 1000,
        updated_at: 1000,
    }
}

fn annotation() -> Annotation {
    Annotation {
        id: "ann1".into(),
        x: num(10.0),
        y: num(20.0),
        w: num(50.0),
        h: num(30.0),
        label: "按钮".into(),
        color: Some("#FF0000".into()),
        note: None,
    }
}

#[test]
fn add_and_get_item() {
    let mut lib = AssetLibrary::new();
    lib.add(sample_item("a1"));
    assert!(lib.get("a1").is_some());
    assert!(lib.get("nope").is_none());
}

#[test]
fn adding_again_replaces() {
    let mut lib = AssetLibrary::new();
    lib.add(sample_item("a1"));
    let mut again = sample_item("a1");
    again.name = "neu".into();
    lib.add(again);
    assert_eq!(lib.len(), 1);
    assert_eq!(lib.get("a1").unwrap().name, "neu");
    lib.get_mut("a1").unwrap().name = "ganz neu".into();
    assert_eq!(lib.get("a1").unwrap().name, "ganz neu");
}

#[test]
fn remove_item() {
    let mut lib = AssetLibrary::new();
    lib.add(sample_item("a1"));
    let removed = lib.remove("a1");
    assert!(removed.is_some());
    assert!(lib.get("a1").is_none());
    assert!(lib.remove("a1").is_none());
}

#[test]
fn add_category_and_query() {
    let mut lib = new_library_with_defaults();
    lib.add(sample_item("a1"));
    let items = lib.items_by_category("cat-reference");
    assert_eq!(items.len(), 1);
}

#[test]
fn search_by_name() {
    let mut lib = AssetLibrary::new();
    lib.add(sample_item("a1"));
    assert_eq!(lib.search("测试").len(), 1);
    assert!(lib.search("不存在").is_empty());
}

#[test]
fn search_ignores_case() {
    let mut lib = new_library_with_defaults();
    let mut item = sample_item("a1");
    item.name = "Éclair".into();
    item.tags = vec!["Süß".into()];
    lib.add(item);
    assert_eq!(lib.search("ÉCL").len(), 1);
    assert_eq!(lib.search("SÜ").len(), 1);
    assert_eq!(lib.search("").len(), 1);
    assert!(lib.search("torte").is_empty());
}

#[test]
fn search_by_tags() {
    let mut lib = AssetLibrary::new();
    lib.add(sample_item("a1"));
    assert_eq!(lib.search_by_tags(&vec!["test".into()]).len(), 1);
    assert!(lib.search_by_tags(&vec!["missing".into()]).is_empty());
}

#[test]
fn filter_by_kind() {
    let mut lib = AssetLibrary::new();
    lib.add(sample_item("a1"));
    assert_eq!(lib.filter_by_kind(AssetKind::Image).len(), 1);
    assert!(lib.filter_by_kind(AssetKind::Icon).is_empty());
}

#[test]
fn add_annotation() {
    let mut lib = AssetLibrary::new();
    lib.add(sample_item("a1"));
    lib.add_annotation("a1", annotation(), 2000).unwrap();
    assert_eq!(lib.get("a1").unwrap().annotations.len(), 1);
    assert_eq!(lib.get("a1").unwrap().updated_at, 2000);
}

#[test]
fn add_annotation_not_found() {
    let mut lib = AssetLibrary::new();
    let e = lib.add_annotation("nope", annotation(), 2000).unwrap_err();
    assert_eq!(e.message(), "素材 nope 未找到");
}

fn extraction(colors: Vec<String>, weights: Vec<f64>) -> ColorExtraction {
    ColorExtraction {
        dominant_colors: colors,
        weights: weights.into_iter().map(num).collect(),
        bound_tokens: vec![],
    }
}

#[test]
fn set_color_extraction() {
    let mut lib = AssetLibrary::new();
    lib.add(sample_item("a1"));
    let e = extraction(vec!["#FF5733".into(), "#33FF57".into()], vec![0.6, 0.4]);
    lib.set_color_extraction("a1", e, 2000).unwrap();
    let item = lib.get("a1").unwrap();
    assert_eq!(item.color_extraction.as_ref().unwrap().dominant_colors.len(), 2);
}

#[test]
fn bind_design_system() {
    let mut lib = AssetLibrary::new();
    lib.add(sample_item("a1"));
    lib.bind_design_system("a1", "apple-hig", 2000).unwrap();
    assert_eq!(lib.get("a1").unwrap().design_system_id.as_deref(), Some("apple-hig"));
}

#[test]
fn bind_colors_to_tokens() {
    let mut lib = AssetLibrary::new();
    lib.add(sample_item("a1"));
    lib.set_color_extraction("a1", extraction(vec!["#FF5733".into()], vec![1.0]), 2000).unwrap();
    let token_map = vec![("color.primary".to_string(), "#FF5733".to_string())];
    lib.bind_colors_to_tokens("a1", &token_map, 3000).unwrap();
    let item = lib.get("a1").unwrap();
    assert_eq!(item.color_extraction.as_ref().unwrap().bound_tokens, token_map);
}

#[test]
fn bind_colors_to_tokens_no_extraction() {
    let mut lib = AssetLibrary::new();
    lib.add(sample_item("a1"));
    let e = lib.bind_colors_to_tokens("a1", &vec![], 2000).unwrap_err();
    assert_eq!(e.message(), "素材 a1 无色彩提取结果");
}

#[test]
fn default_categories_count() {
    assert_eq!(default_categories().len(), 5);
}

#[test]
fn len_and_empty() {
    let mut lib = AssetLibrary::new();
    assert!(lib.is_empty());
    assert_eq!(lib.len(), 0);
    lib.add(sample_item("a1"));
    assert!(!lib.is_empty());
    assert_eq!(lib.len(), 1);
}

/// The bytes of an image file with one color.
fn file_of(w: u32, h: u32, color: [u8; 3], format: image::ImageFormat) -> Vec<u8> {
    let mut bytes = vec![];
    image::RgbImage::from_pixel(w, h, image::Rgb(color))
        .write_to(&mut std::io::Cursor::new(&mut bytes), format)
        .unwrap();
    bytes
}

#[test]
fn extract_colors_from_real_image() {
    let bytes = file_of(10, 10, [255, 0, 0], image::ImageFormat::Png);
    let palette = extract_colors_of("/in/test.png", &bytes).unwrap();
    let names = color_names(&palette);
    assert!(!names.is_empty());
    assert!(names[0].starts_with("#E0"), "got {}", names[0]);
    assert_eq!(names, vec!["#E00000"]);
    assert_eq!(palette.total, 100);
    assert_eq!(palette.tallies[0].count, palette.total);
}

#[test]
fn colors_of_a_jpeg_file() {
    let bytes = file_of(16, 16, [0, 0, 0], image::ImageFormat::Jpeg);
    let palette = extract_colors_of("/in/a.JPEG", &bytes).unwrap();
    assert_eq!(color_names(&palette), vec!["#000000"]);
    assert_eq!(palette.total, 256);
}

#[test]
fn format_is_taken_from_the_path() {
    let bytes = file_of(4, 5, [0, 0, 0], image::ImageFormat::Png);
    assert_eq!(image_dimensions_of("a.PNG", &bytes), (4, 5));
    assert_eq!(image_dimensions_of("a.jpg", &bytes), (0, 0));
    assert_eq!(image_dimensions_of("a", &bytes), (0, 0));
    for path in ["a.jpg", "a.xyz", "a"] {
        let e = extract_colors_of(path, &bytes).unwrap_err();
        assert!(e.starts_with("图片解码失败: ") && e.len() > "图片解码失败: ".len(), "{e}");
    }
    let e = extract_colors_of("a.png", &vec![1, 2, 3]).unwrap_err();
    assert!(e.starts_with("图片解码失败: "), "{e}");
}

#[test]
fn undecoded_images_have_no_colors() {
    let e = colors_of_decoded(Err("boom".to_string())).unwrap_err();
    assert_eq!(e, "图片解码失败: boom");
    let palette = colors_of_decoded(Ok((0, 3, vec![]))).unwrap();
    assert_eq!((palette.tallies.len(), palette.total), (0, 0));
    let palette = colors_of_decoded(Ok((1, 1, vec![255, 64, 31]))).unwrap();
    assert_eq!(color_names(&palette), vec!["#E04000"]);
}

#[test]
fn most_frequent_color_comes_first() {
    let mut pixels = vec![];
    for i in 0..10 {
        pixels.extend_from_slice(if i < 3 { &[0u8, 0, 255] } else { &[0u8, 64, 0] });
    }
    let palette = extract_colors(&pixels, 10, 1);
    assert_eq!(color_names(&palette), vec!["#004000", "#0000E0"]);
    assert_eq!(palette.tallies[0].count, 7);
    assert_eq!(palette.tallies[1].count, 3);
    assert_eq!(palette.total, 10);
}

#[test]
fn read_image_dimensions_from_real_image() {
    let bytes = file_of(20, 30, [0, 0, 0], image::ImageFormat::Png);
    let (w, h) = image_dimensions_of("/in/test.png", &bytes);
    assert_eq!(w, 20);
    assert_eq!(h, 30);
    assert_eq!(image_dimensions_of("/in/test.png", &vec![]), (0, 0));
    assert_eq!(image_dimensions(None), (0, 0));
    assert_eq!(image_dimensions(Some((100_000, 100_000))), (0, 0));
}

#[test]
fn asset_id_is_made_of_the_time() {
    assert_eq!(new_asset_id(0x2_0000_00ab), "asset-ab-2");
}

fn facts(size: Option<u64>) -> FileFacts {
    let bytes = file_of(20, 30, [0, 0, 0], image::ImageFormat::Png);
    FileFacts { path: "/in/a.png".into(), size, bytes }
}

#[test]
fn file_is_imported() {
    let mut lib = AssetLibrary::new();
    let id = import_file(
        &mut lib,
        &facts(Some(7)),
        "Logo",
        AssetKind::Icon,
        vec!["c".into()],
        vec!["t".into()],
        5,
        99,
    )
    .unwrap();
    let item = lib.get(&id).unwrap();
    assert_eq!((item.file_size, item.width, item.height), (7, 20, 30));
    assert_eq!((item.name.as_str(), item.created_at, item.updated_at), ("Logo", 99, 99));
}

#[test]
fn missing_and_large_files_are_refused() {
    let mut lib = AssetLibrary::new();
    let mut import = |size| {
        import_file(&mut lib, &facts(size), "Logo", AssetKind::Icon, vec![], vec![], 5, 99)
            .unwrap_err()
            .message()
    };
    assert_eq!(import(None), "文件不存在: /in/a.png");
    assert_eq!(import(Some(104_857_601)), "文件过大: 104857601 字节，超过上限 104857600 字节");
    assert!(lib.is_empty());
}

#[test]
fn asset_errors_in_words() {
    assert_eq!(AssetError::Io("x".into()).message(), "IO 错误: x");
    assert_eq!(AssetError::Serde("x".into()).message(), "序列化错误: x");
    assert_eq!(AssetError::ImageTooLarge(2, 3, 6).message(), "图片像素数超限: 2x3 = 6 像素");
}

#[test]
fn oversized_file_is_refused_first() {
    assert!(matches!(accept_file("a.png", None), Err(AssetError::FileNotFound(p)) if p == "a.png"));
    assert!(matches!(
        accept_file("a.png", Some(MAX_IMAGE_FILE_SIZE + 1)),
        Err(AssetError::FileTooLarge(_, MAX_IMAGE_FILE_SIZE))
    ));
    assert_eq!(accept_file("a.png", Some(7)).unwrap(), 7);
}
