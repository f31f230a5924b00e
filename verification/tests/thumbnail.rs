use c2pa_font_handler::mime_type::FontMimeTypes;
use c2pa_font_handler::thumbnail::{
    check_thumbnail_input, FontThumbnailError,
    clip_text_to_ellipsis, find_preferred_name, NameRecord, SvgThumbnailRenderer,
    SvgThumbnailRendererConfig, Thumbnail,
};

fn record(name_id: u16, platform_id: u16, encoding_id: u16, language_id: u16) -> NameRecord {
    NameRecord { name_id, platform_id, encoding_id, language_id }
}

#[test]
fn test_svg_renderer_default() {
    let renderer = SvgThumbnailRenderer::default();
    assert_eq!(
        renderer.config.default_precision,
        SvgThumbnailRendererConfig::DEFAULT_SVG_PRECISION
    );
    assert_eq!(
        renderer.config.glyph_fill_color,
        SvgThumbnailRendererConfig::SVG_GLYPH_FILL_COLOR
    );
}

#[test]
fn test_default_svg_thumbnail_renderer_config() {
    let config = SvgThumbnailRendererConfig::default();
    assert_eq!(config.default_precision, SvgThumbnailRendererConfig::DEFAULT_SVG_PRECISION);
    assert_eq!(config.glyph_fill_color, SvgThumbnailRendererConfig::SVG_GLYPH_FILL_COLOR);
}

#[test]
fn clip_text_replaces_the_last_three_characters() {
    assert_eq!(clip_text_to_ellipsis("Hello"), "He...");
    assert_eq!(clip_text_to_ellipsis("abc"), "abc");
    assert_eq!(clip_text_to_ellipsis("ab"), "ab");
    assert_eq!(clip_text_to_ellipsis("ééééé"), "éé...");
}

#[test]
fn thumbnail_keeps_its_data_and_type() {
    let thumbnail = Thumbnail::new(vec![1, 2, 3], "image/png".to_string());
    assert_eq!(thumbnail.data(), &[1, 2, 3]);
    assert_eq!(thumbnail.mime_type(), "image/png");
}

#[test]
fn preferred_name_takes_unicode_before_windows() {
    let records = vec![
        record(4, 3, 1, 0x0409),
        record(1, 0, 3, 0x0409),
        record(4, 0, 3, 0x0409),
        record(4, 0, 3, 0x0409),
    ];
    assert_eq!(find_preferred_name(&records, 4), Some(2));
}

#[test]
fn preferred_name_takes_windows_symbol_before_bmp() {
    let records = vec![record(4, 3, 1, 0x0409), record(4, 3, 0, 0x0409)];
    assert_eq!(find_preferred_name(&records, 4), Some(1));
    let records = vec![record(4, 3, 1, 0x0409)];
    assert_eq!(find_preferred_name(&records, 4), Some(0));
}

#[test]
fn preferred_name_ignores_other_languages_and_names() {
    let records = vec![
        record(4, 3, 1, 0x0407),
        record(19, 0, 3, 0x0409),
        record(4, 1, 0, 0),
    ];
    assert_eq!(find_preferred_name(&records, 4), None);
    assert_eq!(find_preferred_name(&records, 19), Some(1));
    assert_eq!(find_preferred_name(&[], 4), None);
}

#[test]
fn thumbnails_are_made_of_otf_and_ttf_fonts_only() {
    assert!(matches!(check_thumbnail_input(FontMimeTypes::OTF), Ok(FontMimeTypes::OTF)));
    assert!(matches!(check_thumbnail_input(FontMimeTypes::TTF), Ok(FontMimeTypes::TTF)));
    assert!(matches!(
        check_thumbnail_input(FontMimeTypes::WOFF),
        Err(FontThumbnailError::UnsupportedInputMimeType)
    ));
    assert!(matches!(
        check_thumbnail_input(FontMimeTypes::WOFF2),
        Err(FontThumbnailError::UnsupportedInputMimeType)
    ));
}
