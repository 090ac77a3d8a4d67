use photoflow::exif_orientation::ExifOrientation;
use photoflow::img_decoder;
use photoflow::indexer::media_decoder;
use photoflow::indexer::{db_meta, is_candidate, is_not_hidden};
use photoflow::media::media_type::{eq_ignore_case, extension_of, file_name_start};
use photoflow::media::metadata::{fs_datetime, ParsedTags};
use photoflow::media::{ImageType, MediaMetadata, MediaType, VideoType};

#[test]
fn image_types_from_extensions() {
    assert_eq!(ImageType::from_ext(b"jpg"), Some(ImageType::Jpeg));
    assert_eq!(ImageType::from_ext(b"jpeg"), Some(ImageType::Jpeg));
    assert_eq!(ImageType::from_ext(b"JPG"), Some(ImageType::Jpeg));
    assert_eq!(ImageType::from_ext(b"JpEg"), Some(ImageType::Jpeg));
    assert_eq!(ImageType::from_ext(b"heic"), Some(ImageType::Heic));
    assert_eq!(ImageType::from_ext(b"HEIC"), Some(ImageType::Heic));
    assert_eq!(ImageType::from_ext(b"png"), None);
    assert_eq!(ImageType::from_ext(b"jp"), None);
    assert_eq!(ImageType::from_ext(b"jpegs"), None);
    assert_eq!(ImageType::from_ext(b""), None);
    assert_eq!(ImageType::from_ext(b"mp4"), None);
}

#[test]
fn video_types_from_extensions() {
    assert_eq!(VideoType::from_ext(b"mp4"), Some(VideoType::Mp4));
    assert_eq!(VideoType::from_ext(b"MP4"), Some(VideoType::Mp4));
    assert_eq!(VideoType::from_ext(b"mov"), Some(VideoType::Mov));
    assert_eq!(VideoType::from_ext(b"MoV"), Some(VideoType::Mov));
    assert_eq!(VideoType::from_ext(b"avi"), None);
    assert_eq!(VideoType::from_ext(b"jpg"), None);
}

#[test]
fn case_is_ignored_for_letters_only() {
    assert!(eq_ignore_case(b"AbC", b"aBc"));
    assert!(!eq_ignore_case(b"abc", b"abd"));
    assert!(!eq_ignore_case(b"abc", b"abcd"));
    // '@' and '`' differ by the same bit as the cases of a letter do
    assert!(!eq_ignore_case(b"@", b"`"));
    assert!(!eq_ignore_case(b"[", b"{"));
    assert!(eq_ignore_case(b"Z", b"z"));
}

#[test]
fn media_types_from_paths() {
    assert_eq!(
        MediaType::from_path("/photos/2020/IMG_0001.JPG"),
        Some(MediaType::Image(ImageType::Jpeg))
    );
    assert_eq!(MediaType::from_path("a.heic"), Some(MediaType::Image(ImageType::Heic)));
    assert_eq!(MediaType::from_path("clip.mov"), Some(MediaType::Video(VideoType::Mov)));
    assert_eq!(MediaType::from_path("/v/clip.final.mp4"), Some(MediaType::Video(VideoType::Mp4)));
    assert_eq!(MediaType::from_path("/v/notes.txt"), None);
    assert_eq!(MediaType::from_path("/v/jpg"), None);
    assert_eq!(MediaType::from_path(""), None);
}

#[test]
fn extension_belongs_to_the_file_name() {
    assert_eq!(MediaType::from_path("/dir.jpg/readme"), None);
    assert_eq!(MediaType::from_path("/dir.jpg/"), None);
    assert_eq!(MediaType::from_path(".jpg"), None);
    assert_eq!(MediaType::from_path("/a/.jpg"), None);
    assert_eq!(MediaType::from_path("/a/.hidden.jpg"), Some(MediaType::Image(ImageType::Jpeg)));
    assert_eq!(MediaType::from_path("x.jpg."), None);
    assert_eq!(MediaType::from_path("päth/ö.jpg"), Some(MediaType::Image(ImageType::Jpeg)));
}

#[test]
fn file_name_and_extension() {
    assert_eq!(file_name_start(b"/a/b/c.txt"), 5);
    assert_eq!(file_name_start(b"c.txt"), 0);
    assert_eq!(file_name_start(b"dir/"), 4);
    assert_eq!(extension_of(b"/a/b/c.tar.gz"), Some(&b"gz"[..]));
    assert_eq!(extension_of(b"/a/b/c."), Some(&b""[..]));
    assert_eq!(extension_of(b"/a/b/.profile"), None);
    assert_eq!(extension_of(b"/a.b/c"), None);
    assert_eq!(extension_of(b""), None);
}

#[test]
fn media_type_kind() {
    assert!(MediaType::Video(VideoType::Mp4).is_video());
    assert!(!MediaType::Image(ImageType::Heic).is_video());
}

#[test]
fn decoder_filters() {
    assert!(img_decoder::is_extension_supported("a.jpg"));
    assert!(img_decoder::is_extension_supported("a.JPEG"));
    assert!(img_decoder::is_extension_supported("a.heic"));
    assert!(!img_decoder::is_extension_supported("a.mp4"));
    assert!(!img_decoder::is_extension_supported("a"));
    assert!(img_decoder::has_heic_extension("b.HEIC"));
    assert!(!img_decoder::has_heic_extension("b.jpg"));
    assert!(media_decoder::is_video("c.MOV"));
    assert!(media_decoder::is_video("c.mp4"));
    assert!(!media_decoder::is_video("c.jpg"));
    assert!(media_decoder::is_extension_supported("c.mp4"));
    assert!(media_decoder::is_extension_supported("c.jpg"));
    assert!(!media_decoder::is_extension_supported("c.gif"));
}

#[test]
fn hidden_files() {
    assert!(is_not_hidden("/a/b.jpg"));
    assert!(is_not_hidden("b"));
    assert!(!is_not_hidden("/a/.b.jpg"));
    assert!(!is_not_hidden(".b"));
    assert!(!is_not_hidden("/a/"));
    assert!(!is_not_hidden(""));
    assert!(!is_not_hidden(".."));
    // only the file name counts
    assert!(is_not_hidden("/.cache/b.jpg"));
}

#[test]
fn candidates_are_visible_media_files() {
    assert!(is_candidate("/p/a.jpg"));
    assert!(is_candidate("/p/a.MOV"));
    assert!(is_candidate("/.thumbs/a.jpg"));
    assert!(!is_candidate("/p/.a.jpg"));
    assert!(!is_candidate("/p/a.txt"));
    assert!(!is_candidate("/p/a"));
}

#[test]
fn orientation_codes() {
    let all = [
        (1u64, ExifOrientation::Unchanged),
        (2, ExifOrientation::MirroredHorizontally),
        (3, ExifOrientation::Rotated180),
        (4, ExifOrientation::MirroredVertically),
        (5, ExifOrientation::Rotated90AndMirroredHorizontally),
        (6, ExifOrientation::Rotated90),
        (7, ExifOrientation::Rotated90AndMirroredVertically),
        (8, ExifOrientation::Rotated270),
    ];
    for (code, orientation) in all {
        assert_eq!(ExifOrientation::try_from(code), Ok(orientation));
        assert_eq!(u64::from(orientation), code);
    }
    assert_eq!(ExifOrientation::try_from(0), Err(()));
    assert_eq!(ExifOrientation::try_from(9), Err(()));
    assert_eq!(ExifOrientation::try_from(u64::MAX), Err(()));
    assert_eq!(ExifOrientation::default(), ExifOrientation::Unchanged);
}

#[test]
fn file_system_time_is_the_earlier_one() {
    assert_eq!(fs_datetime(Some(10), Some(20)), Some(10));
    assert_eq!(fs_datetime(Some(20), Some(10)), Some(10));
    assert_eq!(fs_datetime(Some(7), Some(7)), Some(7));
    assert_eq!(fs_datetime(Some(-5), Some(3)), Some(-5));
    assert_eq!(fs_datetime(Some(10), None), Some(10));
    assert_eq!(fs_datetime(None, Some(10)), None);
    assert_eq!(fs_datetime(None, None), None);
}

#[test]
fn image_metadata_from_tags() {
    let mt = MediaType::Image(ImageType::Jpeg);
    let tags = ParsedTags::Exif { create_date: Some(1_600_000_000), orientation: Some(6) };
    let m = MediaMetadata::parse(&mt, &tags, Some(5));
    assert_eq!(
        m,
        MediaMetadata::Image { timestamp: 1_600_000_000, orientation: ExifOrientation::Rotated90 }
    );
    assert_eq!(m.timestamp(), 1_600_000_000);
    assert_eq!(m.exif_orientation(), Some(ExifOrientation::Rotated90));
    assert_eq!(db_meta(&m), 6);
}

#[test]
fn image_metadata_falls_back() {
    let mt = MediaType::Image(ImageType::Heic);
    let no_date = ParsedTags::Exif { create_date: None, orientation: Some(3) };
    assert_eq!(
        MediaMetadata::parse(&mt, &no_date, Some(77)),
        MediaMetadata::Image { timestamp: 77, orientation: ExifOrientation::Rotated180 }
    );
    let bad_code = ParsedTags::Exif { create_date: Some(9), orientation: Some(42) };
    assert_eq!(
        MediaMetadata::parse(&mt, &bad_code, None),
        MediaMetadata::Image { timestamp: 9, orientation: ExifOrientation::Unchanged }
    );
    let nothing = ParsedTags::Exif { create_date: None, orientation: None };
    assert_eq!(
        MediaMetadata::parse(&mt, &nothing, None),
        MediaMetadata::Image { timestamp: 0, orientation: ExifOrientation::Unchanged }
    );
    assert_eq!(
        MediaMetadata::parse(&mt, &ParsedTags::Missing, Some(12)),
        MediaMetadata::Image { timestamp: 12, orientation: ExifOrientation::Unchanged }
    );
    let other_kind = ParsedTags::Track { create_date: Some(1), duration_ms: Some(2) };
    assert_eq!(
        MediaMetadata::parse(&mt, &other_kind, Some(12)),
        MediaMetadata::Image { timestamp: 12, orientation: ExifOrientation::Unchanged }
    );
}

#[test]
fn video_metadata() {
    let mt = MediaType::Video(VideoType::Mp4);
    let tags = ParsedTags::Track { create_date: Some(100), duration_ms: Some(61_000) };
    let m = MediaMetadata::parse(&mt, &tags, Some(5));
    assert_eq!(m, MediaMetadata::Video { timestamp: 100, duration_ms: 61_000 });
    assert_eq!(m.exif_orientation(), None);
    assert_eq!(m.timestamp(), 100);
    assert_eq!(db_meta(&m), 61_000);
    let bare = ParsedTags::Track { create_date: None, duration_ms: None };
    assert_eq!(
        MediaMetadata::parse(&mt, &bare, Some(5)),
        MediaMetadata::Video { timestamp: 5, duration_ms: 0 }
    );
    assert_eq!(
        MediaMetadata::parse(&mt, &ParsedTags::Missing, None),
        MediaMetadata::Video { timestamp: 0, duration_ms: 0 }
    );
}
