use mobius_rtsp::scanner::{
    asset_for, is_supported_extension, scan, served_extension, split_name, supported_extensions,
    DirEntry, Listing, ScanError, SourceAsset,
};
use mobius_rtsp::text::{folds_to, join_path};

fn file(name: &str) -> DirEntry {
    DirEntry { file_name: String::from(name), is_file: true }
}

fn other(name: &str) -> DirEntry {
    DirEntry { file_name: String::from(name), is_file: false }
}

fn scan_names(directory: &str, entries: Vec<DirEntry>) -> Vec<SourceAsset> {
    match scan(directory, &Listing::Entries(entries)) {
        Ok(assets) => assets,
        Err(error) => panic!("refused: {}", error.message()),
    }
}

fn split(name: &str) -> Option<(String, String)> {
    split_name(name)
}

#[test]
fn every_supported_extension_is_served() {
    let extensions = ["mp4", "avi", "mkv", "mov", "webm", "flv", "wmv", "m4v", "3gp"];
    let mut entries = Vec::new();
    for extension in extensions.iter() {
        entries.push(file(&format!("clip.{}", extension)));
    }
    let assets = scan_names("/videos", entries);
    assert_eq!(assets.len(), 9);
    for (asset, extension) in assets.iter().zip(extensions.iter()) {
        assert_eq!(asset.stream_id, "clip");
        assert_eq!(asset.extension, *extension);
        assert_eq!(asset.file_path, format!("/videos/clip.{}", extension));
    }
}

#[test]
fn extension_case_does_not_matter() {
    let assets = scan_names(
        "/videos",
        vec![
            file("a.MP4"),
            file("b.Mkv"),
            file("c.wEbM"),
            file("d.3GP"),
            file("e.M4V"),
            file("f.AVI"),
            file("g.MoV"),
            file("h.FLV"),
            file("i.wmV"),
        ],
    );
    let found: Vec<(&str, &str)> =
        assets.iter().map(|a| (a.stream_id.as_str(), a.extension.as_str())).collect();
    assert_eq!(
        found,
        vec![
            ("a", "mp4"),
            ("b", "mkv"),
            ("c", "webm"),
            ("d", "3gp"),
            ("e", "m4v"),
            ("f", "avi"),
            ("g", "mov"),
            ("h", "flv"),
            ("i", "wmv"),
        ]
    );
    assert_eq!(assets[0].file_path, "/videos/a.MP4");
}

#[test]
fn case_folding_follows_unicode() {
    let assets = scan_names("/videos", vec![file("kelvin.m\u{212A}v")]);
    assert_eq!(assets.len(), 1);
    assert_eq!(assets[0].extension, "mkv");
    assert_eq!(assets[0].stream_id, "kelvin");
}

#[test]
fn unsupported_extensions_are_left_out() {
    let assets = scan_names(
        "/videos",
        vec![
            file("notes.txt"),
            file("song.mp3"),
            file("clip.mp4"),
            file("clip.mp4.bak"),
            file("clip.mp44"),
            file("clip.mp"),
            file("clip. mp4"),
            file("archive.tar.gz"),
        ],
    );
    assert_eq!(assets.len(), 1);
    assert_eq!(assets[0].file_path, "/videos/clip.mp4");
}

#[test]
fn names_without_extension_are_left_out() {
    let assets = scan_names(
        "/videos",
        vec![file("mp4"), file(".mp4"), file("clip."), file(""), file("."), file(".."), file("README")],
    );
    assert!(assets.is_empty());
}

#[test]
fn entries_that_are_not_files_are_left_out() {
    let assets = scan_names("/videos", vec![other("folder.mp4"), file("clip.mkv"), other("sub")]);
    assert_eq!(assets.len(), 1);
    assert_eq!(assets[0].stream_id, "clip");
}

#[test]
fn stem_is_kept_as_it_stands() {
    let assets = scan_names(
        "/videos",
        vec![file("My Clip.MP4"), file("a.b.c.mov"), file("..flv"), file("\u{e9}t\u{e9}.avi")],
    );
    let ids: Vec<&str> = assets.iter().map(|a| a.stream_id.as_str()).collect();
    assert_eq!(ids, vec!["My Clip", "a.b.c", ".", "\u{e9}t\u{e9}"]);
    assert_eq!(assets[2].extension, "flv");
    assert_eq!(assets[2].file_path, "/videos/..flv");
}

#[test]
fn listing_order_is_kept() {
    let assets = scan_names("v", vec![file("z.mp4"), file("skip.txt"), file("a.mp4"), file("m.mp4")]);
    let ids: Vec<&str> = assets.iter().map(|a| a.stream_id.as_str()).collect();
    assert_eq!(ids, vec!["z", "a", "m"]);
}

#[test]
fn empty_directory_gives_no_assets() {
    let assets = scan_names("./videos", Vec::new());
    assert!(assets.is_empty());
}

#[test]
fn missing_directory_is_refused() {
    match scan("./videos", &Listing::Missing) {
        Ok(assets) => panic!("scanned: {:?}", assets),
        Err(error) => {
            assert_eq!(error, ScanError::DirectoryMissing);
            assert_eq!(error.message(), "source directory not found");
        }
    }
}

#[test]
fn colliding_stems_give_one_asset_each() {
    let assets = scan_names("./videos", vec![file("demo.mp4"), file("demo.mkv")]);
    assert_eq!(assets.len(), 2);
    assert_eq!(assets[0].stream_id, "demo");
    assert_eq!(assets[1].stream_id, "demo");
    assert_eq!(assets[0].file_path, "./videos/demo.mp4");
    assert_eq!(assets[1].file_path, "./videos/demo.mkv");
}

#[test]
fn asset_of_a_single_entry() {
    match asset_for("/srv/media/", &file("Intro.WebM")) {
        Some(asset) => {
            assert_eq!(asset.file_path, "/srv/media/Intro.WebM");
            assert_eq!(asset.stream_id, "Intro");
            assert_eq!(asset.extension, "webm");
        }
        None => panic!("left out"),
    }
    assert!(asset_for("/srv/media/", &other("Intro.WebM")).is_none());
    assert!(asset_for("/srv/media/", &file("Intro.ogg")).is_none());
}

#[test]
fn splitting_names() {
    assert_eq!(split("clip.mp4"), Some((String::from("clip"), String::from("mp4"))));
    assert_eq!(split("a.b.MKV"), Some((String::from("a.b"), String::from("MKV"))));
    assert_eq!(split("clip."), Some((String::from("clip"), String::new())));
    assert_eq!(split("..x"), Some((String::from("."), String::from("x"))));
    assert_eq!(split("..."), Some((String::from(".."), String::new())));
    assert_eq!(split(".profile"), None);
    assert_eq!(split("plain"), None);
    assert_eq!(split(""), None);
    assert_eq!(split("."), None);
    assert_eq!(split(".."), None);
}

#[test]
fn supported_extensions_are_matched_as_they_stand() {
    for extension in ["mp4", "avi", "mkv", "mov", "webm", "flv", "wmv", "m4v", "3gp"] {
        assert!(is_supported_extension(extension));
    }
    for extension in ["MP4", "Mkv", "", "mp", "mp44", "ts", "mpeg", " mp4", "3gpp"] {
        assert!(!is_supported_extension(extension));
    }
    assert_eq!(
        supported_extensions(),
        vec!["mp4", "avi", "mkv", "mov", "webm", "flv", "wmv", "m4v", "3gp"]
    );
}

#[test]
fn joining_paths() {
    assert_eq!(join_path("./videos", "a.mp4"), "./videos/a.mp4");
    assert_eq!(join_path("/srv/media/", "a.mp4"), "/srv/media/a.mp4");
    assert_eq!(join_path("", "a.mp4"), "a.mp4");
    assert_eq!(join_path("/", "a.mp4"), "/a.mp4");
    assert_eq!(join_path("segments", ""), "segments/");
    assert_eq!(join_path("d\u{e9}p\u{f4}t", "x"), "d\u{e9}p\u{f4}t/x");
}

#[test]
fn folding_extensions() {
    assert_eq!(served_extension("mp4"), Some(String::from("mp4")));
    assert_eq!(served_extension("MP4"), Some(String::from("mp4")));
    assert_eq!(served_extension("WebM"), Some(String::from("webm")));
    assert_eq!(served_extension("3Gp"), Some(String::from("3gp")));
    assert_eq!(served_extension("m\u{212A}v"), Some(String::from("mkv")));
    assert_eq!(served_extension("M\u{212A}V"), Some(String::from("mkv")));
    assert_eq!(served_extension(""), None);
    assert_eq!(served_extension("mp3"), None);
    assert_eq!(served_extension("MP"), None);
    assert_eq!(served_extension("mp4 "), None);
    assert_eq!(served_extension("m\u{e9}v"), None);
    assert_eq!(served_extension("av\u{130}"), None);
}

#[test]
fn folding_ascii_letters() {
    assert!(folds_to("MKV", "mkv"));
    assert!(folds_to("mKv", "mkv"));
    assert!(folds_to("mkv", "mkv"));
    assert!(folds_to("", ""));
    assert!(folds_to("A-Z_09@[`{", "a-z_09@[`{"));
    assert!(!folds_to("mkv", "MKV"));
    assert!(!folds_to("mkv", "mk"));
    assert!(!folds_to("mk", "mkv"));
    assert!(!folds_to("m\u{212A}v", "mkv"));
    assert!(folds_to("\u{c9}T\u{c9}", "\u{c9}t\u{c9}"));
}

#[test]
fn assets_can_be_copied() {
    let assets = scan_names("/videos", vec![file("a.mp4")]);
    let copy = assets[0].clone();
    assert_eq!(copy.file_path, assets[0].file_path);
    assert_eq!(copy.stream_id, assets[0].stream_id);
    assert_eq!(copy.extension, assets[0].extension);
}
