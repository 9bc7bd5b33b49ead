use mobius_rtsp::bootstrap::{startup, Startup};
use mobius_rtsp::config::{MobiusConfig, Overrides};
use mobius_rtsp::planner::{mount_all, plan};
use mobius_rtsp::scanner::{scan, DirEntry, Listing, SourceAsset};
use mobius_rtsp::segmenter::{
    segment_name, PipelineEvent, SegmentSet, SliceAction, SliceError, Supervisor,
};

fn file(name: &str) -> DirEntry {
    DirEntry { file_name: String::from(name), is_file: true }
}

fn config(looping: bool) -> MobiusConfig {
    let mut overrides = Overrides::new();
    overrides.infinite = Some(looping);
    match MobiusConfig::new(overrides) {
        Ok(config) => config,
        Err(error) => panic!("refused: {}", error.message()),
    }
}

/// Runs a supervision against a pipeline that is only written down: the
/// directory holds `entries` entries, and the pipeline sends `messages`.
fn supervise(
    asset: &SourceAsset,
    entries: usize,
    messages: Vec<PipelineEvent>,
) -> (Vec<String>, Option<Result<SegmentSet, SliceError>>) {
    let mut log = Vec::new();
    let mut messages = messages.into_iter();
    let mut supervisor = Supervisor::new(asset, "./segments");
    let mut action = supervisor.begin();
    loop {
        let event = match action {
            SliceAction::PrepareDirectory { directory } => {
                log.push(format!("prepare {}", directory));
                PipelineEvent::DirectoryReady { entries }
            }
            SliceAction::Launch { pipeline } => {
                assert!(pipeline.starts_with("filesrc location="));
                log.push(String::from("launch"));
                PipelineEvent::Started
            }
            SliceAction::Wait => match messages.next() {
                Some(message) => message,
                None => {
                    log.push(String::from("stalled"));
                    break;
                }
            },
            SliceAction::Release => {
                log.push(String::from("release"));
                break;
            }
            SliceAction::Finish => {
                log.push(String::from("finish"));
                break;
            }
        };
        action = supervisor.step(event);
    }
    (log, supervisor.outcome())
}

fn demo() -> SourceAsset {
    SourceAsset {
        file_path: String::from("./videos/demo.mp4"),
        stream_id: String::from("demo"),
        extension: String::from("mp4"),
    }
}

#[test]
fn missing_directory_is_created_and_nothing_served() {
    let scanned = scan("./videos", &Listing::Missing);
    assert_eq!(startup(&scanned), Startup::CreateDirectory);
}

#[test]
fn empty_directory_is_reported_and_nothing_served() {
    let scanned = scan("./videos", &Listing::Entries(Vec::new()));
    assert_eq!(startup(&scanned), Startup::NothingFound);
    let unsupported = scan("./videos", &Listing::Entries(vec![file("notes.txt")]));
    assert_eq!(startup(&unsupported), Startup::NothingFound);
}

#[test]
fn directory_with_a_video_is_served() {
    let scanned = scan("./videos", &Listing::Entries(vec![file("notes.txt"), file("a.mp4")]));
    assert_eq!(startup(&scanned), Startup::Serve);
}

#[test]
fn supervised_run_over_an_empty_directory() {
    let (log, outcome) = supervise(
        &demo(),
        0,
        vec![PipelineEvent::Other, PipelineEvent::Other, PipelineEvent::EndOfStream],
    );
    assert_eq!(log, vec!["prepare ./segments/demo", "launch", "release"]);
    match outcome {
        Some(Ok(set)) => {
            assert_eq!(set.stream_id, "demo");
            assert_eq!(set.directory, "./segments/demo");
        }
        other => panic!("unexpected outcome: {:?}", other),
    }
}

#[test]
fn supervised_run_over_a_populated_directory() {
    let (log, outcome) = supervise(&demo(), 7, vec![PipelineEvent::EndOfStream]);
    assert_eq!(log, vec!["prepare ./segments/demo", "finish"]);
    match outcome {
        Some(Ok(set)) => assert_eq!(set.directory, "./segments/demo"),
        other => panic!("unexpected outcome: {:?}", other),
    }
}

#[test]
fn supervised_run_that_fails() {
    let (log, outcome) = supervise(
        &demo(),
        0,
        vec![
            PipelineEvent::Other,
            PipelineEvent::Error {
                message: String::from("stream error"),
                debug_info: String::from("qtdemux0"),
            },
            PipelineEvent::EndOfStream,
        ],
    );
    assert_eq!(log, vec!["prepare ./segments/demo", "launch", "release"]);
    match outcome {
        Some(Err(error)) => {
            assert_eq!(error.message, "stream error");
            assert_eq!(error.debug_info, "qtdemux0");
        }
        other => panic!("unexpected outcome: {:?}", other),
    }
}

#[test]
fn supervised_run_cut_short_has_no_outcome() {
    let (log, outcome) = supervise(&demo(), 0, vec![PipelineEvent::Other]);
    assert_eq!(log, vec!["prepare ./segments/demo", "launch", "stalled"]);
    assert!(outcome.is_none());
}

#[test]
fn segment_names_by_index() {
    assert_eq!(segment_name(0), "segment000.ts");
    assert_eq!(segment_name(1), "segment001.ts");
    assert_eq!(segment_name(9), "segment009.ts");
    assert_eq!(segment_name(10), "segment010.ts");
    assert_eq!(segment_name(99), "segment099.ts");
    assert_eq!(segment_name(100), "segment100.ts");
    assert_eq!(segment_name(999), "segment999.ts");
    assert_eq!(segment_name(1000), "segment1000.ts");
    assert_eq!(segment_name(4294967295), "segment4294967295.ts");
}

#[test]
fn segment_paths_lie_in_the_directory() {
    let set = SegmentSet {
        stream_id: String::from("demo"),
        directory: String::from("./segments/demo"),
    };
    assert_eq!(set.segment_path(0), "./segments/demo/segment000.ts");
    assert_eq!(set.segment_path(12), "./segments/demo/segment012.ts");
}

#[test]
fn mounting_all_sources_in_order() {
    let assets = match scan(
        "./videos",
        &Listing::Entries(vec![file("one.mp4"), file("two.mkv"), file("three.txt")]),
    ) {
        Ok(assets) => assets,
        Err(error) => panic!("refused: {}", error.message()),
    };
    let config = config(true);
    let mut sources = Vec::new();
    for asset in assets {
        let segments = SegmentSet {
            stream_id: asset.stream_id.clone(),
            directory: format!("./segments/{}", asset.stream_id),
        };
        sources.push((asset, Some(segments)));
    }
    let table = mount_all(&sources, &config);
    assert_eq!(table.len(), 2);
    let paths: Vec<&str> = table.entries().iter().map(|e| e.mount_path.as_str()).collect();
    assert_eq!(paths, vec!["/mobius-stream/one", "/mobius-stream/two"]);
    for (entry, source) in table.entries().iter().zip(sources.iter()) {
        let planned = plan(&source.0, source.1.as_ref(), &config);
        assert_eq!(entry.pipeline_spec, planned.pipeline_spec);
        assert_eq!(entry.shared, planned.shared);
        assert!(entry.pipeline_spec.starts_with("multifilesrc loop=true location=./segments/"));
    }
}

#[test]
fn mounting_sources_with_the_same_name() {
    let assets = match scan("./videos", &Listing::Entries(vec![file("demo.mp4"), file("demo.mkv")]))
    {
        Ok(assets) => assets,
        Err(error) => panic!("refused: {}", error.message()),
    };
    let sources: Vec<(SourceAsset, Option<SegmentSet>)> =
        assets.into_iter().map(|asset| (asset, None)).collect();
    let table = mount_all(&sources, &config(false));
    assert_eq!(table.len(), 1);
    match table.get("/mobius-stream/demo") {
        Some(entry) => assert_eq!(
            entry.pipeline_spec,
            "filesrc location=./videos/demo.mkv ! decodebin ! videoconvert ! video/x-raw,format=I420 ! x264enc speed-preset=ultrafast tune=zerolatency ! rtph264pay name=pay0 pt=96"
        ),
        None => panic!("nothing mounted"),
    }
}

#[test]
fn mounting_nothing() {
    let sources: Vec<(SourceAsset, Option<SegmentSet>)> = Vec::new();
    let table = mount_all(&sources, &config(true));
    assert_eq!(table.len(), 0);
}
