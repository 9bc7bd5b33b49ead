//! Deciding how each source is served, and keeping the table of what is
//! mounted where.

use crate::config::{ConfigView, MobiusConfig};
use crate::scanner::{views, SourceAsset, SourceAssetView};
use crate::segmenter::{segment_pattern, segment_pattern_spec, SegmentSet, SegmentSetView};
use vstd::prelude::*;
use vstd::string::*;

verus! {

/// One stream as the server is to mount it.
#[derive(Clone, Debug)]
pub struct MountEntry {
    /// The path under which the stream is reached.
    pub mount_path: String,
    /// The description of the pipeline that serves it.
    pub pipeline_spec: String,
    /// Whether all clients attach to one running pipeline.
    pub shared: bool,
}

pub struct MountEntryView {
    pub mount_path: Seq<char>,
    pub pipeline_spec: Seq<char>,
    pub shared: bool,
}

impl View for MountEntry {
    type V = MountEntryView;

    open spec fn view(&self) -> MountEntryView {
        MountEntryView {
            mount_path: self.mount_path@,
            pipeline_spec: self.pipeline_spec@,
            shared: self.shared,
        }
    }
}

/// The path of the stream `stream_id` under `prefix`: a `/`, the prefix, a
/// `/`, and the stream's name as it stands.
pub open spec fn mount_path_spec(prefix: Seq<char>, stream_id: Seq<char>) -> Seq<char> {
    seq!['/'] + prefix + seq!['/'] + stream_id
}

/// The description of the pipeline that serves the file at `file_path` by
/// decoding it and encoding it anew for each run.
pub open spec fn direct_pipeline_spec(file_path: Seq<char>) -> Seq<char> {
    "filesrc location="@ + file_path
        + " ! decodebin ! videoconvert ! video/x-raw,format=I420 ! x264enc speed-preset=ultrafast tune=zerolatency ! rtph264pay name=pay0 pt=96"@
}

/// The description of the pipeline that serves the segments in `directory`
/// in order and over again without end, repacking them without encoding.
pub open spec fn loop_pipeline_spec(directory: Seq<char>) -> Seq<char> {
    "multifilesrc loop=true location="@ + segment_pattern_spec(directory)
        + " ! tsparse set-timestamps=true ! tsdemux ! h264parse ! rtph264pay name=pay0 pt=96"@
}

/// Whether a source is served from its segments: looping is switched on and
/// there is a segment set.
pub open spec fn serves_segments(segment_set: Option<SegmentSetView>, config: ConfigView) -> bool {
    config.infinite && segment_set is Some
}

/// The mount entry of `asset`.
pub open spec fn plan_spec(
    asset: SourceAssetView,
    segment_set: Option<SegmentSetView>,
    config: ConfigView,
) -> MountEntryView {
    MountEntryView {
        mount_path: mount_path_spec(config.prefix, asset.stream_id),
        pipeline_spec: if serves_segments(segment_set, config) {
            loop_pipeline_spec(segment_set->0.directory)
        } else {
            direct_pipeline_spec(asset.file_path)
        },
        shared: config.shared,
    }
}

/// The view of a segment set that may be absent.
pub open spec fn segment_set_view(segment_set: Option<&SegmentSet>) -> Option<SegmentSetView> {
    match segment_set {
        Some(set) => Some(set@),
        None => None,
    }
}

/// Whether `part` stands in `text` at the position `at`.
pub open spec fn occurs_at(text: Seq<char>, part: Seq<char>, at: int) -> bool {
    &&& 0 <= at
    &&& at + part.len() <= text.len()
    &&& text.subrange(at, at + part.len()) == part
}

/// Builds the path under which the stream `stream_id` is mounted.
pub fn mount_path(prefix: &str, stream_id: &str) -> (r: String)
    ensures
        r@ == mount_path_spec(prefix@, stream_id@),
{
    proof {
        reveal_strlit("/");
    }
    let mut out = String::from_str("/");
    assert(out@ =~= seq!['/']);
    out.append(prefix);
    out.append("/");
    assert(out@ =~= seq!['/'] + prefix@ + seq!['/']);
    out.append(stream_id);
    out
}

/// Describes the pipeline that transcodes the file at `file_path` on
/// demand.
pub fn direct_pipeline(file_path: &str) -> (r: String)
    ensures
        r@ == direct_pipeline_spec(file_path@),
{
    let mut out = String::from_str("filesrc location=");
    out.append(file_path);
    out.append(
        " ! decodebin ! videoconvert ! video/x-raw,format=I420 ! x264enc speed-preset=ultrafast tune=zerolatency ! rtph264pay name=pay0 pt=96",
    );
    out
}

/// Describes the pipeline that loops over the segments in `directory`.
pub fn loop_pipeline(directory: &str) -> (r: String)
    ensures
        r@ == loop_pipeline_spec(directory@),
{
    let pattern = segment_pattern(directory);
    let mut out = String::from_str("multifilesrc loop=true location=");
    out.append(pattern.as_str());
    out.append(
        " ! tsparse set-timestamps=true ! tsdemux ! h264parse ! rtph264pay name=pay0 pt=96",
    );
    out
}

/// Plans the mount of `asset`. The stream is served from `segment_set`
/// where looping is switched on and a set is given, and transcoded from the
/// source on demand otherwise.
pub fn plan(asset: &SourceAsset, segment_set: Option<&SegmentSet>, config: &MobiusConfig) -> (r:
    MountEntry)
    ensures
        r@ == plan_spec(asset@, segment_set_view(segment_set), config@),
{
    let path = mount_path(config.prefix.as_str(), asset.stream_id.as_str());
    let pipeline = match segment_set {
        Some(set) => {
            if config.infinite {
                loop_pipeline(set.directory.as_str())
            } else {
                direct_pipeline(asset.file_path.as_str())
            }
        },
        None => direct_pipeline(asset.file_path.as_str()),
    };
    MountEntry { mount_path: path, pipeline_spec: pipeline, shared: config.shared }
}

/// With looping switched off the plan is the same whatever segment set is
/// given, or none: the pipeline transcodes the source, whose path stands in
/// the description right after `filesrc location=`.
pub proof fn lemma_direct_plan_ignores_segments(
    asset: SourceAssetView,
    one: Option<SegmentSetView>,
    other: Option<SegmentSetView>,
    config: ConfigView,
)
    requires
        !config.infinite,
    ensures
        plan_spec(asset, one, config) == plan_spec(asset, other, config),
        plan_spec(asset, one, config).pipeline_spec == direct_pipeline_spec(asset.file_path),
        occurs_at(
            plan_spec(asset, one, config).pipeline_spec,
            asset.file_path,
            "filesrc location="@.len() as int,
        ),
{
    let head = "filesrc location="@;
    let text = direct_pipeline_spec(asset.file_path);
    assert(text.subrange(head.len() as int, (head.len() + asset.file_path.len()) as int)
        =~= asset.file_path);
}

/// With looping switched on and a segment set given, the pipeline is the
/// same whatever the path of the source: it reads the segments, whose name
/// pattern stands in the description right after
/// `multifilesrc loop=true location=`.
pub proof fn lemma_looped_plan_reads_segments(
    asset: SourceAssetView,
    file_path: Seq<char>,
    set: SegmentSetView,
    config: ConfigView,
)
    requires
        config.infinite,
    ensures
        plan_spec(asset, Some(set), config) == plan_spec(
            SourceAssetView { file_path, ..asset },
            Some(set),
            config,
        ),
        plan_spec(asset, Some(set), config).pipeline_spec == loop_pipeline_spec(set.directory),
        occurs_at(
            plan_spec(asset, Some(set), config).pipeline_spec,
            segment_pattern_spec(set.directory),
            "multifilesrc loop=true location="@.len() as int,
        ),
{
    let head = "multifilesrc loop=true location="@;
    let pattern = segment_pattern_spec(set.directory);
    let text = loop_pipeline_spec(set.directory);
    assert(text.subrange(head.len() as int, (head.len() + pattern.len()) as int) =~= pattern);
}

/// The position of the last entry of `entries` that is mounted at `path`,
/// or -1 where there is none.
pub open spec fn position(entries: Seq<MountEntryView>, path: Seq<char>) -> int
    decreases entries.len(),
{
    if entries.len() == 0 {
        -1
    } else if entries.last().mount_path == path {
        entries.len() - 1
    } else {
        position(entries.drop_last(), path)
    }
}

/// The entry mounted at `path`, if any.
pub open spec fn lookup_spec(entries: Seq<MountEntryView>, path: Seq<char>) -> Option<
    MountEntryView,
> {
    if position(entries, path) >= 0 {
        Some(entries[position(entries, path)])
    } else {
        None
    }
}

/// The table after `entry` is registered: it takes the place of the entry at
/// the same path, and comes last where the path is new.
pub open spec fn register_spec(entries: Seq<MountEntryView>, entry: MountEntryView) -> Seq<
    MountEntryView,
> {
    if position(entries, entry.mount_path) >= 0 {
        entries.update(position(entries, entry.mount_path), entry)
    } else {
        entries.push(entry)
    }
}

/// No two entries share a mount path.
pub open spec fn distinct_paths(entries: Seq<MountEntryView>) -> bool {
    forall|i: int, j: int|
        0 <= i < j < entries.len() ==> (#[trigger] entries[i]).mount_path != (
        #[trigger] entries[j]).mount_path
}

/// What `position` finds is an entry at the path, and none follows it.
pub proof fn lemma_position(entries: Seq<MountEntryView>, path: Seq<char>)
    ensures
        -1 <= position(entries, path) < entries.len(),
        position(entries, path) >= 0 ==> entries[position(entries, path)].mount_path == path,
        forall|i: int|
            position(entries, path) < i < entries.len() ==> (#[trigger] entries[i]).mount_path
                != path,
    decreases entries.len(),
{
    if entries.len() > 0 && entries.last().mount_path != path {
        let front = entries.drop_last();
        lemma_position(front, path);
        assert forall|i: int| position(entries, path) < i < entries.len() implies (
        #[trigger] entries[i]).mount_path != path by {
            if i < front.len() {
                assert(front[i].mount_path != path);
            }
        }
    }
}

/// Where no two entries share a path, an entry is found at its own
/// position.
pub proof fn lemma_position_unique(entries: Seq<MountEntryView>, i: int)
    requires
        distinct_paths(entries),
        0 <= i < entries.len(),
    ensures
        position(entries, entries[i].mount_path) == i,
{
    lemma_position(entries, entries[i].mount_path);
    let found = position(entries, entries[i].mount_path);
    if found < i {
        assert(entries[i].mount_path != entries[i].mount_path);
    } else if found > i {
        assert(entries[i].mount_path != entries[found].mount_path);
    }
}

/// Registering keeps the paths distinct. The entry registered last is the
/// one found at its path, every other path leads where it led before, and
/// the table grows by one entry exactly when the path is new.
pub proof fn lemma_register(entries: Seq<MountEntryView>, entry: MountEntryView)
    requires
        distinct_paths(entries),
    ensures
        distinct_paths(register_spec(entries, entry)),
        lookup_spec(register_spec(entries, entry), entry.mount_path) == Some(entry),
        forall|path: Seq<char>|
            path != entry.mount_path ==> #[trigger] lookup_spec(
                register_spec(entries, entry),
                path,
            ) == lookup_spec(entries, path),
        register_spec(entries, entry).len() == entries.len() + (if lookup_spec(
            entries,
            entry.mount_path,
        ) is Some {
            0int
        } else {
            1int
        }),
{
    let after = register_spec(entries, entry);
    let at = position(entries, entry.mount_path);
    lemma_position(entries, entry.mount_path);
    assert(distinct_paths(after)) by {
        assert forall|i: int, j: int| 0 <= i < j < after.len() implies (
        #[trigger] after[i]).mount_path != (#[trigger] after[j]).mount_path by {
            if at >= 0 {
                if i != at && j != at {
                    assert(entries[i].mount_path != entries[j].mount_path);
                } else if i == at {
                    assert(entries[at].mount_path != entries[j].mount_path);
                } else {
                    assert(entries[i].mount_path != entries[at].mount_path);
                }
            } else {
                if j < entries.len() {
                    assert(entries[i].mount_path != entries[j].mount_path);
                } else {
                    assert(entries[i].mount_path != entry.mount_path);
                }
            }
        }
    }
    let own = if at >= 0 {
        at
    } else {
        entries.len() as int
    };
    assert(after[own] == entry);
    lemma_position_unique(after, own);
    assert forall|path: Seq<char>| path != entry.mount_path implies #[trigger] lookup_spec(
        after,
        path,
    ) == lookup_spec(entries, path) by {
        lemma_position(entries, path);
        lemma_position(after, path);
        let before = position(entries, path);
        let now = position(after, path);
        if before >= 0 {
            assert(after[before] == entries[before]);
            lemma_position_unique(after, before);
        } else if now >= 0 {
            if now < entries.len() {
                assert(entries[now].mount_path == path);
            }
        }
    }
}

/// A source together with its segments, where it has any.
pub struct SourceView {
    pub asset: SourceAssetView,
    pub segment_set: Option<SegmentSetView>,
}

/// The view of a source and its segments.
pub open spec fn source_view(source: (SourceAsset, Option<SegmentSet>)) -> SourceView {
    SourceView {
        asset: source.0@,
        segment_set: match source.1 {
            Some(set) => Some(set@),
            None => None,
        },
    }
}

/// The views of `sources`, in order.
pub open spec fn source_views(sources: Seq<(SourceAsset, Option<SegmentSet>)>) -> Seq<SourceView> {
    sources.map_values(|source: (SourceAsset, Option<SegmentSet>)| source_view(source))
}

/// The table that results when the sources are planned and registered one
/// after the other, in order.
pub open spec fn mount_all_spec(sources: Seq<SourceView>, config: ConfigView) -> Seq<
    MountEntryView,
>
    decreases sources.len(),
{
    if sources.len() == 0 {
        Seq::empty()
    } else {
        register_spec(
            mount_all_spec(sources.drop_last(), config),
            plan_spec(sources.last().asset, sources.last().segment_set, config),
        )
    }
}

/// Of sources that share a mount path the one planned last is served: the
/// entry found at the path of the last source is the plan of that source.
/// No two entries of the table share a path, and the table holds at most
/// one entry for each source.
pub proof fn lemma_last_source_wins(sources: Seq<SourceView>, config: ConfigView)
    ensures
        distinct_paths(mount_all_spec(sources, config)),
        mount_all_spec(sources, config).len() <= sources.len(),
        sources.len() > 0 ==> lookup_spec(
            mount_all_spec(sources, config),
            mount_path_spec(config.prefix, sources.last().asset.stream_id),
        ) == Some(plan_spec(sources.last().asset, sources.last().segment_set, config)),
    decreases sources.len(),
{
    if sources.len() > 0 {
        lemma_last_source_wins(sources.drop_last(), config);
        lemma_register(
            mount_all_spec(sources.drop_last(), config),
            plan_spec(sources.last().asset, sources.last().segment_set, config),
        );
    }
}

/// Streams of different names are mounted at different paths.
pub proof fn lemma_mount_path_injective(prefix: Seq<char>, one: Seq<char>, other: Seq<char>)
    requires
        mount_path_spec(prefix, one) == mount_path_spec(prefix, other),
    ensures
        one == other,
{
    let a = mount_path_spec(prefix, one);
    let b = mount_path_spec(prefix, other);
    let head = prefix.len() + 2;
    assert(a.len() == head + one.len());
    assert(b.len() == head + other.len());
    assert(a.subrange(head as int, a.len() as int) =~= one);
    assert(b.subrange(head as int, b.len() as int) =~= other);
}

/// The streams that are mounted, each under a path of its own. Of two
/// entries registered for one path the later one stays.
#[derive(Debug)]
pub struct MountTable {
    entries: Vec<MountEntry>,
}

impl View for MountTable {
    type V = Seq<MountEntryView>;

    closed spec fn view(&self) -> Seq<MountEntryView> {
        views(self.entries@)
    }
}

impl MountTable {
    #[verifier::type_invariant]
    spec fn paths_are_distinct(self) -> bool {
        distinct_paths(views(self.entries@))
    }

    /// A table in which nothing is mounted.
    pub fn new() -> (r: MountTable)
        ensures
            r@ == Seq::<MountEntryView>::empty(),
    {
        let entries: Vec<MountEntry> = Vec::new();
        assert(views(entries@) =~= Seq::<MountEntryView>::empty());
        MountTable { entries }
    }

    /// The number of mounted streams.
    pub fn len(&self) -> (r: usize)
        ensures
            r == self@.len(),
            distinct_paths(self@),
    {
        proof {
            use_type_invariant(self);
        }
        self.entries.len()
    }

    /// The mounted streams, in the order in which their paths were first
    /// registered.
    pub fn entries(&self) -> (r: &Vec<MountEntry>)
        ensures
            views(r@) == self@,
            distinct_paths(self@),
    {
        proof {
            use_type_invariant(self);
        }
        &self.entries
    }

    fn find(&self, path: &str) -> (r: Option<usize>)
        ensures
            match r {
                Some(i) => position(self@, path@) == i as int && i < self.entries@.len(),
                None => position(self@, path@) == -1,
            },
    {
        let given = String::from_str(path);
        let n: usize = self.entries.len();
        let mut i: usize = n;
        assert(self@.take(n as int) =~= self@);
        while i > 0
            invariant
                i <= n,
                n == self.entries@.len(),
                self@ == views(self.entries@),
                given@ == path@,
                position(self@, path@) == position(self@.take(i as int), path@),
            decreases i,
        {
            assert(self@.take(i as int).drop_last() =~= self@.take(i - 1));
            assert(self@.take(i as int).last() == self.entries@[i - 1]@);
            if self.entries[i - 1].mount_path == given {
                return Some(i - 1);
            }
            i = i - 1;
        }
        None
    }

    /// The entry mounted at `path`, if any.
    pub fn get(&self, path: &str) -> (r: Option<&MountEntry>)
        ensures
            match r {
                Some(entry) => lookup_spec(self@, path@) == Some(entry@),
                None => lookup_spec(self@, path@) is None,
            },
    {
        match self.find(path) {
            Some(i) => Some(&self.entries[i]),
            None => None,
        }
    }

    /// Mounts `entry`. An entry already mounted at the same path gives way
    /// to it.
    pub fn register(&mut self, entry: MountEntry)
        ensures
            final(self)@ == register_spec(old(self)@, entry@),
            distinct_paths(final(self)@),
    {
        proof {
            use_type_invariant(&*self);
            lemma_register(self@, entry@);
        }
        let ghost before = self@;
        let found = self.find(entry.mount_path.as_str());
        let mut entries: Vec<MountEntry> = Vec::new();
        assert(views(entries@) =~= Seq::<MountEntryView>::empty());
        core::mem::swap(&mut self.entries, &mut entries);
        match found {
            Some(i) => {
                entries.set(i, entry);
                assert(views(entries@) =~= before.update(i as int, entry@));
            },
            None => {
                entries.push(entry);
                assert(views(entries@) =~= before.push(entry@));
            },
        }
        core::mem::swap(&mut self.entries, &mut entries);
    }
}

/// Plans every source and registers the plans in order. Where two sources
/// have the same stream name, the later one takes the mount path.
pub fn mount_all(sources: &Vec<(SourceAsset, Option<SegmentSet>)>, config: &MobiusConfig) -> (r:
    MountTable)
    ensures
        r@ == mount_all_spec(source_views(sources@), config@),
        distinct_paths(r@),
{
    let mut table = MountTable::new();
    let mut i: usize = 0;
    assert(source_views(sources@).take(0) =~= Seq::<SourceView>::empty());
    while i < sources.len()
        invariant
            i <= sources.len(),
            table@ == mount_all_spec(source_views(sources@).take(i as int), config@),
        decreases sources.len() - i,
    {
        let ghost seen = source_views(sources@).take(i + 1);
        assert(seen.drop_last() =~= source_views(sources@).take(i as int));
        assert(seen.last() == source_view(sources@[i as int]));
        let source = &sources[i];
        let entry = match &source.1 {
            Some(set) => plan(&source.0, Some(set), config),
            None => plan(&source.0, None, config),
        };
        table.register(entry);
        i = i + 1;
    }
    assert(source_views(sources@).take(i as int) =~= source_views(sources@));
    proof {
        use_type_invariant(&table);
    }
    table
}

} // verus!
