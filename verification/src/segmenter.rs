//! Supervising the one-shot cutting of a source into segments.
//!
//! Cutting a source means work that this crate cannot do itself: a
//! directory is created and listed, a pipeline is started, and messages
//! arrive from it. The supervisor is therefore a state machine. The caller
//! performs the action it is handed and reports what happened as an event;
//! the supervisor decides what comes next.

use crate::scanner::{SourceAsset, SourceAssetView};
use crate::text::{join_path, join_path_spec};
use vstd::prelude::*;
use vstd::string::*;

verus! {

/// The segments of one source on disk. The files in `directory` are named
/// `segment000.ts`, `segment001.ts` and so on.
#[derive(Clone, Debug)]
pub struct SegmentSet {
    pub stream_id: String,
    pub directory: String,
}

pub struct SegmentSetView {
    pub stream_id: Seq<char>,
    pub directory: Seq<char>,
}

impl View for SegmentSet {
    type V = SegmentSetView;

    open spec fn view(&self) -> SegmentSetView {
        SegmentSetView { stream_id: self.stream_id@, directory: self.directory@ }
    }
}

/// What the pipeline reported when cutting a source failed.
#[derive(Clone, Debug)]
pub struct SliceError {
    pub message: String,
    pub debug_info: String,
}

pub struct SliceErrorView {
    pub message: Seq<char>,
    pub debug_info: Seq<char>,
}

impl View for SliceError {
    type V = SliceErrorView;

    open spec fn view(&self) -> SliceErrorView {
        SliceErrorView { message: self.message@, debug_info: self.debug_info@ }
    }
}

/// Where one supervision stands.
#[derive(Clone, Copy, Debug, PartialEq, Eq, Structural)]
pub enum SliceState {
    /// Nothing is known of the segment directory yet.
    Idle,
    /// The directory was empty and a pipeline was asked for.
    Created,
    /// The pipeline runs.
    Playing,
    /// The segments are there.
    Completed,
    /// The pipeline reported an error.
    Failed,
}

/// What the caller reports to the supervisor.
#[derive(Clone, Debug)]
pub enum PipelineEvent {
    /// The segment directory exists now, and holds this many entries.
    DirectoryReady { entries: usize },
    /// The pipeline was built and set to play.
    Started,
    /// The pipeline reached the end of the source.
    EndOfStream,
    /// The pipeline could not be built, or reported an error while running.
    Error { message: String, debug_info: String },
    /// Any other message of the pipeline.
    Other,
}

pub enum EventView {
    DirectoryReady { entries: nat },
    Started,
    EndOfStream,
    Error { message: Seq<char>, debug_info: Seq<char> },
    Other,
}

impl View for PipelineEvent {
    type V = EventView;

    open spec fn view(&self) -> EventView {
        match *self {
            PipelineEvent::DirectoryReady { entries } => EventView::DirectoryReady {
                entries: entries as nat,
            },
            PipelineEvent::Started => EventView::Started,
            PipelineEvent::EndOfStream => EventView::EndOfStream,
            PipelineEvent::Error { message, debug_info } => EventView::Error {
                message: message@,
                debug_info: debug_info@,
            },
            PipelineEvent::Other => EventView::Other,
        }
    }
}

/// What the supervisor asks of the caller.
#[derive(Clone, Debug)]
pub enum SliceAction {
    /// Create the directory if it is absent, then report `DirectoryReady`
    /// with the number of its entries.
    PrepareDirectory { directory: String },
    /// Build the pipeline of this description and set it to play, then
    /// report `Started`, or `Error` where it cannot be built.
    Launch { pipeline: String },
    /// Take the next message of the pipeline and report it.
    Wait,
    /// Stop the pipeline and give up what it holds, then ask for the
    /// outcome.
    Release,
    /// Nothing is left to do: ask for the outcome.
    Finish,
}

pub enum ActionView {
    PrepareDirectory { directory: Seq<char> },
    Launch { pipeline: Seq<char> },
    Wait,
    Release,
    Finish,
}

impl View for SliceAction {
    type V = ActionView;

    open spec fn view(&self) -> ActionView {
        match *self {
            SliceAction::PrepareDirectory { directory } => ActionView::PrepareDirectory {
                directory: directory@,
            },
            SliceAction::Launch { pipeline } => ActionView::Launch { pipeline: pipeline@ },
            SliceAction::Wait => ActionView::Wait,
            SliceAction::Release => ActionView::Release,
            SliceAction::Finish => ActionView::Finish,
        }
    }
}

/// The supervision of one source.
#[derive(Debug)]
pub struct Supervisor {
    state: SliceState,
    file_path: String,
    stream_id: String,
    directory: String,
    message: String,
    debug_info: String,
}

pub struct SupervisorView {
    pub state: SliceState,
    pub file_path: Seq<char>,
    pub stream_id: Seq<char>,
    pub directory: Seq<char>,
    /// What the pipeline reported, once the state is `Failed`.
    pub message: Seq<char>,
    pub debug_info: Seq<char>,
}

impl View for Supervisor {
    type V = SupervisorView;

    closed spec fn view(&self) -> SupervisorView {
        SupervisorView {
            state: self.state,
            file_path: self.file_path@,
            stream_id: self.stream_id@,
            directory: self.directory@,
            message: self.message@,
            debug_info: self.debug_info@,
        }
    }
}

/// The name pattern of the segment files in `directory`, with the place of
/// the index written as `%03d`: a decimal number padded with zeros to three
/// digits.
pub open spec fn segment_pattern_spec(directory: Seq<char>) -> Seq<char> {
    join_path_spec(directory, "segment%03d.ts"@)
}

/// The character of the decimal digit `d`.
pub open spec fn digit_char(d: nat) -> char {
    ((d + 48) as u8) as char
}

/// `n` written in decimal, without leading zeros.
pub open spec fn decimal_spec(n: nat) -> Seq<char>
    decreases n,
{
    if n < 10 {
        seq![digit_char(n)]
    } else {
        decimal_spec(n / 10).push(digit_char(n % 10))
    }
}

/// The number that a sequence of decimal digits stands for.
pub open spec fn decimal_value(digits: Seq<char>) -> nat
    decreases digits.len(),
{
    if digits.len() == 0 {
        0
    } else {
        decimal_value(digits.drop_last()) * 10 + ((digits.last() as nat - 48) as nat)
    }
}

/// `index` in decimal, filled up with zeros on the left to three digits.
pub open spec fn padded_index_spec(index: nat) -> Seq<char> {
    if index < 10 {
        seq!['0', '0'] + decimal_spec(index)
    } else if index < 100 {
        seq!['0'] + decimal_spec(index)
    } else {
        decimal_spec(index)
    }
}

/// The name of the segment file with the index `index`: `segment000.ts`,
/// `segment001.ts` and so on. This is what the pattern `segment%03d.ts`
/// stands for.
pub open spec fn segment_name_spec(index: nat) -> Seq<char> {
    seq!['s', 'e', 'g', 'm', 'e', 'n', 't'] + padded_index_spec(index) + seq!['.', 't', 's']
}

/// A number in decimal stands for that number.
pub proof fn lemma_decimal_value(n: nat)
    ensures
        decimal_value(decimal_spec(n)) == n,
        decimal_spec(n).len() >= 1,
        n < 10 ==> decimal_spec(n).len() == 1,
        10 <= n < 100 ==> decimal_spec(n).len() == 2,
        n >= 100 ==> decimal_spec(n).len() >= 3,
    decreases n,
{
    if n < 10 {
        let digits = decimal_spec(n);
        assert(digits.drop_last() =~= Seq::<char>::empty());
        assert(decimal_value(digits.drop_last()) == 0);
    } else {
        lemma_decimal_value(n / 10);
        let digits = decimal_spec(n);
        assert(digits.drop_last() =~= decimal_spec(n / 10));
        assert(digits.last() == digit_char(n % 10));
    }
}

/// Zeros on the left do not change the number that digits stand for.
pub proof fn lemma_leading_zeros(zeros: Seq<char>, digits: Seq<char>)
    requires
        forall|i: int| 0 <= i < zeros.len() ==> zeros[i] == '0',
    ensures
        decimal_value(zeros + digits) == decimal_value(digits),
    decreases digits.len(),
{
    if digits.len() == 0 {
        assert(zeros + digits =~= zeros);
        lemma_zeros_value(zeros);
    } else {
        assert((zeros + digits).drop_last() =~= zeros + digits.drop_last());
        assert((zeros + digits).last() == digits.last());
        lemma_leading_zeros(zeros, digits.drop_last());
    }
}

proof fn lemma_zeros_value(zeros: Seq<char>)
    requires
        forall|i: int| 0 <= i < zeros.len() ==> zeros[i] == '0',
    ensures
        decimal_value(zeros) == 0,
    decreases zeros.len(),
{
    if zeros.len() > 0 {
        lemma_zeros_value(zeros.drop_last());
    }
}

/// Segments with different indices have different names, so that no
/// segment is written over another.
pub proof fn lemma_segment_names_distinct(one: nat, other: nat)
    requires
        one != other,
    ensures
        segment_name_spec(one) != segment_name_spec(other),
{
    lemma_padded_value(one);
    lemma_padded_value(other);
    let a = segment_name_spec(one);
    let b = segment_name_spec(other);
    if a == b {
        let pa = padded_index_spec(one);
        let pb = padded_index_spec(other);
        assert(a.len() == pa.len() + 10);
        assert(b.len() == pb.len() + 10);
        assert(a.subrange(7, 7 + pa.len() as int) =~= pa);
        assert(b.subrange(7, 7 + pb.len() as int) =~= pb);
        assert(pa == pb);
    }
}

/// A padded index stands for the index.
pub proof fn lemma_padded_value(index: nat)
    ensures
        decimal_value(padded_index_spec(index)) == index,
        padded_index_spec(index).len() >= 3,
{
    lemma_decimal_value(index);
    if index < 10 {
        lemma_leading_zeros(seq!['0', '0'], decimal_spec(index));
    } else if index < 100 {
        lemma_leading_zeros(seq!['0'], decimal_spec(index));
    }
}

/// The description of the pipeline that cuts the file at `file_path` into
/// segments under `directory`. The source is decoded, brought to I420 at no
/// more than 1280x720 and 30 frames a second, encoded as H.264 at 2000
/// kbit/s, and written as transport-stream files of two seconds each.
pub open spec fn slice_pipeline_spec(file_path: Seq<char>, directory: Seq<char>) -> Seq<char> {
    "filesrc location="@ + file_path
        + " ! decodebin ! videoconvert ! videoscale ! videorate ! video/x-raw,format=I420,width=1280,height=720,framerate=30/1 ! x264enc bitrate=2000 speed-preset=ultrafast tune=zerolatency key-int-max=60 ! h264parse ! splitmuxsink muxer=mpegtsmux max-size-time=2000000000 location="@
        + segment_pattern_spec(directory)
}

/// The supervision of `asset` under `segments_root` before anything was
/// reported: the segment directory is named after the stream.
pub open spec fn initial(asset: SourceAssetView, segments_root: Seq<char>) -> SupervisorView {
    SupervisorView {
        state: SliceState::Idle,
        file_path: asset.file_path,
        stream_id: asset.stream_id,
        directory: join_path_spec(segments_root, asset.stream_id),
        message: Seq::empty(),
        debug_info: Seq::empty(),
    }
}

/// The supervision `s` turned to `state`.
pub open spec fn moved(s: SupervisorView, state: SliceState) -> SupervisorView {
    SupervisorView { state, ..s }
}

/// The supervision `s` failed with what the pipeline reported.
pub open spec fn failed(s: SupervisorView, message: Seq<char>, debug_info: Seq<char>) -> SupervisorView {
    SupervisorView { state: SliceState::Failed, message, debug_info, ..s }
}

/// One step of the supervision: the state after `event` and what the caller
/// is to do next.
///
/// A directory that holds anything counts as done, and no pipeline is asked
/// for. An empty one has a pipeline launched. While it runs, the end of the
/// stream completes the supervision and an error fails it; both release the
/// pipeline. An event that the state does not wait for changes nothing.
pub open spec fn step_spec(s: SupervisorView, event: EventView) -> (SupervisorView, ActionView) {
    match s.state {
        SliceState::Idle => match event {
            EventView::DirectoryReady { entries } => if entries > 0 {
                (moved(s, SliceState::Completed), ActionView::Finish)
            } else {
                (
                    moved(s, SliceState::Created),
                    ActionView::Launch { pipeline: slice_pipeline_spec(s.file_path, s.directory) },
                )
            },
            _ => (s, ActionView::Wait),
        },
        SliceState::Created => match event {
            EventView::Started => (moved(s, SliceState::Playing), ActionView::Wait),
            EventView::Error { message, debug_info } => (
                failed(s, message, debug_info),
                ActionView::Release,
            ),
            _ => (s, ActionView::Wait),
        },
        SliceState::Playing => match event {
            EventView::EndOfStream => (moved(s, SliceState::Completed), ActionView::Release),
            EventView::Error { message, debug_info } => (
                failed(s, message, debug_info),
                ActionView::Release,
            ),
            _ => (s, ActionView::Wait),
        },
        SliceState::Completed => (s, ActionView::Finish),
        SliceState::Failed => (s, ActionView::Finish),
    }
}

/// What a supervision has come to: nothing while it is under way, the
/// segment set once it is completed, the pipeline's report once it failed.
pub open spec fn outcome_spec(s: SupervisorView) -> Option<Result<SegmentSetView, SliceErrorView>> {
    match s.state {
        SliceState::Completed => Some(
            Ok(SegmentSetView { stream_id: s.stream_id, directory: s.directory }),
        ),
        SliceState::Failed => Some(
            Err(SliceErrorView { message: s.message, debug_info: s.debug_info }),
        ),
        _ => None,
    }
}

/// Whether a supervision has ended in `state`.
pub open spec fn is_terminal(state: SliceState) -> bool {
    state is Completed || state is Failed
}

/// The segment set that the supervision of `asset` under `segments_root`
/// yields when it completes.
pub open spec fn segment_set_spec(asset: SourceAssetView, segments_root: Seq<char>) -> SegmentSetView {
    SegmentSetView {
        stream_id: asset.stream_id,
        directory: join_path_spec(segments_root, asset.stream_id),
    }
}

/// The supervision `s` after the events `events`, taken in order.
pub open spec fn run_spec(s: SupervisorView, events: Seq<EventView>) -> SupervisorView
    decreases events.len(),
{
    if events.len() == 0 {
        s
    } else {
        step_spec(run_spec(s, events.drop_last()), events.last()).0
    }
}

/// The actions that the supervision `s` hands out for `events`, one for
/// each event.
pub open spec fn actions_spec(s: SupervisorView, events: Seq<EventView>) -> Seq<ActionView>
    decreases events.len(),
{
    if events.len() == 0 {
        Seq::empty()
    } else {
        actions_spec(s, events.drop_last()).push(
            step_spec(run_spec(s, events.drop_last()), events.last()).1,
        )
    }
}

/// How many of `actions` launch a pipeline.
pub open spec fn launches(actions: Seq<ActionView>) -> nat
    decreases actions.len(),
{
    if actions.len() == 0 {
        0
    } else if actions.last() is Launch {
        launches(actions.drop_last()) + 1
    } else {
        launches(actions.drop_last())
    }
}

/// How many of `actions` release a pipeline.
pub open spec fn releases(actions: Seq<ActionView>) -> nat
    decreases actions.len(),
{
    if actions.len() == 0 {
        0
    } else if actions.last() is Release {
        releases(actions.drop_last()) + 1
    } else {
        releases(actions.drop_last())
    }
}

/// Launches and releases are counted part by part.
pub proof fn lemma_counts_add(front: Seq<ActionView>, back: Seq<ActionView>)
    ensures
        launches(front + back) == launches(front) + launches(back),
        releases(front + back) == releases(front) + releases(back),
    decreases back.len(),
{
    if back.len() == 0 {
        assert(front + back =~= front);
    } else {
        assert((front + back).drop_last() =~= front + back.drop_last());
        assert((front + back).last() == back.last());
        lemma_counts_add(front, back.drop_last());
    }
}

/// Events may be fed in two parts: the second part meets the supervision
/// that the first has left.
pub proof fn lemma_run_split(s: SupervisorView, first: Seq<EventView>, rest: Seq<EventView>)
    ensures
        run_spec(s, first + rest) == run_spec(run_spec(s, first), rest),
        actions_spec(s, first + rest) == actions_spec(s, first) + actions_spec(
            run_spec(s, first),
            rest,
        ),
    decreases rest.len(),
{
    if rest.len() == 0 {
        assert(first + rest =~= first);
        assert(actions_spec(s, first) + Seq::<ActionView>::empty() =~= actions_spec(s, first));
    } else {
        assert((first + rest).drop_last() =~= first + rest.drop_last());
        assert((first + rest).last() == rest.last());
        lemma_run_split(s, first, rest.drop_last());
        let mid = run_spec(s, first);
        assert(actions_spec(s, first + rest) =~= actions_spec(s, first) + actions_spec(
            mid,
            rest,
        ));
    }
}

/// A supervision that has ended stays as it is: whatever is reported to it,
/// it launches and releases nothing more.
pub proof fn lemma_terminal_stays(s: SupervisorView, events: Seq<EventView>)
    requires
        is_terminal(s.state),
    ensures
        run_spec(s, events) == s,
        launches(actions_spec(s, events)) == 0,
        releases(actions_spec(s, events)) == 0,
    decreases events.len(),
{
    if events.len() > 0 {
        lemma_terminal_stays(s, events.drop_last());
        assert(actions_spec(s, events).drop_last() =~= actions_spec(s, events.drop_last()));
    }
}

/// Whatever is reported to a supervision that starts idle, and in whatever
/// order: it hands out one action for each event, never launches a second
/// pipeline, releases only a pipeline that it launched, and has released it
/// once it has ended; the source and the directory stay the same.
pub proof fn lemma_supervision(start: SupervisorView, events: Seq<EventView>)
    requires
        start.state is Idle,
    ensures
        ({
            let end = run_spec(start, events);
            let actions = actions_spec(start, events);
            &&& actions.len() == events.len()
            &&& end.file_path == start.file_path
            &&& end.stream_id == start.stream_id
            &&& end.directory == start.directory
            &&& launches(actions) <= 1
            &&& releases(actions) <= launches(actions)
            &&& end.state is Idle ==> launches(actions) == 0
            &&& (end.state is Created || end.state is Playing) ==> launches(actions) == 1
                && releases(actions) == 0
            &&& end.state is Failed ==> launches(actions) == 1 && releases(actions) == 1
            &&& end.state is Completed ==> releases(actions) == launches(actions)
        }),
    decreases events.len(),
{
    if events.len() > 0 {
        lemma_supervision(start, events.drop_last());
        assert(actions_spec(start, events).drop_last() =~= actions_spec(
            start,
            events.drop_last(),
        ));
    }
}

/// A supervision that finds its segment directory populated is done at
/// once: it never launches a pipeline, whatever is reported afterwards, and
/// its outcome is the segment set that a completed cutting of the same
/// source yields.
pub proof fn lemma_populated_directory_skips_pipeline(
    asset: SourceAssetView,
    segments_root: Seq<char>,
    entries: nat,
    later: Seq<EventView>,
)
    requires
        entries > 0,
    ensures
        ({
            let events = seq![EventView::DirectoryReady { entries }] + later;
            let start = initial(asset, segments_root);
            &&& launches(actions_spec(start, events)) == 0
            &&& releases(actions_spec(start, events)) == 0
            &&& actions_spec(start, events)[0] == ActionView::Finish
            &&& outcome_spec(run_spec(start, events)) == Some(
                Ok::<SegmentSetView, SliceErrorView>(segment_set_spec(asset, segments_root)),
            )
        }),
{
    let first = seq![EventView::DirectoryReady { entries }];
    let start = initial(asset, segments_root);
    lemma_first_step(start, first[0]);
    let done = run_spec(start, first);
    lemma_run_split(start, first, later);
    lemma_terminal_stays(done, later);
    lemma_counts_add(actions_spec(start, first), actions_spec(done, later));
    lemma_launch_count_one(actions_spec(start, first));
}

/// A supervision that finds its segment directory empty launches exactly
/// one pipeline, the one that cuts its source into its directory. It has an
/// outcome only once it has ended, and by then it has released that
/// pipeline exactly once.
pub proof fn lemma_empty_directory_runs_once(
    asset: SourceAssetView,
    segments_root: Seq<char>,
    later: Seq<EventView>,
)
    ensures
        ({
            let events = seq![EventView::DirectoryReady { entries: 0 }] + later;
            let start = initial(asset, segments_root);
            let end = run_spec(start, events);
            let actions = actions_spec(start, events);
            &&& launches(actions) == 1
            &&& actions[0] == ActionView::Launch {
                pipeline: slice_pipeline_spec(start.file_path, start.directory),
            }
            &&& outcome_spec(end) is Some <==> is_terminal(end.state)
            &&& is_terminal(end.state) ==> releases(actions) == 1
            &&& !is_terminal(end.state) ==> releases(actions) == 0
            &&& end.state is Completed ==> outcome_spec(end) == Some(
                Ok::<SegmentSetView, SliceErrorView>(segment_set_spec(asset, segments_root)),
            )
        }),
{
    let first = seq![EventView::DirectoryReady { entries: 0 }];
    let start = initial(asset, segments_root);
    let events = first + later;
    lemma_first_step(start, first[0]);
    let created = run_spec(start, first);
    lemma_run_split(start, first, later);
    lemma_counts_add(actions_spec(start, first), actions_spec(created, later));
    lemma_launch_count_one(actions_spec(start, first));
    lemma_supervision(start, events);
}

/// A single event is one step.
proof fn lemma_first_step(s: SupervisorView, event: EventView)
    ensures
        run_spec(s, seq![event]) == step_spec(s, event).0,
        actions_spec(s, seq![event]) == seq![step_spec(s, event).1],
{
    let one = seq![event];
    assert(one.drop_last() =~= Seq::<EventView>::empty());
    assert(one.last() == event);
    assert(run_spec(s, one.drop_last()) == s);
    assert(actions_spec(s, one.drop_last()) =~= Seq::<ActionView>::empty());
    assert(actions_spec(s, one) =~= seq![step_spec(s, event).1]);
}

/// The counts of a single action.
proof fn lemma_launch_count_one(actions: Seq<ActionView>)
    requires
        actions.len() == 1,
    ensures
        launches(actions) == (if actions[0] is Launch { 1nat } else { 0nat }),
        releases(actions) == (if actions[0] is Release { 1nat } else { 0nat }),
{
    assert(actions.drop_last() =~= Seq::<ActionView>::empty());
    assert(launches(actions.drop_last()) == 0);
    assert(releases(actions.drop_last()) == 0);
}

/// The view of an outcome.
pub open spec fn outcome_view(outcome: Option<Result<SegmentSet, SliceError>>) -> Option<
    Result<SegmentSetView, SliceErrorView>,
> {
    match outcome {
        Some(Ok(set)) => Some(Ok(set@)),
        Some(Err(error)) => Some(Err(error@)),
        None => None,
    }
}

fn digit_text(d: u32) -> (r: &'static str)
    requires
        d < 10,
    ensures
        r@ == seq![digit_char(d as nat)],
{
    proof {
        reveal_strlit("0");
        reveal_strlit("1");
        reveal_strlit("2");
        reveal_strlit("3");
        reveal_strlit("4");
        reveal_strlit("5");
        reveal_strlit("6");
        reveal_strlit("7");
        reveal_strlit("8");
        reveal_strlit("9");
    }
    let r = if d == 0 {
        "0"
    } else if d == 1 {
        "1"
    } else if d == 2 {
        "2"
    } else if d == 3 {
        "3"
    } else if d == 4 {
        "4"
    } else if d == 5 {
        "5"
    } else if d == 6 {
        "6"
    } else if d == 7 {
        "7"
    } else if d == 8 {
        "8"
    } else {
        "9"
    };
    assert(r@ =~= seq![digit_char(d as nat)]);
    r
}

fn decimal(n: u32) -> (r: String)
    ensures
        r@ == decimal_spec(n as nat),
    decreases n,
{
    if n < 10 {
        String::from_str(digit_text(n))
    } else {
        let mut out = decimal(n / 10);
        out.append(digit_text(n % 10));
        assert(out@ =~= decimal_spec(n as nat));
        out
    }
}

/// Names the segment file with the index `index`.
pub fn segment_name(index: u32) -> (r: String)
    ensures
        r@ == segment_name_spec(index as nat),
{
    proof {
        reveal_strlit("segment");
        reveal_strlit("0");
        reveal_strlit("00");
        reveal_strlit(".ts");
    }
    let digits = decimal(index);
    let mut out = String::from_str("segment");
    if index < 10 {
        out.append("00");
    } else if index < 100 {
        out.append("0");
    }
    out.append(digits.as_str());
    out.append(".ts");
    assert(out@ =~= segment_name_spec(index as nat));
    out
}

/// Names the segment files of `directory` by pattern.
pub fn segment_pattern(directory: &str) -> (r: String)
    ensures
        r@ == segment_pattern_spec(directory@),
{
    join_path(directory, "segment%03d.ts")
}

/// Describes the pipeline that cuts the file at `file_path` into segments
/// under `directory`.
pub fn slice_pipeline(file_path: &str, directory: &str) -> (r: String)
    ensures
        r@ == slice_pipeline_spec(file_path@, directory@),
{
    let pattern = segment_pattern(directory);
    let mut out = String::from_str("filesrc location=");
    out.append(file_path);
    out.append(
        " ! decodebin ! videoconvert ! videoscale ! videorate ! video/x-raw,format=I420,width=1280,height=720,framerate=30/1 ! x264enc bitrate=2000 speed-preset=ultrafast tune=zerolatency key-int-max=60 ! h264parse ! splitmuxsink muxer=mpegtsmux max-size-time=2000000000 location=",
    );
    out.append(pattern.as_str());
    out
}

impl SegmentSet {
    /// Where the segment with the index `index` lies.
    pub fn segment_path(&self, index: u32) -> (r: String)
        ensures
            r@ == join_path_spec(self@.directory, segment_name_spec(index as nat)),
    {
        let name = segment_name(index);
        join_path(self.directory.as_str(), name.as_str())
    }
}

impl Supervisor {
    /// Begins the supervision of `asset`, whose segments belong under
    /// `segments_root`.
    pub fn new(asset: &SourceAsset, segments_root: &str) -> (r: Supervisor)
        ensures
            r@ == initial(asset@, segments_root@),
    {
        Supervisor {
            state: SliceState::Idle,
            file_path: asset.file_path.clone(),
            stream_id: asset.stream_id.clone(),
            directory: join_path(segments_root, asset.stream_id.as_str()),
            message: String::new(),
            debug_info: String::new(),
        }
    }

    /// The action that opens every supervision: the segment directory is
    /// prepared.
    pub fn begin(&self) -> (action: SliceAction)
        ensures
            action@ == (ActionView::PrepareDirectory { directory: self@.directory }),
    {
        SliceAction::PrepareDirectory { directory: self.directory.clone() }
    }

    /// Where the supervision stands.
    pub fn state(&self) -> (r: SliceState)
        ensures
            r == self@.state,
    {
        self.state
    }

    /// The directory that holds the segments.
    pub fn directory(&self) -> (r: &str)
        ensures
            r@ == self@.directory,
    {
        self.directory.as_str()
    }

    /// Takes in what the caller reports and says what to do next.
    pub fn step(&mut self, event: PipelineEvent) -> (action: SliceAction)
        ensures
            (final(self)@, action@) == step_spec(old(self)@, event@),
    {
        match self.state {
            SliceState::Idle => match event {
                PipelineEvent::DirectoryReady { entries } => {
                    if entries > 0 {
                        self.state = SliceState::Completed;
                        SliceAction::Finish
                    } else {
                        self.state = SliceState::Created;
                        SliceAction::Launch {
                            pipeline: slice_pipeline(
                                self.file_path.as_str(),
                                self.directory.as_str(),
                            ),
                        }
                    }
                },
                _ => SliceAction::Wait,
            },
            SliceState::Created => match event {
                PipelineEvent::Started => {
                    self.state = SliceState::Playing;
                    SliceAction::Wait
                },
                PipelineEvent::Error { message, debug_info } => {
                    self.state = SliceState::Failed;
                    self.message = message;
                    self.debug_info = debug_info;
                    SliceAction::Release
                },
                _ => SliceAction::Wait,
            },
            SliceState::Playing => match event {
                PipelineEvent::EndOfStream => {
                    self.state = SliceState::Completed;
                    SliceAction::Release
                },
                PipelineEvent::Error { message, debug_info } => {
                    self.state = SliceState::Failed;
                    self.message = message;
                    self.debug_info = debug_info;
                    SliceAction::Release
                },
                _ => SliceAction::Wait,
            },
            SliceState::Completed => SliceAction::Finish,
            SliceState::Failed => SliceAction::Finish,
        }
    }

    /// What the supervision has come to, once it has ended.
    pub fn outcome(&self) -> (r: Option<Result<SegmentSet, SliceError>>)
        ensures
            outcome_view(r) == outcome_spec(self@),
    {
        match self.state {
            SliceState::Completed => Some(
                Ok(
                    SegmentSet {
                        stream_id: self.stream_id.clone(),
                        directory: self.directory.clone(),
                    },
                ),
            ),
            SliceState::Failed => Some(
                Err(
                    SliceError {
                        message: self.message.clone(),
                        debug_info: self.debug_info.clone(),
                    },
                ),
            ),
            _ => None,
        }
    }
}

} // verus!
