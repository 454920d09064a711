//! Telemetry events raised by function instances, their log levels and the
//! tags attached to them.
use vstd::prelude::*;
use crate::text::str_equal;
use crate::deployment_requirements::pair_views;

verus! {

/// Log level of a telemetry log entry.
#[derive(PartialEq, Eq, Structural, Debug, Clone, Copy)]
pub enum TelemetryLogLevel {
    Error,
    Warn,
    Info,
    Debug,
    Trace,
}

/// The level written by a text of the API: "Trace", "Debug", "Info" and
/// "Warn" name their level, anything else is an error.
pub open spec fn level_of_text(s: Seq<char>) -> TelemetryLogLevel {
    if s == "Trace"@ {
        TelemetryLogLevel::Trace
    } else if s == "Debug"@ {
        TelemetryLogLevel::Debug
    } else if s == "Info"@ {
        TelemetryLogLevel::Info
    } else if s == "Warn"@ {
        TelemetryLogLevel::Warn
    } else {
        TelemetryLogLevel::Error
    }
}

/// The text of a level in the API.
pub open spec fn level_text(l: TelemetryLogLevel) -> Seq<char> {
    match l {
        TelemetryLogLevel::Trace => "Trace"@,
        TelemetryLogLevel::Debug => "Debug"@,
        TelemetryLogLevel::Info => "Info"@,
        TelemetryLogLevel::Warn => "Warn"@,
        TelemetryLogLevel::Error => "Error"@,
    }
}

/// The level of a numeric code used by function instances: 1 to 5 from
/// error to trace, any other code is an error.
pub open spec fn level_of_code(c: i32) -> TelemetryLogLevel {
    if c == 2 {
        TelemetryLogLevel::Warn
    } else if c == 3 {
        TelemetryLogLevel::Info
    } else if c == 4 {
        TelemetryLogLevel::Debug
    } else if c == 5 {
        TelemetryLogLevel::Trace
    } else {
        TelemetryLogLevel::Error
    }
}

/// Read a log level from its API text.
pub fn api_to_telemetry(lvl: String) -> (r: TelemetryLogLevel)
    ensures
        r == level_of_text(lvl@),
{
    if str_equal(lvl.as_str(), "Trace") {
        TelemetryLogLevel::Trace
    } else if str_equal(lvl.as_str(), "Debug") {
        TelemetryLogLevel::Debug
    } else if str_equal(lvl.as_str(), "Info") {
        TelemetryLogLevel::Info
    } else if str_equal(lvl.as_str(), "Warn") {
        TelemetryLogLevel::Warn
    } else {
        TelemetryLogLevel::Error
    }
}

/// The API text of a log level.
pub fn telemetry_to_api(lvl: TelemetryLogLevel) -> (r: String)
    ensures
        r@ == level_text(lvl),
{
    match lvl {
        TelemetryLogLevel::Trace => String::from_str("Trace"),
        TelemetryLogLevel::Debug => String::from_str("Debug"),
        TelemetryLogLevel::Info => String::from_str("Info"),
        TelemetryLogLevel::Warn => String::from_str("Warn"),
        TelemetryLogLevel::Error => String::from_str("Error"),
    }
}

/// The log level of a numeric code used by function instances.
pub fn level_from_i32(lvl: i32) -> (r: TelemetryLogLevel)
    ensures
        r == level_of_code(lvl),
{
    match lvl {
        1 => TelemetryLogLevel::Error,
        2 => TelemetryLogLevel::Warn,
        3 => TelemetryLogLevel::Info,
        4 => TelemetryLogLevel::Debug,
        5 => TelemetryLogLevel::Trace,
        _ => TelemetryLogLevel::Error,
    }
}

/// Reading back the API text of a level gives the level.
pub proof fn lemma_level_text_roundtrip(l: TelemetryLogLevel)
    ensures
        level_of_text(level_text(l)) == l,
{
    reveal_strlit("Trace");
    reveal_strlit("Debug");
    reveal_strlit("Info");
    reveal_strlit("Warn");
    reveal_strlit("Error");
    assert("Debug"@[0] != "Trace"@[0]);
    assert("Info"@.len() != "Trace"@.len());
    assert("Info"@[0] != "Debug"@[0]);
    assert("Warn"@[0] != "Trace"@[0]);
    assert("Warn"@[0] != "Debug"@[0]);
    assert("Warn"@[0] != "Info"@[0]);
    assert("Error"@[0] != "Trace"@[0]);
    assert("Error"@[0] != "Debug"@[0]);
    assert("Error"@[0] != "Info"@[0]);
    assert("Error"@[0] != "Warn"@[0]);
}

/// How a function instance ended.
#[derive(PartialEq, Eq, Structural, Debug, Clone, Copy)]
pub enum FunctionExitStatus {
    Success,
    InternalError,
    CodeError,
}

/// An event of a function instance. Durations are in nanoseconds.
pub enum TelemetryEvent {
    FunctionInstantiate(u128),
    FunctionInit(u128),
    /// Level, target and message.
    FunctionLogEntry(TelemetryLogLevel, String, String),
    FunctionInvocationCompleted(u128),
    FunctionStop(u128),
    FunctionExit(FunctionExitStatus),
}

/// Mathematical model of a telemetry event.
pub enum TelemetryEventView {
    FunctionInstantiate(u128),
    FunctionInit(u128),
    FunctionLogEntry(TelemetryLogLevel, Seq<char>, Seq<char>),
    FunctionInvocationCompleted(u128),
    FunctionStop(u128),
    FunctionExit(FunctionExitStatus),
}

impl View for TelemetryEvent {
    type V = TelemetryEventView;

    open spec fn view(&self) -> TelemetryEventView {
        match self {
            TelemetryEvent::FunctionInstantiate(d) => TelemetryEventView::FunctionInstantiate(*d),
            TelemetryEvent::FunctionInit(d) => TelemetryEventView::FunctionInit(*d),
            TelemetryEvent::FunctionLogEntry(l, t, m) => TelemetryEventView::FunctionLogEntry(*l, t@, m@),
            TelemetryEvent::FunctionInvocationCompleted(d) => TelemetryEventView::FunctionInvocationCompleted(*d),
            TelemetryEvent::FunctionStop(d) => TelemetryEventView::FunctionStop(*d),
            TelemetryEvent::FunctionExit(e) => TelemetryEventView::FunctionExit(*e),
        }
    }
}

/// The model of an event raised with its tags: the event and the map of
/// its tags.
pub open spec fn raised_view(p: (TelemetryEvent, Vec<(String, String)>)) -> (TelemetryEventView, Map<Seq<char>, Seq<char>>) {
    (p.0@, tag_map(pair_views(p.1@)))
}

/// What an event processor did with an event: `FINAL` ends the processing
/// chain.
#[derive(PartialEq, Eq, Structural, Debug, Clone, Copy)]
pub enum TelemetryProcessingResult {
    PASSED,
    PROCESSED,
    FINAL,
}

/// A stage of the chain that processes telemetry events, implemented by the
/// users of the library.
pub trait EventProcessor {
    fn handle(&mut self, event: &TelemetryEvent, event_tags: &Vec<(String, String)>) -> TelemetryProcessingResult;
}

/// Whether no key occurs twice among the tags.
pub open spec fn distinct_tags(s: Seq<(Seq<char>, Seq<char>)>) -> bool {
    forall|i: int, j: int| 0 <= i < j < s.len() ==> s[i].0 != s[j].0
}

/// The map of a list of tags: a later tag overrides an earlier one.
pub open spec fn tag_map(s: Seq<(Seq<char>, Seq<char>)>) -> Map<Seq<char>, Seq<char>>
    decreases s.len(),
{
    if s.len() == 0 {
        Map::empty()
    } else {
        tag_map(s.drop_last()).insert(s.last().0, s.last().1)
    }
}

/// Set one tag in a list of tags with distinct keys: replaced where its key
/// is, added at the end otherwise.
fn set_tag(tags: &mut Vec<(String, String)>, key: &String, value: &String)
    requires
        distinct_tags(pair_views(old(tags)@)),
    ensures
        distinct_tags(pair_views(final(tags)@)),
        tag_map(pair_views(final(tags)@)) == tag_map(pair_views(old(tags)@)).insert(key@, value@),
{
    let ghost s0 = pair_views(tags@);
    let mut i: usize = 0;
    while i < tags.len()
        invariant
            s0 == pair_views(tags@),
            s0 == pair_views(old(tags)@),
            distinct_tags(s0),
            i <= tags@.len(),
            forall|j: int| 0 <= j < i ==> (#[trigger] s0[j]).0 != key@,
        decreases tags@.len() - i,
    {
        if str_equal(tags[i].0.as_str(), key.as_str()) {
            tags.set(i, (key.clone(), value.clone()));
            proof {
                assert(pair_views(tags@) =~= s0.update(i as int, (key@, value@)));
                lemma_tag_map_update(s0, i as int, key@, value@);
            }
            return;
        }
        i = i + 1;
    }
    tags.push((key.clone(), value.clone()));
    proof {
        assert(pair_views(tags@) =~= s0.push((key@, value@)));
        assert(pair_views(tags@).drop_last() =~= s0);
        assert forall|a: int, b: int| 0 <= a < b < pair_views(tags@).len() implies pair_views(tags@)[a].0 != pair_views(
            tags@,
        )[b].0 by {
            if b == s0.len() {
                assert(s0[a].0 != key@);
            }
        }
    }
}

/// Replacing the value of a key that occurs once replaces it in the map.
proof fn lemma_tag_map_update(s: Seq<(Seq<char>, Seq<char>)>, i: int, k: Seq<char>, v: Seq<char>)
    requires
        distinct_tags(s),
        0 <= i < s.len(),
        s[i].0 == k,
    ensures
        tag_map(s.update(i, (k, v))) == tag_map(s).insert(k, v),
        distinct_tags(s.update(i, (k, v))),
    decreases s.len(),
{
    let u = s.update(i, (k, v));
    let d = s.drop_last();
    if i == s.len() - 1 {
        assert(u.drop_last() =~= d);
        assert(tag_map(u) =~= tag_map(s).insert(k, v));
    } else {
        assert(u.drop_last() =~= d.update(i, (k, v)));
        lemma_tag_map_update(d, i, k, v);
        assert(s.last().0 != k);
        assert(tag_map(u) =~= tag_map(s).insert(k, v));
    }
}

/// The tags of `base` with those of `extra` added, `extra` overriding
/// `base` on a shared key.
pub fn merge_tags(base: &Vec<(String, String)>, extra: &Vec<(String, String)>) -> (r: Vec<(String, String)>)
    requires
        distinct_tags(pair_views(base@)),
        distinct_tags(pair_views(extra@)),
    ensures
        distinct_tags(pair_views(r@)),
        tag_map(pair_views(r@)) == tag_map(pair_views(base@)).union_prefer_right(tag_map(pair_views(extra@))),
{
    let mut out = crate::requests::clone_pairs(base);
    let ghost e = pair_views(extra@);
    let mut i: usize = 0;
    assert(e.take(0) =~= Seq::<(Seq<char>, Seq<char>)>::empty());
    assert(tag_map(pair_views(base@)).union_prefer_right(Map::empty()) =~= tag_map(pair_views(base@)));
    while i < extra.len()
        invariant
            e == pair_views(extra@),
            i <= extra@.len(),
            distinct_tags(pair_views(out@)),
            tag_map(pair_views(out@)) == tag_map(pair_views(base@)).union_prefer_right(tag_map(e.take(i as int))),
        decreases extra@.len() - i,
    {
        set_tag(&mut out, &extra[i].0, &extra[i].1);
        assert(e.take(i + 1).drop_last() =~= e.take(i as int));
        assert(e.take(i + 1).last() == e[i as int]);
        assert(tag_map(pair_views(out@)) =~= tag_map(pair_views(base@)).union_prefer_right(tag_map(e.take(i + 1))));
        i = i + 1;
    }
    assert(e.take(extra@.len() as int) =~= e);
    out
}

/// Merging tags keeps every tag of `base` whose key `extra` lacks, and
/// every tag of `extra`.
pub proof fn lemma_merge_tags_keeps(base: Map<Seq<char>, Seq<char>>, extra: Map<Seq<char>, Seq<char>>, k: Seq<char>)
    ensures
        extra.dom().contains(k) ==> base.union_prefer_right(extra)[k] == extra[k],
        base.dom().contains(k) && !extra.dom().contains(k) ==> base.union_prefer_right(extra)[k] == base[k],
        base.union_prefer_right(extra).dom().contains(k) <==> (base.dom().contains(k) || extra.dom().contains(k)),
{
}

/// A handle through which a function instance raises telemetry events with
/// tags of its own.
pub trait TelemetryHandleAPI {
    /// Raise an event with tags of its own.
    fn observe(&mut self, event: TelemetryEvent, event_tags: Vec<(String, String)>)
        requires
            distinct_tags(pair_views(event_tags@)),
    ;

    /// A handle whose tags are these and the given ones.
    fn fork(&mut self, child_tags: Vec<(String, String)>) -> Self where Self: Sized
        requires
            distinct_tags(pair_views(child_tags@)),
    ;
}

/// A telemetry handle that holds its tags and the events raised through it,
/// each with its tags merged with the handle's, until they are taken to be
/// sent to the processing chain.
pub struct TelemetryHandle {
    handle_tags: Vec<(String, String)>,
    raised: Vec<(TelemetryEvent, Vec<(String, String)>)>,
}

impl TelemetryHandle {
    #[verifier::type_invariant]
    spec fn tags_distinct(self) -> bool {
        distinct_tags(pair_views(self.handle_tags@))
    }

    /// The map of the handle's tags.
    pub closed spec fn tags(&self) -> Map<Seq<char>, Seq<char>> {
        tag_map(pair_views(self.handle_tags@))
    }

    /// The events raised and not yet taken, each with the map of its tags,
    /// in order.
    pub closed spec fn raised(&self) -> Seq<(TelemetryEventView, Map<Seq<char>, Seq<char>>)> {
        self.raised@.map_values(|p: (TelemetryEvent, Vec<(String, String)>)| raised_view(p))
    }

    /// A handle with the given tags and no event raised.
    pub fn new(handle_tags: Vec<(String, String)>) -> (r: Self)
        requires
            distinct_tags(pair_views(handle_tags@)),
        ensures
            r.tags() == tag_map(pair_views(handle_tags@)),
            r.raised().len() == 0,
    {
        let r = TelemetryHandle { handle_tags, raised: Vec::new() };
        assert(r.raised() =~= Seq::<(TelemetryEventView, Map<Seq<char>, Seq<char>>)>::empty());
        r
    }

    /// Take the events raised so far, each with its merged tags.
    pub fn take_raised(&mut self) -> (r: Vec<(TelemetryEvent, Vec<(String, String)>)>)
        ensures
            r@.map_values(|p: (TelemetryEvent, Vec<(String, String)>)| raised_view(p)) == old(self).raised(),
            final(self).raised().len() == 0,
            final(self).tags() == old(self).tags(),
    {
        proof {
            use_type_invariant(&*self);
        }
        let mut taken: Vec<(TelemetryEvent, Vec<(String, String)>)> = Vec::new();
        std::mem::swap(&mut taken, &mut self.raised);
        assert(self.raised() =~= Seq::<(TelemetryEventView, Map<Seq<char>, Seq<char>>)>::empty());
        taken
    }
}

impl TelemetryHandleAPI for TelemetryHandle {
    fn observe(&mut self, event: TelemetryEvent, event_tags: Vec<(String, String)>)
        ensures
            final(self).raised() == old(self).raised().push(
                (event@, old(self).tags().union_prefer_right(tag_map(pair_views(event_tags@)))),
            ),
            final(self).tags() == old(self).tags(),
    {
        proof {
            use_type_invariant(&*self);
        }
        let merged = merge_tags(&self.handle_tags, &event_tags);
        let ghost ev = event@;
        let mut raised: Vec<(TelemetryEvent, Vec<(String, String)>)> = Vec::new();
        std::mem::swap(&mut raised, &mut self.raised);
        raised.push((event, merged));
        self.raised = raised;
        assert(self.raised() =~= old(self).raised().push(
            (ev, old(self).tags().union_prefer_right(tag_map(pair_views(event_tags@)))),
        ));
    }

    fn fork(&mut self, child_tags: Vec<(String, String)>) -> (r: Self)
        ensures
            r.tags() == old(self).tags().union_prefer_right(tag_map(pair_views(child_tags@))),
            r.raised().len() == 0,
            final(self).tags() == old(self).tags(),
            final(self).raised() == old(self).raised(),
    {
        proof {
            use_type_invariant(&*self);
        }
        let merged = merge_tags(&self.handle_tags, &child_tags);
        TelemetryHandle::new(merged)
    }
}

/// What a performance sample of an event is kept as.
#[derive(PartialEq, Eq, Structural, Debug, Clone, Copy)]
pub enum SampleKind {
    /// A duration of the given kind.
    Time(FunctionTime),
    /// A log entry.
    LogEntry,
}

/// The kind of sample an event gives, if any.
pub open spec fn event_kind(e: TelemetryEvent) -> Option<SampleKind> {
    match e {
        TelemetryEvent::FunctionInstantiate(_) => Some(SampleKind::Time(FunctionTime::Instantiate)),
        TelemetryEvent::FunctionInit(_) => Some(SampleKind::Time(FunctionTime::Init)),
        TelemetryEvent::FunctionInvocationCompleted(_) => Some(SampleKind::Time(FunctionTime::Execution)),
        TelemetryEvent::FunctionStop(_) => Some(SampleKind::Time(FunctionTime::Stop)),
        TelemetryEvent::FunctionLogEntry(_, _, _) => Some(SampleKind::LogEntry),
        TelemetryEvent::FunctionExit(_) => None,
    }
}

/// What a performance target keeps of an event: the kind of sample and the
/// function it belongs to, read as a UUID from the "FUNCTION_ID" tag. An
/// event without a sample, without that tag, or whose tag is no UUID, is
/// passed on.
pub open spec fn sample_of(e: TelemetryEvent, tags: Seq<(Seq<char>, Seq<char>)>) -> Option<(SampleKind, u128)> {
    match event_kind(e) {
        None => None,
        Some(k) => match crate::deployment_requirements::lookup(tags, "FUNCTION_ID"@) {
            None => None,
            Some(v) => match crate::ids::uuid_parse(v) {
                None => None,
                Some(id) => Some((k, id)),
            },
        },
    }
}

/// What a performance target keeps of an event, if anything.
pub fn classify_event(event: &TelemetryEvent, event_tags: &Vec<(String, String)>) -> (r: Option<(SampleKind, u128)>)
    ensures
        r == sample_of(*event, pair_views(event_tags@)),
{
    let kind = match event {
        TelemetryEvent::FunctionInstantiate(_) => SampleKind::Time(FunctionTime::Instantiate),
        TelemetryEvent::FunctionInit(_) => SampleKind::Time(FunctionTime::Init),
        TelemetryEvent::FunctionInvocationCompleted(_) => SampleKind::Time(FunctionTime::Execution),
        TelemetryEvent::FunctionStop(_) => SampleKind::Time(FunctionTime::Stop),
        TelemetryEvent::FunctionLogEntry(_, _, _) => SampleKind::LogEntry,
        TelemetryEvent::FunctionExit(_) => {
            return None;
        },
    };
    match crate::deployment_requirements::lookup_annotation(event_tags, "FUNCTION_ID") {
        None => None,
        Some(v) => match crate::ids::parse_uuid(v.as_str()) {
            None => None,
            Some(id) => Some((kind, id)),
        },
    }
}

/// The exit of a function gives no sample, whatever its tags: a
/// performance target keeps nothing of it (and `performance_outcome` passes
/// it on).
pub proof fn lemma_exit_gives_no_sample(status: FunctionExitStatus, tags: Seq<(Seq<char>, Seq<char>)>)
    ensures
        sample_of(TelemetryEvent::FunctionExit(status), tags) is None,
{
}

/// Each kind of duration lands in its own slot of the function's timings,
/// for the function named by a "FUNCTION_ID" tag that reads as a UUID:
/// instantiation in slot 0, initialisation in 1, execution in 2, stop in 3;
/// a log entry is kept as such.
pub proof fn lemma_timing_slots(d: u128, tags: Seq<(Seq<char>, Seq<char>)>, f: u128, log: TelemetryEvent)
    requires
        crate::deployment_requirements::lookup(tags, "FUNCTION_ID"@) matches Some(v) && crate::ids::uuid_parse(v) == Some(f),
        log is FunctionLogEntry,
    ensures
        sample_of(log, tags) == Some((SampleKind::LogEntry, f)),
        sample_of(TelemetryEvent::FunctionInstantiate(d), tags) matches Some((SampleKind::Time(k), g)) && g == f && time_slot(k) == 0,
        sample_of(TelemetryEvent::FunctionInit(d), tags) matches Some((SampleKind::Time(k), g)) && g == f && time_slot(k) == 1,
        sample_of(TelemetryEvent::FunctionInvocationCompleted(d), tags) matches Some((SampleKind::Time(k), g)) && g == f
            && time_slot(k) == 2,
        sample_of(TelemetryEvent::FunctionStop(d), tags) matches Some((SampleKind::Time(k), g)) && g == f && time_slot(k) == 3,
{
}

/// What a performance target answers for an event: every event but the
/// exit of a function is processed (kept where `classify_event` gives a
/// sample), the exit is passed on.
pub fn performance_outcome(event: &TelemetryEvent) -> (r: TelemetryProcessingResult)
    ensures
        r == (if event is FunctionExit { TelemetryProcessingResult::PASSED } else { TelemetryProcessingResult::PROCESSED }),
{
    match event {
        TelemetryEvent::FunctionExit(_) => TelemetryProcessingResult::PASSED,
        _ => TelemetryProcessingResult::PROCESSED,
    }
}

/// The index of the document store to which a record is written.
#[derive(PartialEq, Eq, Structural, Debug, Clone, Copy)]
pub enum IndexType {
    Runtime,
    Resources,
}

pub open spec fn index_name(t: IndexType) -> Seq<char> {
    match t {
        IndexType::Runtime => "edgeless_runtime"@,
        IndexType::Resources => "edgeless_resources"@,
    }
}

/// The name of the index of a record type.
pub fn get_index_name(index_type: IndexType) -> (r: &'static str)
    ensures
        r@ == index_name(index_type),
{
    match index_type {
        IndexType::Runtime => "edgeless_runtime",
        IndexType::Resources => "edgeless_resources",
    }
}

/// The kinds of timing samples kept per function.
#[derive(PartialEq, Eq, Structural, Debug, Clone, Copy)]
pub enum FunctionTime {
    Instantiate,
    Init,
    Execution,
    Stop,
    Transfer,
}

pub open spec fn time_slot(t: FunctionTime) -> usize {
    match t {
        FunctionTime::Instantiate => 0,
        FunctionTime::Init => 1,
        FunctionTime::Execution => 2,
        FunctionTime::Stop => 3,
        FunctionTime::Transfer => 4,
    }
}

impl FunctionTime {
    /// The slot of this kind among the five kept per function, from 0 for
    /// instantiation to 4 for transfer.
    pub fn index(&self) -> (r: usize)
        ensures
            r == time_slot(*self),
            r < 5,
    {
        match self {
            FunctionTime::Instantiate => 0,
            FunctionTime::Init => 1,
            FunctionTime::Execution => 2,
            FunctionTime::Stop => 3,
            FunctionTime::Transfer => 4,
        }
    }
}

/// An update of the metrics of the functions that a node exports.
pub enum MetricUpdate {
    /// One more instance of a function type on a node.
    FunctionStarted { node_id: String, function_type: String },
    /// One instance fewer of a function type on a node.
    FunctionExited { node_id: String, function_type: String },
    /// An invocation of a function took the given time, in nanoseconds;
    /// `is_call` tells a call from a cast.
    ExecutionTime { node_id: String, function_type: String, function_id: String, is_call: bool, duration_ns: u128 },
}

/// Mathematical model of a metric update.
pub enum MetricUpdateView {
    FunctionStarted { node_id: Seq<char>, function_type: Seq<char> },
    FunctionExited { node_id: Seq<char>, function_type: Seq<char> },
    ExecutionTime { node_id: Seq<char>, function_type: Seq<char>, function_id: Seq<char>, is_call: bool, duration_ns: u128 },
}

impl View for MetricUpdate {
    type V = MetricUpdateView;

    open spec fn view(&self) -> MetricUpdateView {
        match self {
            MetricUpdate::FunctionStarted { node_id, function_type } => MetricUpdateView::FunctionStarted {
                node_id: node_id@,
                function_type: function_type@,
            },
            MetricUpdate::FunctionExited { node_id, function_type } => MetricUpdateView::FunctionExited {
                node_id: node_id@,
                function_type: function_type@,
            },
            MetricUpdate::ExecutionTime { node_id, function_type, function_id, is_call, duration_ns } => MetricUpdateView::ExecutionTime {
                node_id: node_id@,
                function_type: function_type@,
                function_id: function_id@,
                is_call: *is_call,
                duration_ns: *duration_ns,
            },
        }
    }
}

/// The metric update of an event, and what becomes of the event: the
/// instantiation and the exit of a function count its instances by node and
/// type ("NODE_ID" and "FUNCTION_TYPE" tags), a completed invocation is timed
/// by node, type, function and invocation type ("FUNCTION_ID" and
/// "EVENT_TYPE" tags, a call where the latter is "CALL"). Where a tag is
/// missing nothing is updated, but the event is still taken; any other
/// event is passed on.
pub open spec fn metric_update_of(e: TelemetryEvent, tags: Seq<(Seq<char>, Seq<char>)>) -> (
    Option<MetricUpdateView>,
    TelemetryProcessingResult,
) {
    let node = crate::deployment_requirements::lookup(tags, "NODE_ID"@);
    let ftype = crate::deployment_requirements::lookup(tags, "FUNCTION_TYPE"@);
    match e {
        TelemetryEvent::FunctionInstantiate(_) => (
            if node is Some && ftype is Some {
                Some(MetricUpdateView::FunctionStarted { node_id: node->0, function_type: ftype->0 })
            } else {
                None
            },
            TelemetryProcessingResult::FINAL,
        ),
        TelemetryEvent::FunctionExit(_) => (
            if node is Some && ftype is Some {
                Some(MetricUpdateView::FunctionExited { node_id: node->0, function_type: ftype->0 })
            } else {
                None
            },
            TelemetryProcessingResult::FINAL,
        ),
        TelemetryEvent::FunctionInvocationCompleted(d) => {
            let fid = crate::deployment_requirements::lookup(tags, "FUNCTION_ID"@);
            let et = crate::deployment_requirements::lookup(tags, "EVENT_TYPE"@);
            (
                if node is Some && fid is Some && ftype is Some && et is Some {
                    Some(
                        MetricUpdateView::ExecutionTime {
                            node_id: node->0,
                            function_type: ftype->0,
                            function_id: fid->0,
                            is_call: et->0 == "CALL"@,
                            duration_ns: d,
                        },
                    )
                } else {
                    None
                },
                TelemetryProcessingResult::FINAL,
            )
        },
        _ => (None, TelemetryProcessingResult::PASSED),
    }
}

/// The metric update of an event, and what becomes of the event.
pub fn metric_update(event: &TelemetryEvent, event_tags: &Vec<(String, String)>) -> (r: (
    Option<MetricUpdate>,
    TelemetryProcessingResult,
))
    ensures
        (match r.0 {
            Some(u) => Some(u@),
            None => None,
        }) == metric_update_of(*event, pair_views(event_tags@)).0,
        r.1 == metric_update_of(*event, pair_views(event_tags@)).1,
{
    let node = crate::deployment_requirements::lookup_annotation(event_tags, "NODE_ID");
    let ftype = crate::deployment_requirements::lookup_annotation(event_tags, "FUNCTION_TYPE");
    match event {
        TelemetryEvent::FunctionInstantiate(_) => {
            let u = match (node, ftype) {
                (Some(n), Some(t)) => Some(MetricUpdate::FunctionStarted { node_id: n.clone(), function_type: t.clone() }),
                _ => None,
            };
            (u, TelemetryProcessingResult::FINAL)
        },
        TelemetryEvent::FunctionExit(_) => {
            let u = match (node, ftype) {
                (Some(n), Some(t)) => Some(MetricUpdate::FunctionExited { node_id: n.clone(), function_type: t.clone() }),
                _ => None,
            };
            (u, TelemetryProcessingResult::FINAL)
        },
        TelemetryEvent::FunctionInvocationCompleted(d) => {
            let fid = crate::deployment_requirements::lookup_annotation(event_tags, "FUNCTION_ID");
            let et = crate::deployment_requirements::lookup_annotation(event_tags, "EVENT_TYPE");
            let u = match (node, fid, ftype, et) {
                (Some(n), Some(f), Some(t), Some(e)) => Some(
                    MetricUpdate::ExecutionTime {
                        node_id: n.clone(),
                        function_type: t.clone(),
                        function_id: f.clone(),
                        is_call: str_equal(e.as_str(), "CALL"),
                        duration_ns: *d,
                    },
                ),
                _ => None,
            };
            (u, TelemetryProcessingResult::FINAL)
        },
        _ => (None, TelemetryProcessingResult::PASSED),
    }
}

/// Whether a processing chain ran as it should: each stage in turn saw the
/// event until one took it as final, or the chain ended.
pub open spec fn chain_ran(results: Seq<TelemetryProcessingResult>, stages: nat) -> bool {
    &&& results.len() <= stages
    &&& forall|k: int| 0 <= k < results.len() - 1 ==> results[k] != TelemetryProcessingResult::FINAL
    &&& results.len() < stages ==> results.len() > 0 && results.last() == TelemetryProcessingResult::FINAL
}

/// Hand an event to the stages of a processing chain in order, until one
/// takes it as final, and give what each stage that saw it answered.
pub fn process_in_chain<P: EventProcessor>(chain: &mut Vec<P>, event: &TelemetryEvent, event_tags: &Vec<(String, String)>) -> (r: Vec<
    TelemetryProcessingResult,
>)
    ensures
        final(chain)@.len() == old(chain)@.len(),
        chain_ran(r@, old(chain)@.len()),
{
    let mut results: Vec<TelemetryProcessingResult> = Vec::new();
    let n = chain.len();
    let mut i: usize = 0;
    while i < n
        invariant
            n == old(chain)@.len(),
            chain@.len() == n,
            i <= n,
            results@.len() == i,
            forall|k: int| 0 <= k < i ==> results@[k] != TelemetryProcessingResult::FINAL,
        decreases n - i,
    {
        let mut stage = chain.remove(i);
        let outcome = stage.handle(event, event_tags);
        chain.insert(i, stage);
        results.push(outcome);
        if outcome == TelemetryProcessingResult::FINAL {
            return results;
        }
        i = i + 1;
    }
    results
}

} // verus!
