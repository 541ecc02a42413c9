//! The pipeline model: streams, pumps, readers and writers, and the
//! commands that extend it.
use vstd::prelude::*;
use crate::error::SpringError;
use crate::expression::ValueExpr;
use crate::row::StreamShape;
use crate::window::pane::AggregateFunction;
use crate::window::panes::WindowParameter;

verus! {

/// Monotonically increasing version of a pipeline.
#[derive(Clone, Copy, Debug, PartialEq, Eq, Structural, PartialOrd, Ord, Hash, Default)]
pub struct PipelineVersion {
    pub version: u64,
}

impl PipelineVersion {
    pub fn new() -> (r: PipelineVersion)
        ensures
            r.version == 0,
    {
        PipelineVersion { version: 0 }
    }

    /// The next version.
    pub fn up(&mut self)
        requires
            old(self).version < u64::MAX,
        ensures
            final(self).version == old(self).version + 1,
    {
        self.version = self.version + 1;
    }
}

/// Key/value options of a `CREATE` statement.
#[derive(Clone, Debug, PartialEq, Eq)]
pub struct Options {
    pub entries: Vec<(String, String)>,
}

impl Options {
    pub fn empty() -> (r: Options)
        ensures
            r.entries@.len() == 0,
    {
        Options { entries: Vec::new() }
    }
}

/// A named stream and its shape.
#[derive(Clone, Debug, PartialEq, Eq)]
pub struct StreamModel {
    pub name: String,
    pub shape: StreamShape,
    pub options: Options,
}

impl StreamModel {
    pub fn new(name: String, shape: StreamShape, options: Options) -> (r: StreamModel)
        ensures
            r.name == name,
            r.shape == shape,
            r.options == options,
    {
        StreamModel { name, shape, options }
    }
}

/// The name of a pump.
#[derive(Clone, Debug, PartialEq, Eq)]
pub struct PumpName {
    pub name: String,
}

impl PumpName {
    pub fn new(name: String) -> (r: PumpName)
        ensures
            r.name == name,
    {
        PumpName { name }
    }
}

/// A time-windowed aggregation: group key column, aggregated column, function.
#[derive(Debug, PartialEq, Eq)]
pub struct WindowOperation {
    pub window: WindowParameter,
    pub group_by: usize,
    pub aggregated: usize,
    pub function: AggregateFunction,
}

/// What a pump computes from each upstream row.
#[derive(Debug, PartialEq, Eq)]
pub enum PumpQuery {
    /// One output row per input row that passes the filter, with one output
    /// column per projection.
    Project { projection: Vec<ValueExpr>, filter: Option<ValueExpr> },
    /// Windowed aggregation: one output row per group when a pane closes.
    Window(WindowOperation),
}

/// A pump: reads one upstream stream and writes one downstream stream.
#[derive(Debug, PartialEq, Eq)]
pub struct PumpModel {
    pub name: PumpName,
    pub upstream: String,
    pub downstream: String,
    pub query: PumpQuery,
}

/// A source reader: an in-memory queue named `queue` feeding `stream`.
#[derive(Clone, Debug, PartialEq, Eq)]
pub struct SourceReaderModel {
    pub name: String,
    pub stream: String,
    pub queue: String,
}

/// A sink writer: `stream` drained into an in-memory queue named `queue`.
#[derive(Clone, Debug, PartialEq, Eq)]
pub struct SinkWriterModel {
    pub name: String,
    pub stream: String,
    pub queue: String,
}

/// The kind of a stream.
#[derive(Clone, Copy, Debug, PartialEq, Eq, Structural)]
pub enum StreamKind {
    Source,
    Intermediate,
    Sink,
}

/// A change to the pipeline, as the planner produces it.
#[derive(Debug, PartialEq, Eq)]
pub enum AlterPipelineCommand {
    CreateSourceStream(StreamModel),
    CreateSourceReader(SourceReaderModel),
    CreateStream(StreamModel),
    CreateSinkStream(StreamModel),
    CreateSinkWriter(SinkWriterModel),
    CreatePump(PumpModel),
}

/// The complete set of streams, pumps, readers and writers, with its version.
#[derive(Debug)]
pub struct Pipeline {
    pub version: PipelineVersion,
    pub streams: Vec<(StreamModel, StreamKind)>,
    pub pumps: Vec<PumpModel>,
    pub readers: Vec<SourceReaderModel>,
    pub writers: Vec<SinkWriterModel>,
}

pub open spec fn stream_names(ss: Seq<(StreamModel, StreamKind)>) -> Seq<Seq<char>> {
    ss.map_values(|s: (StreamModel, StreamKind)| s.0.name@)
}

/// The kind of the stream named `name`, if there is one.
pub open spec fn stream_kind(ss: Seq<(StreamModel, StreamKind)>, name: Seq<char>) -> Option<StreamKind> {
    if exists|i: int| 0 <= i < ss.len() && (#[trigger] ss[i]).0.name@ == name {
        Some(ss[choose|i: int| 0 <= i < ss.len() && (#[trigger] ss[i]).0.name@ == name].1)
    } else {
        None
    }
}

/// Whether a command fits the pipeline: new names are unused, referenced
/// streams exist and are of a kind that can be read or written there.
pub open spec fn command_valid(p: Pipeline, cmd: AlterPipelineCommand) -> bool {
    let ss = p.streams@;
    match cmd {
        AlterPipelineCommand::CreateSourceStream(s) => stream_kind(ss, s.name@) is None,
        AlterPipelineCommand::CreateStream(s) => stream_kind(ss, s.name@) is None,
        AlterPipelineCommand::CreateSinkStream(s) => stream_kind(ss, s.name@) is None,
        AlterPipelineCommand::CreateSourceReader(r) => stream_kind(ss, r.stream@) == Some(StreamKind::Source),
        AlterPipelineCommand::CreateSinkWriter(w) => stream_kind(ss, w.stream@) == Some(StreamKind::Sink),
        AlterPipelineCommand::CreatePump(pm) => (stream_kind(ss, pm.upstream@) matches Some(k) && k != StreamKind::Sink)
            && (stream_kind(ss, pm.downstream@) matches Some(k) && k != StreamKind::Source)
            && pump_query_ok(pm.query),
    }
}

/// `after` is `before` with the item that `cmd` creates added at the end of
/// its list.
pub open spec fn pipeline_added(before: Pipeline, after: Pipeline, cmd: AlterPipelineCommand) -> bool {
    match cmd {
        AlterPipelineCommand::CreateSourceStream(s) => after.streams@ == before.streams@.push((s, StreamKind::Source)),
        AlterPipelineCommand::CreateStream(s) => after.streams@ == before.streams@.push((s, StreamKind::Intermediate)),
        AlterPipelineCommand::CreateSinkStream(s) => after.streams@ == before.streams@.push((s, StreamKind::Sink)),
        AlterPipelineCommand::CreateSourceReader(rd) => after.readers@ == before.readers@.push(rd),
        AlterPipelineCommand::CreateSinkWriter(w) => after.writers@ == before.writers@.push(w),
        AlterPipelineCommand::CreatePump(pm) => after.pumps@ == before.pumps@.push(pm),
    }
}

/// Streams of this engine recognize no option key; readers and writers
/// name their in-memory queue directly.
pub open spec fn options_ok(cmd: AlterPipelineCommand) -> bool {
    match cmd {
        AlterPipelineCommand::CreateSourceStream(s) => s.options.entries@.len() == 0,
        AlterPipelineCommand::CreateStream(s) => s.options.entries@.len() == 0,
        AlterPipelineCommand::CreateSinkStream(s) => s.options.entries@.len() == 0,
        _ => true,
    }
}

/// A windowed query needs a usable window.
pub open spec fn pump_query_ok(q: PumpQuery) -> bool {
    match q {
        PumpQuery::Window(op) => op.window.wf(),
        PumpQuery::Project { .. } => true,
    }
}

/// Position of the stream named `name`.
pub fn find_stream(ss: &Vec<(StreamModel, StreamKind)>, name: &String) -> (r: Option<usize>)
    ensures
        r matches Some(i) ==> i < ss@.len() && ss@[i as int].0.name@ == name@,
        r is None <==> stream_kind(ss@, name@) is None,
        r matches Some(i) ==> stream_kind(ss@, name@) is Some,
{
    let mut i: usize = 0;
    while i < ss.len()
        invariant
            0 <= i <= ss@.len(),
            forall|j: int| 0 <= j < i ==> (#[trigger] ss@[j]).0.name@ != name@,
        decreases ss@.len() - i,
    {
        if ss[i].0.name == *name {
            assert(ss@[i as int].0.name@ == name@);
            return Some(i);
        }
        i = i + 1;
    }
    None
}

/// The kind of the stream named `name`, if there is one.
fn kind_of(ss: &Vec<(StreamModel, StreamKind)>, name: &String) -> (r: Option<StreamKind>)
    requires
        stream_names_distinct(ss@),
    ensures
        r == stream_kind(ss@, name@),
{
    match find_stream(ss, name) {
        Some(i) => {
            proof {
                let j = choose|j: int| 0 <= j < ss@.len() && (#[trigger] ss@[j]).0.name@ == name@;
                if j != i {
                    assert(ss@[j].0.name@ == ss@[i as int].0.name@);
                }
            }
            Some(ss[i].1)
        },
        None => None,
    }
}

pub open spec fn stream_names_distinct(ss: Seq<(StreamModel, StreamKind)>) -> bool {
    forall|i: int, j: int| 0 <= i < j < ss.len() ==> (#[trigger] ss[i]).0.name@ != (#[trigger] ss[j]).0.name@
}

impl Pipeline {
    pub open spec fn wf(&self) -> bool {
        &&& stream_names_distinct(self.streams@)
        &&& forall|i: int| 0 <= i < self.pumps@.len() ==> pump_query_ok(#[trigger] self.pumps@[i].query)
    }

    /// An empty pipeline at version 0.
    pub fn new() -> (r: Pipeline)
        ensures
            r.wf(),
            r.version.version == 0,
            r.streams@.len() == 0,
            r.pumps@.len() == 0,
            r.readers@.len() == 0,
            r.writers@.len() == 0,
    {
        Pipeline {
            version: PipelineVersion::new(),
            streams: Vec::new(),
            pumps: Vec::new(),
            readers: Vec::new(),
            writers: Vec::new(),
        }
    }

    /// Applies a command. On success the item is added and the version goes
    /// up by one; on failure (`Sql`: a name already used, an unknown stream,
    /// or one of the wrong kind; `Unavailable`: no version left) nothing
    /// changes.
    pub fn apply(&mut self, cmd: AlterPipelineCommand) -> (r: Result<(), SpringError>)
        requires
            old(self).wf(),
        ensures
            final(self).wf(),
            r is Ok <==> command_valid(*old(self), cmd) && options_ok(cmd) && old(self).version.version < u64::MAX,
            r is Ok ==> final(self).version.version == old(self).version.version + 1,
            r is Err ==> final(self).version == old(self).version
                && final(self).streams@ == old(self).streams@
                && final(self).pumps@ == old(self).pumps@
                && final(self).readers@ == old(self).readers@
                && final(self).writers@ == old(self).writers@,
            r matches Err(e) ==> (e == SpringError::Sql <==> !command_valid(*old(self), cmd)),
            r matches Err(e) ==> (e == SpringError::InvalidOption <==> command_valid(*old(self), cmd) && !options_ok(cmd)),
            r matches Err(e) ==> e == SpringError::Sql || e == SpringError::InvalidOption || e == SpringError::Unavailable,
            r is Ok ==> pipeline_added(*old(self), *final(self), cmd),
    {
        let valid = match &cmd {
            AlterPipelineCommand::CreateSourceStream(s) => kind_of(&self.streams, &s.name).is_none(),
            AlterPipelineCommand::CreateStream(s) => kind_of(&self.streams, &s.name).is_none(),
            AlterPipelineCommand::CreateSinkStream(s) => kind_of(&self.streams, &s.name).is_none(),
            AlterPipelineCommand::CreateSourceReader(rd) => match kind_of(&self.streams, &rd.stream) {
                Some(StreamKind::Source) => true,
                _ => false,
            },
            AlterPipelineCommand::CreateSinkWriter(w) => match kind_of(&self.streams, &w.stream) {
                Some(StreamKind::Sink) => true,
                _ => false,
            },
            AlterPipelineCommand::CreatePump(pm) => {
                let up = match kind_of(&self.streams, &pm.upstream) {
                    Some(StreamKind::Sink) | None => false,
                    _ => true,
                };
                let down = match kind_of(&self.streams, &pm.downstream) {
                    Some(StreamKind::Source) | None => false,
                    _ => true,
                };
                let query_ok = match &pm.query {
                    PumpQuery::Window(op) => op.window.is_valid(),
                    PumpQuery::Project { .. } => true,
                };
                up && down && query_ok
            },
        };
        if !valid {
            return Err(SpringError::Sql);
        }
        let options_valid = match &cmd {
            AlterPipelineCommand::CreateSourceStream(s) => s.options.entries.len() == 0,
            AlterPipelineCommand::CreateStream(s) => s.options.entries.len() == 0,
            AlterPipelineCommand::CreateSinkStream(s) => s.options.entries.len() == 0,
            _ => true,
        };
        if !options_valid {
            return Err(SpringError::InvalidOption);
        }
        if self.version.version == u64::MAX {
            return Err(SpringError::Unavailable);
        }
        let ghost ss = self.streams@;
        let ghost ps = self.pumps@;
        match cmd {
            AlterPipelineCommand::CreateSourceStream(s) => self.streams.push((s, StreamKind::Source)),
            AlterPipelineCommand::CreateStream(s) => self.streams.push((s, StreamKind::Intermediate)),
            AlterPipelineCommand::CreateSinkStream(s) => self.streams.push((s, StreamKind::Sink)),
            AlterPipelineCommand::CreateSourceReader(rd) => self.readers.push(rd),
            AlterPipelineCommand::CreateSinkWriter(w) => self.writers.push(w),
            AlterPipelineCommand::CreatePump(pm) => self.pumps.push(pm),
        }
        proof {
            assert forall|i: int| 0 <= i < self.pumps@.len() implies pump_query_ok(#[trigger] self.pumps@[i].query) by {
                if i < ps.len() {
                    assert(self.pumps@[i] == ps[i]);
                }
            }
            if self.streams@.len() > ss.len() {
                let n = ss.len() as int;
                assert forall|i: int| 0 <= i < n implies (#[trigger] ss[i]).0.name@ != self.streams@[n].0.name@ by {
                    assert(self.streams@[i] == ss[i]);
                }
                assert forall|i: int, j: int| 0 <= i < j < self.streams@.len()
                    implies (#[trigger] self.streams@[i]).0.name@ != (#[trigger] self.streams@[j]).0.name@ by {
                    if j == n {
                        assert(self.streams@[i] == ss[i]);
                        assert(ss[i].0.name@ != self.streams@[n].0.name@);
                    } else {
                        assert(self.streams@[i] == ss[i] && self.streams@[j] == ss[j]);
                    }
                }
            }
        }
        self.version.up();
        Ok(())
    }
}

} // verus!
