//! The task graph: streams are nodes, tasks (sources, pumps, sinks) are edges.
use vstd::prelude::*;
use crate::pipeline::{find_stream, Pipeline};

verus! {

/// Identity of a task, stable across pipeline versions: the name of its
/// source reader, pump or sink writer.
#[derive(Clone, Debug, PartialEq, Eq, Hash)]
pub struct TaskId {
    pub name: String,
}

impl TaskId {
    pub fn new(name: String) -> (r: TaskId)
        ensures
            r.name == name,
    {
        TaskId { name }
    }

    pub fn copy_id(&self) -> (r: TaskId)
        ensures
            r == *self,
    {
        TaskId { name: self.name.clone() }
    }

    /// Whether two ids name the same task.
    pub fn same_as(&self, other: &TaskId) -> (r: bool)
        ensures
            r == (self.name@ == other.name@),
    {
        self.name == other.name
    }
}

#[derive(Clone, Copy, Debug, PartialEq, Eq, Structural)]
pub enum TaskKind {
    Source,
    Pump,
    Sink,
}

/// A task as an edge: from its upstream stream (none for a source, which
/// hangs off the virtual root) to its downstream stream (none for a sink).
#[derive(Clone, Debug, PartialEq, Eq)]
pub struct TaskEdge {
    pub id: TaskId,
    pub kind: TaskKind,
    pub upstream: Option<usize>,
    pub downstream: Option<usize>,
}

/// The graph derived from one pipeline version. Edges are ordered stably:
/// sources, then pumps, then sinks, each in registration order.
#[derive(Clone, Debug, PartialEq, Eq)]
pub struct TaskGraph {
    pub n_streams: usize,
    pub edges: Vec<TaskEdge>,
}

/// `end` is the position of the stream named `name`, or none exactly when
/// no stream has that name.
pub open spec fn joins(streams: Seq<(crate::pipeline::StreamModel, crate::pipeline::StreamKind)>, end: Option<usize>, name: Seq<char>) -> bool {
    match end {
        Some(n) => n < streams.len() && streams[n as int].0.name@ == name,
        None => crate::pipeline::stream_kind(streams, name) is None,
    }
}

impl TaskGraph {
    pub open spec fn wf(&self) -> bool {
        forall|i: int| 0 <= i < self.edges@.len() ==> {
            &&& (#[trigger] self.edges@[i]).upstream matches Some(n) ==> n < self.n_streams
            &&& self.edges@[i].downstream matches Some(n) ==> n < self.n_streams
        }
    }

    /// One source task per reader, one pump task per pump, one sink task
    /// per writer, each joined to the streams it reads and writes.
    pub fn from_pipeline(p: &Pipeline) -> (r: TaskGraph)
        ensures
            r.wf(),
            r.n_streams == p.streams@.len(),
            r.edges@.len() == p.readers@.len() + p.pumps@.len() + p.writers@.len(),
            forall|i: int| 0 <= i < p.readers@.len() ==> (#[trigger] r.edges@[i]).kind == TaskKind::Source
                && r.edges@[i].id.name == p.readers@[i].name && r.edges@[i].upstream is None
                && joins(p.streams@, r.edges@[i].downstream, p.readers@[i].stream@),
            forall|i: int| 0 <= i < p.pumps@.len() ==> (#[trigger] r.edges@[p.readers@.len() + i]).kind
                == TaskKind::Pump && r.edges@[p.readers@.len() + i].id.name == p.pumps@[i].name.name
                && joins(p.streams@, r.edges@[p.readers@.len() + i].upstream, p.pumps@[i].upstream@)
                && joins(p.streams@, r.edges@[p.readers@.len() + i].downstream, p.pumps@[i].downstream@),
            forall|i: int| 0 <= i < p.writers@.len() ==> (#[trigger] r.edges@[p.readers@.len() + p.pumps@.len() + i]).kind
                == TaskKind::Sink && r.edges@[p.readers@.len() + p.pumps@.len() + i].id.name == p.writers@[i].name
                && r.edges@[p.readers@.len() + p.pumps@.len() + i].downstream is None
                && joins(p.streams@, r.edges@[p.readers@.len() + p.pumps@.len() + i].upstream, p.writers@[i].stream@),
    {
        let n = p.streams.len();
        let mut edges: Vec<TaskEdge> = Vec::new();
        let mut i: usize = 0;
        while i < p.readers.len()
            invariant
                n == p.streams@.len(),
                0 <= i <= p.readers@.len(),
                edges@.len() == i,
                forall|k: int| 0 <= k < edges@.len() ==> ((#[trigger] edges@[k]).upstream matches Some(x) ==> x < n)
                    && (edges@[k].downstream matches Some(x) ==> x < n),
                forall|k: int| 0 <= k < i ==> (#[trigger] edges@[k]).kind == TaskKind::Source
                    && edges@[k].id.name == p.readers@[k].name && edges@[k].upstream is None
                    && joins(p.streams@, edges@[k].downstream, p.readers@[k].stream@),
            decreases p.readers@.len() - i,
        {
            let rd = &p.readers[i];
            edges.push(TaskEdge {
                id: TaskId { name: rd.name.clone() },
                kind: TaskKind::Source,
                upstream: None,
                downstream: find_stream(&p.streams, &rd.stream),
            });
            i = i + 1;
        }
        let mut i: usize = 0;
        while i < p.pumps.len()
            invariant
                n == p.streams@.len(),
                0 <= i <= p.pumps@.len(),
                edges@.len() == p.readers@.len() + i,
                forall|k: int| 0 <= k < edges@.len() ==> ((#[trigger] edges@[k]).upstream matches Some(x) ==> x < n)
                    && (edges@[k].downstream matches Some(x) ==> x < n),
                forall|k: int| 0 <= k < p.readers@.len() ==> (#[trigger] edges@[k]).kind == TaskKind::Source
                    && edges@[k].id.name == p.readers@[k].name && edges@[k].upstream is None
                    && joins(p.streams@, edges@[k].downstream, p.readers@[k].stream@),
                forall|k: int| 0 <= k < i ==> (#[trigger] edges@[p.readers@.len() + k]).kind == TaskKind::Pump
                    && edges@[p.readers@.len() + k].id.name == p.pumps@[k].name.name
                    && joins(p.streams@, edges@[p.readers@.len() + k].upstream, p.pumps@[k].upstream@)
                    && joins(p.streams@, edges@[p.readers@.len() + k].downstream, p.pumps@[k].downstream@),
            decreases p.pumps@.len() - i,
        {
            let pm = &p.pumps[i];
            edges.push(TaskEdge {
                id: TaskId { name: pm.name.name.clone() },
                kind: TaskKind::Pump,
                upstream: find_stream(&p.streams, &pm.upstream),
                downstream: find_stream(&p.streams, &pm.downstream),
            });
            i = i + 1;
        }
        let mut i: usize = 0;
        while i < p.writers.len()
            invariant
                n == p.streams@.len(),
                0 <= i <= p.writers@.len(),
                edges@.len() == p.readers@.len() + p.pumps@.len() + i,
                forall|k: int| 0 <= k < edges@.len() ==> ((#[trigger] edges@[k]).upstream matches Some(x) ==> x < n)
                    && (edges@[k].downstream matches Some(x) ==> x < n),
                forall|k: int| 0 <= k < p.readers@.len() ==> (#[trigger] edges@[k]).kind == TaskKind::Source
                    && edges@[k].id.name == p.readers@[k].name && edges@[k].upstream is None
                    && joins(p.streams@, edges@[k].downstream, p.readers@[k].stream@),
                forall|k: int| 0 <= k < p.pumps@.len() ==> (#[trigger] edges@[p.readers@.len() + k]).kind == TaskKind::Pump
                    && edges@[p.readers@.len() + k].id.name == p.pumps@[k].name.name
                    && joins(p.streams@, edges@[p.readers@.len() + k].upstream, p.pumps@[k].upstream@)
                    && joins(p.streams@, edges@[p.readers@.len() + k].downstream, p.pumps@[k].downstream@),
                forall|k: int| 0 <= k < i ==> (#[trigger] edges@[p.readers@.len() + p.pumps@.len() + k]).kind
                    == TaskKind::Sink && edges@[p.readers@.len() + p.pumps@.len() + k].id.name == p.writers@[k].name
                    && edges@[p.readers@.len() + p.pumps@.len() + k].downstream is None
                    && joins(p.streams@, edges@[p.readers@.len() + p.pumps@.len() + k].upstream, p.writers@[k].stream@),
            decreases p.writers@.len() - i,
        {
            let w = &p.writers[i];
            edges.push(TaskEdge {
                id: TaskId { name: w.name.clone() },
                kind: TaskKind::Sink,
                upstream: find_stream(&p.streams, &w.stream),
                downstream: None,
            });
            i = i + 1;
        }
        TaskGraph { n_streams: n, edges }
    }
}

} // verus!
