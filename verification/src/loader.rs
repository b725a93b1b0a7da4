//! The batch coordinator: which files wait for their bytes, which batches
//! are being processed, and when everything is done.
//!
//! The coordinator decides; it does not wait. Loading bytes and running a
//! batch in the background are the caller's part: each poll is told how far
//! the byte loading is and which batches have finished, and hands back the
//! batch to start, if there is one.
use crate::document::SourceDocument;
use crate::materialize::{
    batch_materialized, lemma_empty_batch_changes_nothing, AseAssetResources, FileStatus,
};
use crate::processing::FileOutcome;
use crate::processing::ResourceDataByFile;
use vstd::prelude::*;

verus! {

/// How far the loading of a file's bytes is.
#[derive(Debug, Clone, Copy, PartialEq, Eq, Structural)]
pub enum LoadState {
    /// Loading has not begun.
    NotLoaded,
    /// The bytes are on their way.
    Loading,
    /// The bytes are there and decoded.
    Loaded,
    /// The bytes could not be loaded or decoded.
    Failed,
}

/// The document of a sprite file before processing.
///
/// During processing, the document is moved out to be turned into resources.
/// Afterward, `Loaded` is replaced with `Processed`.
pub enum AseData {
    Loaded(SourceDocument),
    Processed,
}

/// A sprite file that was loaded: its path and, until the file is processed,
/// its document.
pub struct AseAsset {
    pub data: AseData,
    pub name: String,
}

impl AseAsset {
    /// Returns a reference to the file's document, if it has not yet been
    /// processed.
    pub fn file(&self) -> (r: Option<&SourceDocument>)
        ensures
            match r {
                Some(doc) => self.data == AseData::Loaded(*doc),
                None => self.data is Processed,
            },
    {
        match &self.data {
            AseData::Loaded(file) => Some(file),
            AseData::Processed => None,
        }
    }
}

/// Where the coordinator stands.
#[derive(Debug, Clone, Copy, PartialEq, Eq, Structural)]
pub enum LoaderState {
    /// No file waits and no batch is in flight.
    Idle,
    /// Files wait for their bytes, or for the next poll to dispatch them.
    AwaitingBytes,
    /// No file waits; batches are in flight, or sit in the outbox until the
    /// next poll drains them.
    Dispatched,
}

/// Keeps track of the files that wait to be processed and of the batches
/// that are being processed.
pub struct Loader {
    /// Handles of the files that were added and not yet dispatched. A handle
    /// is the position of the file in the table of loaded files.
    pub todo_handles: Vec<usize>,
    /// Number of batches that were dispatched and not yet turned into
    /// resources.
    pub in_progress: u32,
}

/// True if loading has come to an end, well or badly.
pub open spec fn settled(state: LoadState) -> bool {
    state is Loaded || state is Failed
}

/// What taking the document of handle `h` does to the table of files: a
/// file that still has its document gives it up with its path and is marked
/// as processed; any other handle changes nothing and gives nothing.
pub open spec fn take_one(assets: Seq<AseAsset>, h: usize) -> (
    Seq<AseAsset>,
    Option<(String, SourceDocument)>,
) {
    if h < assets.len() {
        match assets[h as int].data {
            AseData::Loaded(doc) => (
                assets.update(
                    h as int,
                    AseAsset { data: AseData::Processed, name: assets[h as int].name },
                ),
                Some((assets[h as int].name, doc)),
            ),
            AseData::Processed => (assets, None),
        }
    } else {
        (assets, None)
    }
}

/// What dispatching the handles, one after the other, does to the table of
/// files, and the batch that it gives: the documents taken, in order, each
/// with the path of its file.
pub open spec fn dispatch(handles: Seq<usize>, assets: Seq<AseAsset>) -> (
    Seq<AseAsset>,
    Seq<(String, SourceDocument)>,
)
    decreases handles.len(),
{
    if handles.len() == 0 {
        (assets, Seq::empty())
    } else {
        let before = dispatch(handles.drop_last(), assets);
        let step = take_one(before.0, handles.last());
        (
            step.0,
            match step.1 {
                Some(entry) => before.1.push(entry),
                None => before.1,
            },
        )
    }
}

/// Dispatching keeps the table's length and every file that was processed
/// already; it changes a file only by marking it as processed; and it
/// leaves no file of the given handles with its document.
pub proof fn lemma_dispatch_marks(handles: Seq<usize>, assets: Seq<AseAsset>)
    ensures
        dispatch(handles, assets).0.len() == assets.len(),
        forall|j: int|
            0 <= j < assets.len() ==> (#[trigger] dispatch(handles, assets).0[j]).data is Processed
                || dispatch(handles, assets).0[j] == assets[j],
        forall|j: int|
            0 <= j < assets.len() && assets[j].data is Processed ==> #[trigger] dispatch(
                handles,
                assets,
            ).0[j] == assets[j],
        forall|i: int|
            0 <= i < handles.len() && handles[i] < assets.len() ==> dispatch(
                handles,
                assets,
            ).0[#[trigger] handles[i] as int].data is Processed,
    decreases handles.len(),
{
    if handles.len() > 0 {
        let front = handles.drop_last();
        lemma_dispatch_marks(front, assets);
        let before = dispatch(front, assets);
        let after = dispatch(handles, assets);
        assert(after.0 == take_one(before.0, handles.last()).0);
        assert forall|i: int| 0 <= i < handles.len() && handles[i] < assets.len() implies after.0[
        #[trigger] handles[i] as int].data is Processed by {
            if i < handles.len() - 1 {
                assert(front[i] == handles[i]);
                assert(before.0[front[i] as int].data is Processed);
            }
        }
    }
}

/// Dispatching handles whose files were all processed already changes
/// nothing and gives an empty batch.
pub proof fn lemma_dispatch_processed(handles: Seq<usize>, assets: Seq<AseAsset>)
    requires
        forall|i: int|
            0 <= i < handles.len() && handles[i] < assets.len() ==> assets[#[trigger] handles[i] as int].data is Processed,
    ensures
        dispatch(handles, assets).0 == assets,
        dispatch(handles, assets).1 == Seq::<(String, SourceDocument)>::empty(),
    decreases handles.len(),
{
    if handles.len() > 0 {
        let front = handles.drop_last();
        assert forall|i: int| 0 <= i < front.len() && front[i] < assets.len() implies assets[
        #[trigger] front[i] as int].data is Processed by {
            assert(front[i] == handles[i]);
        }
        lemma_dispatch_processed(front, assets);
        assert(handles.last() == handles[handles.len() - 1]);
    }
}

/// A file is dispatched once: handles that were dispatched before give an
/// empty batch when they are dispatched again, and leave the table as it is.
pub proof fn lemma_dispatch_once(first: Seq<usize>, again: Seq<usize>, assets: Seq<AseAsset>)
    requires
        forall|i: int| 0 <= i < again.len() ==> first.contains(#[trigger] again[i]),
    ensures
        dispatch(again, dispatch(first, assets).0).0 == dispatch(first, assets).0,
        dispatch(again, dispatch(first, assets).0).1 == Seq::<(String, SourceDocument)>::empty(),
{
    lemma_dispatch_marks(first, assets);
    let mid = dispatch(first, assets).0;
    assert forall|i: int| 0 <= i < again.len() && again[i] < mid.len() implies mid[
    #[trigger] again[i] as int].data is Processed by {
        assert(first.contains(again[i]));
        let k = choose|k: int| 0 <= k < first.len() && first[k] == again[i];
        assert(mid[first[k] as int].data is Processed);
    }
    lemma_dispatch_processed(again, mid);
}

/// Puts `value` at position `i` of the vector and hands back what was there.
fn replace_at<T>(v: &mut Vec<T>, i: usize, value: T) -> (previous: T)
    requires
        i < old(v)@.len(),
    ensures
        previous == old(v)@[i as int],
        final(v)@ == old(v)@.update(i as int, value),
{
    v.push(value);
    let previous = v.swap_remove(i);
    assert(v@ =~= old(v)@.update(i as int, value));
    previous
}

impl Loader {
    /// Creates a coordinator without work.
    pub fn new() -> (loader: Self)
        ensures
            loader.todo_handles@.len() == 0,
            loader.in_progress == 0,
            loader.idle(),
    {
        Loader { todo_handles: Vec::new(), in_progress: 0 }
    }

    /// True if no file waits to be dispatched and no batch is in flight.
    pub open spec fn idle(&self) -> bool {
        self.todo_handles@.len() == 0 && self.in_progress == 0
    }

    /// Where the coordinator stands: waiting files come before batches in
    /// flight.
    pub fn state(&self) -> (s: LoaderState)
        ensures
            s == if self.todo_handles@.len() > 0 {
                LoaderState::AwaitingBytes
            } else if self.in_progress > 0 {
                LoaderState::Dispatched
            } else {
                LoaderState::Idle
            },
            s == LoaderState::Idle <==> self.idle(),
    {
        if !self.todo_handles.is_empty() {
            LoaderState::AwaitingBytes
        } else if self.in_progress > 0 {
            LoaderState::Dispatched
        } else {
            LoaderState::Idle
        }
    }

    /// Adds a file to the coordinator for processing.
    pub fn add(&mut self, handle: usize)
        ensures
            final(self).todo_handles@ == old(self).todo_handles@.push(handle),
            final(self).in_progress == old(self).in_progress,
            !final(self).idle(),
    {
        self.todo_handles.push(handle);
    }

    /// Returns the number of batches currently being processed.
    pub fn pending_count(&self) -> (n: u32)
        ensures
            n == self.in_progress,
    {
        self.in_progress
    }

    /// Returns true when no files are loading or being processed.
    pub fn is_loaded(&self) -> (b: bool)
        ensures
            b == self.idle(),
    {
        self.todo_handles.is_empty() && self.pending_count() == 0
    }

    /// True if the loading of every waiting file has come to an end. The
    /// states are those of the waiting files, in the order in which the files
    /// were added; states for another number of files settle nothing.
    pub fn all_todo_handles_ready(&self, states: &Vec<LoadState>) -> (ready: bool)
        ensures
            ready == (states@.len() == self.todo_handles@.len() && forall|i: int|
                0 <= i < states@.len() ==> settled(#[trigger] states@[i])),
    {
        if states.len() != self.todo_handles.len() {
            return false;
        }
        let mut i: usize = 0;
        while i < states.len()
            invariant
                0 <= i <= states@.len(),
                forall|j: int| 0 <= j < i ==> settled(#[trigger] states@[j]),
            decreases states@.len() - i,
        {
            match states[i] {
                LoadState::Loaded => {},
                LoadState::Failed => {},
                _ => {
                    return false;
                },
            }
            i = i + 1;
        }
        true
    }

    /// Dispatches all waiting files as one batch.
    ///
    /// Takes the document out of every waiting file that still has one and
    /// marks the file as processed, so that no file is dispatched twice.
    /// Counts the batch as in flight. Nothing is dispatched while no file
    /// waits, or while the count of batches in flight is at its limit.
    pub fn spawn_tasks(&mut self, aseprites: &mut Vec<AseAsset>) -> (batch: Option<
        Vec<(String, SourceDocument)>,
    >)
        ensures
            match batch {
                Some(inputs) => {
                    &&& old(self).todo_handles@.len() > 0
                    &&& old(self).in_progress < u32::MAX
                    &&& final(self).todo_handles@.len() == 0
                    &&& final(self).in_progress == old(self).in_progress + 1
                    &&& final(aseprites)@ == dispatch(old(self).todo_handles@, old(aseprites)@).0
                    &&& inputs@ == dispatch(old(self).todo_handles@, old(aseprites)@).1
                },
                None => {
                    &&& old(self).todo_handles@.len() == 0 || old(self).in_progress == u32::MAX
                    &&& *final(self) == *old(self)
                    &&& *final(aseprites) == *old(aseprites)
                },
            },
    {
        if self.todo_handles.is_empty() || self.in_progress == u32::MAX {
            return None;
        }
        self.in_progress = self.in_progress + 1;
        let mut handles: Vec<usize> = Vec::new();
        std::mem::swap(&mut handles, &mut self.todo_handles);
        let ghost table = aseprites@;
        let mut ase_files: Vec<(String, SourceDocument)> = Vec::new();
        let mut k: usize = 0;
        assert(handles@.take(0) =~= Seq::empty());
        while k < handles.len()
            invariant
                0 <= k <= handles@.len(),
                aseprites@ == dispatch(handles@.take(k as int), table).0,
                ase_files@ == dispatch(handles@.take(k as int), table).1,
            decreases handles@.len() - k,
        {
            let h = handles[k];
            proof {
                assert(handles@.take(k + 1).drop_last() =~= handles@.take(k as int));
                assert(handles@.take(k + 1).last() == h);
            }
            if h < aseprites.len() {
                let ghost before = aseprites@;
                let blank = AseAsset { data: AseData::Processed, name: String::new() };
                let AseAsset { data, name } = replace_at(aseprites, h, blank);
                match data {
                    AseData::Loaded(doc) => {
                        let path = name.clone();
                        aseprites.set(h, AseAsset { data: AseData::Processed, name });
                        ase_files.push((path, doc));
                        assert(aseprites@ =~= take_one(before, h).0);
                    },
                    AseData::Processed => {
                        aseprites.set(h, AseAsset { data, name });
                        assert(aseprites@ =~= before);
                    },
                }
            }
            k = k + 1;
        }
        assert(handles@.take(handles@.len() as int) =~= handles@);
        Some(ase_files)
    }

    /// The batches that have finished, if the outbox could be looked into
    /// and holds any: `None` stands for an outbox that is in use elsewhere.
    pub fn take_finished(outbox: Option<Vec<ResourceDataByFile>>) -> (finished: Option<
        Vec<ResourceDataByFile>,
    >)
        ensures
            finished == match outbox {
                Some(results) => if results@.len() == 0 {
                    None
                } else {
                    Some(results)
                },
                None => None,
            },
    {
        match outbox {
            Some(results) => {
                if results.is_empty() {
                    None
                } else {
                    Some(results)
                }
            },
            None => None,
        }
    }

    /// Turns the finished batches into resources, one after the other, and
    /// counts each as no longer in flight, whatever became of its files.
    /// Returns the report of each batch.
    pub fn move_finished_into_resources(
        &mut self,
        outbox: Option<Vec<ResourceDataByFile>>,
        resources: &mut AseAssetResources,
    ) -> (reports: Vec<Vec<FileStatus>>)
        ensures
            final(self).todo_handles == old(self).todo_handles,
            drained(*old(self), *final(self), *old(resources), *final(resources), outbox, reports@),
    {
        let ghost pre = *resources;
        let mut reports: Vec<Vec<FileStatus>> = Vec::new();
        let ghost mut states: Seq<AseAssetResources> = seq![pre];
        match Self::take_finished(outbox) {
            Some(finished) => {
                let ghost all = finished@;
                let ghost start = self.in_progress;
                for ase in it: finished
                    invariant
                        it.seq() == all,
                        reports@.len() == it.index(),
                        states.len() == it.index() + 1,
                        states[0] == pre,
                        states.last() == *resources,
                        self.todo_handles == old(self).todo_handles,
                        self.in_progress == remaining(start, it.index() as int),
                        forall|i: int|
                            0 <= i < it.index() ==> batch_materialized(
                                states[i],
                                states[i + 1],
                                (#[trigger] all[i]).0@,
                                reports@[i]@,
                            ),
                {
                    let report = ase.move_into_resources(resources);
                    reports.push(report);
                    if self.in_progress > 0 {
                        self.in_progress = self.in_progress - 1;
                    }
                    proof {
                        states = states.push(*resources);
                    }
                }
                proof {
                    assert(batches_of(outbox) == all);
                    assert(drain_trace(states, batches_of(outbox), reports@));
                }
            },
            None => {
                proof {
                    assert(batches_of(outbox) =~= Seq::empty());
                    assert(drain_trace(states, batches_of(outbox), reports@));
                }
            },
        }
        reports
    }
}

/// The count of batches in flight after `finished` of them were drained.
pub open spec fn remaining(in_progress: u32, finished: int) -> u32 {
    if finished >= in_progress {
        0
    } else {
        (in_progress - finished) as u32
    }
}

/// The batches that a poll drains from the outbox: all of them, or none if
/// the outbox is in use elsewhere.
pub open spec fn batches_of(outbox: Option<Vec<ResourceDataByFile>>) -> Seq<ResourceDataByFile> {
    match outbox {
        Some(results) => results@,
        None => Seq::empty(),
    }
}

/// True if `states` are the stores before the first batch, between the
/// batches, and after the last, as the batches are turned into resources one
/// after the other with the given reports.
pub open spec fn drain_trace(
    states: Seq<AseAssetResources>,
    batches: Seq<ResourceDataByFile>,
    reports: Seq<Vec<FileStatus>>,
) -> bool {
    &&& states.len() == batches.len() + 1
    &&& reports.len() == batches.len()
    &&& forall|i: int|
        0 <= i < batches.len() ==> batch_materialized(
            states[i],
            states[i + 1],
            (#[trigger] batches[i]).0@,
            reports[i]@,
        )
}

/// True if draining the outbox takes the coordinator from `before` to
/// `after` and the stores from `pre` to `post`, with the given reports: each
/// batch of the outbox is turned into resources, in order, and is counted as
/// no longer in flight.
pub open spec fn drained(
    before: Loader,
    after: Loader,
    pre: AseAssetResources,
    post: AseAssetResources,
    outbox: Option<Vec<ResourceDataByFile>>,
    reports: Seq<Vec<FileStatus>>,
) -> bool {
    &&& after.in_progress == remaining(before.in_progress, batches_of(outbox).len() as int)
    &&& exists|states: Seq<AseAssetResources>|
        #![trigger drain_trace(states, batches_of(outbox), reports)]
        drain_trace(states, batches_of(outbox), reports) && states[0] == pre && states.last()
            == post
}

/// True if a poll dispatches: the loading of every waiting file has come to
/// an end, there is a file waiting, and the count of batches in flight is
/// below its limit.
pub open spec fn dispatches(loader: Loader, states: Seq<LoadState>) -> bool {
    dispatches_from(loader.todo_handles@, loader.in_progress, states)
}

/// The coordinator after the dispatching part of a poll.
pub open spec fn after_dispatch(loader: Loader, states: Seq<LoadState>, after: Loader) -> bool {
    if dispatches(loader, states) {
        after.todo_handles@.len() == 0 && after.in_progress == loader.in_progress + 1
    } else {
        after.todo_handles == loader.todo_handles && after.in_progress == loader.in_progress
    }
}

/// Advances the pipeline by one step, without waiting for anything.
///
/// If the loading of all waiting files has come to an end, dispatches them
/// as one batch: the batch is handed back for the caller to process in the
/// background, and counts as in flight. Then turns the batches of the outbox
/// into resources and counts each as done; `None` stands for an outbox that
/// is in use elsewhere, which is left for the next poll.
///
/// The coordinator is idle after the poll only if no file is left waiting
/// and every batch in flight was in the outbox.
pub fn ase_importer(
    loader: &mut Loader,
    states: &Vec<LoadState>,
    aseassets: &mut Vec<AseAsset>,
    outbox: Option<Vec<ResourceDataByFile>>,
    resources: &mut AseAssetResources,
) -> (r: (Option<Vec<(String, SourceDocument)>>, Vec<Vec<FileStatus>>))
    ensures
        r.0 is Some == dispatches(*old(loader), states@),
        match r.0 {
            Some(inputs) => {
                &&& final(aseassets)@ == dispatch(old(loader).todo_handles@, old(aseassets)@).0
                &&& inputs@ == dispatch(old(loader).todo_handles@, old(aseassets)@).1
            },
            None => *final(aseassets) == *old(aseassets),
        },
        exists|mid: Loader|
            #![trigger after_dispatch(*old(loader), states@, mid)]
            after_dispatch(*old(loader), states@, mid) && mid.todo_handles == final(loader).todo_handles && drained(
                mid,
                *final(loader),
                *old(resources),
                *final(resources),
                outbox,
                r.1@,
            ),
        final(loader).idle() ==> batches_of(outbox).len() >= old(loader).in_progress + (if dispatches(
            *old(loader),
            states@,
        ) {
            1int
        } else {
            0int
        }) && (old(loader).todo_handles@.len() == 0 || dispatches(*old(loader), states@)),
{
    let batch = if loader.all_todo_handles_ready(states) {
        loader.spawn_tasks(aseassets)
    } else {
        None
    };
    let ghost mid = *loader;
    let reports = loader.move_finished_into_resources(outbox, resources);
    proof {
        assert(after_dispatch(*old(loader), states@, mid));
    }
    (batch, reports)
}

/// The coordinator is idle after a poll only if the poll left no file
/// waiting and found every batch in flight, the one that it dispatched
/// included, among the finished ones.
pub proof fn lemma_idle_only_when_settled(
    before: Loader,
    states: Seq<LoadState>,
    mid: Loader,
    after: Loader,
    pre: AseAssetResources,
    post: AseAssetResources,
    outbox: Option<Vec<ResourceDataByFile>>,
    reports: Seq<Vec<FileStatus>>,
)
    requires
        after_dispatch(before, states, mid),
        mid.todo_handles == after.todo_handles,
        drained(mid, after, pre, post, outbox, reports),
        after.idle(),
    ensures
        before.todo_handles@.len() == 0 || dispatches(before, states),
        batches_of(outbox).len() >= before.in_progress + if dispatches(before, states) {
            1int
        } else {
            0int
        },
{
}

/// One thing that happens to the coordinator.
pub enum LoaderEvent {
    /// A file is added.
    Add { handle: usize },
    /// A poll, told how far the loading of the waiting files is, which finds
    /// `finished` batches in the outbox.
    Poll { states: Seq<LoadState>, finished: nat },
}

/// The books of the coordinator over a run of events: what it holds, and
/// besides that the handles that were added and those that were dispatched,
/// each in order, and the numbers of batches dispatched and drained.
pub struct Books {
    pub todo: Seq<usize>,
    pub in_progress: u32,
    pub submitted: Seq<usize>,
    pub dispatched: Seq<usize>,
    pub batches_dispatched: nat,
    pub batches_drained: nat,
}

/// True if a poll dispatches, for a coordinator that holds the given handles
/// and count.
pub open spec fn dispatches_from(todo: Seq<usize>, in_progress: u32, states: Seq<LoadState>) -> bool {
    &&& states.len() == todo.len()
    &&& forall|i: int| 0 <= i < states.len() ==> settled(#[trigger] states[i])
    &&& todo.len() > 0
    &&& in_progress < u32::MAX
}

/// The books after one more event.
pub open spec fn after_event(b: Books, e: LoaderEvent) -> Books {
    match e {
        LoaderEvent::Add { handle } => Books {
            todo: b.todo.push(handle),
            submitted: b.submitted.push(handle),
            ..b
        },
        LoaderEvent::Poll { states, finished } => {
            let dispatching = dispatches_from(b.todo, b.in_progress, states);
            let in_flight = if dispatching {
                (b.in_progress + 1) as u32
            } else {
                b.in_progress
            };
            Books {
                todo: if dispatching {
                    Seq::empty()
                } else {
                    b.todo
                },
                in_progress: remaining(in_flight, finished as int),
                submitted: b.submitted,
                dispatched: if dispatching {
                    b.dispatched + b.todo
                } else {
                    b.dispatched
                },
                batches_dispatched: if dispatching {
                    b.batches_dispatched + 1
                } else {
                    b.batches_dispatched
                },
                batches_drained: (b.batches_drained + in_flight - remaining(
                    in_flight,
                    finished as int,
                )) as nat,
            }
        },
    }
}

/// The books of a new coordinator after a run of events.
pub open spec fn books_after(events: Seq<LoaderEvent>) -> Books
    decreases events.len(),
{
    if events.len() == 0 {
        Books {
            todo: Seq::empty(),
            in_progress: 0,
            submitted: Seq::empty(),
            dispatched: Seq::empty(),
            batches_dispatched: 0,
            batches_drained: 0,
        }
    } else {
        after_event(books_after(events.drop_last()), events.last())
    }
}

/// The books are kept as the coordinator does: adding a file does to the
/// coordinator what the event `Add` does to the books.
pub proof fn lemma_add_keeps_books(b: Books, before: Loader, after: Loader, handle: usize)
    requires
        b.todo == before.todo_handles@,
        b.in_progress == before.in_progress,
        after.todo_handles@ == before.todo_handles@.push(handle),
        after.in_progress == before.in_progress,
    ensures
        after_event(b, LoaderEvent::Add { handle }).todo == after.todo_handles@,
        after_event(b, LoaderEvent::Add { handle }).in_progress == after.in_progress,
{
}

/// The books are kept as the coordinator does: a poll does to the
/// coordinator what the event `Poll` does to the books.
pub proof fn lemma_poll_keeps_books(
    b: Books,
    before: Loader,
    states: Seq<LoadState>,
    mid: Loader,
    after: Loader,
    pre: AseAssetResources,
    post: AseAssetResources,
    outbox: Option<Vec<ResourceDataByFile>>,
    reports: Seq<Vec<FileStatus>>,
)
    requires
        b.todo == before.todo_handles@,
        b.in_progress == before.in_progress,
        after_dispatch(before, states, mid),
        mid.todo_handles == after.todo_handles,
        drained(mid, after, pre, post, outbox, reports),
    ensures
        after_event(
            b,
            LoaderEvent::Poll { states, finished: batches_of(outbox).len() },
        ).todo == after.todo_handles@,
        after_event(
            b,
            LoaderEvent::Poll { states, finished: batches_of(outbox).len() },
        ).in_progress == after.in_progress,
{
    assert(dispatches(before, states) == dispatches_from(b.todo, b.in_progress, states));
    if dispatches(before, states) {
        assert(after.todo_handles@ =~= Seq::<usize>::empty());
    }
}

/// Over every run of events, the books balance: what was added is what was
/// dispatched and what still waits, in order; and the batches in flight are
/// those dispatched and not yet drained.
pub proof fn lemma_books_balance(events: Seq<LoaderEvent>)
    ensures
        books_after(events).submitted == books_after(events).dispatched + books_after(events).todo,
        books_after(events).in_progress == books_after(events).batches_dispatched - books_after(
            events,
        ).batches_drained,
    decreases events.len(),
{
    if events.len() == 0 {
        assert(books_after(events).submitted =~= books_after(events).dispatched + books_after(
            events,
        ).todo);
    } else {
        let before = books_after(events.drop_last());
        let after = books_after(events);
        lemma_books_balance(events.drop_last());
        assert(after == after_event(before, events.last()));
        assert(after.submitted =~= after.dispatched + after.todo);
    }
}

/// The coordinator is idle after a run of events only if every file that was
/// added has been dispatched and every batch that was dispatched has been
/// drained: turned into resources, or found to have failed.
pub proof fn lemma_idle_after_run(events: Seq<LoaderEvent>)
    requires
        books_after(events).todo.len() == 0,
        books_after(events).in_progress == 0,
    ensures
        books_after(events).dispatched == books_after(events).submitted,
        books_after(events).batches_drained == books_after(events).batches_dispatched,
{
    lemma_books_balance(events);
    let b = books_after(events);
    assert(b.dispatched + b.todo =~= b.dispatched);
}

/// A file that is submitted again is not processed again: handles that were
/// dispatched before give a batch without files, the table of files stays as
/// it is, and turning that batch into resources changes neither the stores
/// nor the index.
pub proof fn lemma_resubmitted_files_change_nothing(
    first: Seq<usize>,
    again: Seq<usize>,
    assets: Seq<AseAsset>,
    pre: AseAssetResources,
    post: AseAssetResources,
    outcomes: Seq<FileOutcome>,
    report: Seq<FileStatus>,
)
    requires
        forall|i: int| 0 <= i < again.len() ==> first.contains(#[trigger] again[i]),
        outcomes.len() == dispatch(again, dispatch(first, assets).0).1.len(),
        batch_materialized(pre, post, outcomes, report),
    ensures
        dispatch(again, dispatch(first, assets).0).0 == dispatch(first, assets).0,
        outcomes.len() == 0,
        post == pre,
{
    lemma_dispatch_once(first, again, assets);
    assert(outcomes =~= Seq::<FileOutcome>::empty());
    lemma_empty_batch_changes_nothing(pre, post, report);
}

} // verus!
