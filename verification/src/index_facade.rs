//! The cutover orchestrator.
//!
//! A run is a dialogue. The facade hands out an action; the caller carries it
//! out against the source of record or the search engine and hands back the
//! event that tells how it went; the facade answers with the next action.
//! The facade itself performs no input or output.
//!
//! A run first resolves the alias. Where no index carries it, or where the
//! index that carries it was built for another structural definition, a new
//! physical index is created, filled from the first key on by writes that go
//! to its physical name, and only then given the alias in one swap; an old
//! index is dropped after the swap. Where the index is up to date, the run
//! writes through the alias from the watermark it was started with. An alias
//! on more than one index halts the run before anything is written.

use crate::bulk::{
    bulk_call, committed, failed_operations, retry, retry_call, upserts_of, BulkCall, BulkRequest,
    Upsert,
};
use crate::cursor::{
    ascending, highest_last_key, lemma_owed_wave_is_accepted, wave_of, CursorState, ExportCursor,
    FetchWindow,
};
use crate::error::{ElasticError, Halt, Stage, SyncError};
use crate::index_definition::IndexDefinition;
use crate::index_repository::{
    after_create, after_delete, after_swap, carriers, current_index, distinct_names, has_index,
    lemma_carriers_members, lemma_create_keeps_carriers, lemma_cutover_keeps_one_owner,
    lemma_delete_keeps_carriers, name_view, swap_allowed, IndexEntry, IndexRepository,
};
use crate::product_index::{Document, ProductExportData};
use crate::store::documents_of;
use crate::text::same_text;
use vstd::prelude::*;
use vstd::string::*;

verus! {

/// Where a run stands: which event it waits for, or how it ended.
#[derive(Debug, Clone, Copy, PartialEq, Eq, Structural)]
pub enum Phase {
    /// Waits for the resolution of the alias.
    Unresolved,
    /// Waits for the creation of the new physical index.
    Creating,
    /// Waits for the pages of a wave.
    Fetching,
    /// Waits for the statuses of the bulk calls in flight.
    Writing,
    /// Waits for the swap of the alias.
    Swapping,
    /// Waits for the removal of the old index.
    Retiring,
    /// The run is complete.
    Done,
    /// The run has halted on an error.
    Halted,
}

/// What the caller is to do next, as contracts see it.
pub enum Command {
    ResolveAlias { alias: Seq<char> },
    CreateIndex { name: Seq<char> },
    FetchWave { windows: Seq<FetchWindow>, domain_id: int },
    WriteWave { calls: Seq<BulkCall> },
    SwapAlias { alias: Seq<char>, from: Option<Seq<char>>, to: Seq<char> },
    DeleteIndex { name: Seq<char> },
    Finish { watermark: int },
    Halt(Halt),
}

/// What the caller is to do next.
#[derive(Debug)]
pub enum Action {
    /// Ask the engine which indices carry the alias.
    ResolveAlias { alias: String },
    /// Create a physical index of that name from the structural definition.
    CreateIndex { name: String },
    /// Fetch and enrich one page for every window, on the given domain.
    FetchWave { windows: Vec<FetchWindow>, domain_id: u8 },
    /// Submit every bulk call.
    WriteWave { requests: Vec<BulkRequest> },
    /// In a single request, take the alias from `from` and give it to `to`.
    SwapAlias { alias: String, from: Option<String>, to: String },
    /// Drop the physical index of that name.
    DeleteIndex { name: String },
    /// Nothing more: the run is complete, with this watermark.
    Finish { watermark: u32 },
    /// Nothing more: the run has halted.
    Halt(Halt),
}

impl DeepView for Action {
    type V = Command;

    open spec fn deep_view(&self) -> Command {
        match self {
            Action::ResolveAlias { alias } => Command::ResolveAlias { alias: alias@ },
            Action::CreateIndex { name } => Command::CreateIndex { name: name@ },
            Action::FetchWave { windows, domain_id } => Command::FetchWave {
                windows: windows@,
                domain_id: *domain_id as int,
            },
            Action::WriteWave { requests } => Command::WriteWave { calls: requests.deep_view() },
            Action::SwapAlias { alias, from, to } => Command::SwapAlias {
                alias: alias@,
                from: from.deep_view(),
                to: to@,
            },
            Action::DeleteIndex { name } => Command::DeleteIndex { name: name@ },
            Action::Finish { watermark } => Command::Finish { watermark: *watermark as int },
            Action::Halt(halt) => Command::Halt(*halt),
        }
    }
}

/// How an action went, as contracts see it.
pub enum Signal {
    AliasResolved(Result<Seq<char>, ElasticError>),
    IndexCreated(bool),
    WaveFetched(Option<Seq<Seq<Document>>>),
    WaveWritten(Seq<Seq<u16>>),
    AliasSwapped(bool),
    IndexDeleted(bool),
}

/// How an action went.
#[derive(Debug)]
pub enum Event {
    /// The answer of the alias resolver.
    AliasResolved(Result<String, ElasticError>),
    /// Whether the new index was created.
    IndexCreated(bool),
    /// The documents of the wave, one page for each window and in the order
    /// of the windows; `None` where fetching or enriching failed.
    WaveFetched(Option<Vec<Vec<ProductExportData>>>),
    /// For each bulk call, in the order of the calls, the statuses of its
    /// operations. A call that got no answer has no statuses.
    WaveWritten(Vec<Vec<u16>>),
    /// Whether the alias was swapped.
    AliasSwapped(bool),
    /// Whether the old index was dropped.
    IndexDeleted(bool),
}

impl DeepView for Event {
    type V = Signal;

    open spec fn deep_view(&self) -> Signal {
        match self {
            Event::AliasResolved(answer) => Signal::AliasResolved(name_view(*answer)),
            Event::IndexCreated(created) => Signal::IndexCreated(*created),
            Event::WaveFetched(pages) => Signal::WaveFetched(pages.deep_view()),
            Event::WaveWritten(statuses) => Signal::WaveWritten(statuses.deep_view()),
            Event::AliasSwapped(swapped) => Signal::AliasSwapped(*swapped),
            Event::IndexDeleted(deleted) => Signal::IndexDeleted(*deleted),
        }
    }
}

/// The keys of the documents of a wave, page by page.
pub open spec fn wave_keys(pages: Seq<Seq<Document>>) -> Seq<Seq<i32>> {
    Seq::new(pages.len(), |n: int| page_keys(pages[n]))
}

/// The keys of the documents of a page.
pub open spec fn page_keys(page: Seq<Document>) -> Seq<i32> {
    Seq::new(page.len(), |i: int| page[i].id as i32)
}

/// The bulk calls of a wave: one for each page that holds a document, in the
/// order of the pages.
pub open spec fn wave_calls(target: Seq<char>, pages: Seq<Seq<Document>>) -> Seq<BulkCall>
    decreases pages.len(),
{
    if pages.len() == 0 {
        Seq::empty()
    } else {
        match bulk_call(target, pages.last()) {
            Some(call) => wave_calls(target, pages.drop_last()).push(call),
            None => wave_calls(target, pages.drop_last()),
        }
    }
}

/// The statuses that answer the call at `position`: none where the engine's
/// answer does not reach that far.
pub open spec fn statuses_at(statuses: Seq<Seq<u16>>, position: int) -> Seq<u16> {
    if 0 <= position < statuses.len() {
        statuses[position]
    } else {
        Seq::empty()
    }
}

/// The calls that try again what the calls in flight did not get committed:
/// for each call its failed operations, and no call where none failed.
pub open spec fn wave_retries(pending: Seq<BulkCall>, statuses: Seq<Seq<u16>>) -> Seq<BulkCall>
    decreases pending.len(),
{
    if pending.len() == 0 {
        Seq::empty()
    } else {
        match retry_call(pending.last(), statuses_at(statuses, pending.len() - 1)) {
            Some(call) => wave_retries(pending.drop_last(), statuses).push(call),
            None => wave_retries(pending.drop_last(), statuses),
        }
    }
}

/// A run, as contracts see it.
pub struct FacadeState {
    pub phase: Phase,
    /// The alias of the index identity.
    pub alias: Seq<char>,
    /// The domain whose entities are exported.
    pub domain_id: int,
    /// The physical name for the current structural definition.
    pub new_index: Seq<char>,
    /// The index that carried the alias when the run began and is to be
    /// replaced.
    pub old_index: Option<Seq<char>>,
    /// Whether the run fills a new physical index.
    pub backfill: bool,
    /// The position up to which batches are committed.
    pub cursor: CursorState,
    /// The cursor once the wave in flight is committed.
    pub next_cursor: CursorState,
    /// Whether the wave in flight ends the stream.
    pub wave_ends: bool,
    /// How often one wave may be submitted.
    pub max_attempts: int,
    /// How often the wave in flight has been submitted.
    pub attempts: int,
    /// The bulk calls in flight.
    pub pending: Seq<BulkCall>,
    /// The error that halted the run.
    pub halt: Option<Halt>,
}

impl FacadeState {
    /// The name that writes go to: the physical name of the index under
    /// construction, or the alias where the run writes to an index in use.
    pub open spec fn write_target(self) -> Seq<char> {
        if self.backfill {
            self.new_index
        } else {
            self.alias
        }
    }

    pub open spec fn fetch_command(self) -> Command {
        Command::FetchWave { windows: self.cursor.windows(), domain_id: self.domain_id }
    }

    /// The run halted at `stage`, and the command that says so.
    pub open spec fn halted(self, error: SyncError, stage: Stage) -> (FacadeState, Command) {
        let halt = Halt { error, stage, watermark: self.cursor.watermark as u32 };
        (
            FacadeState { phase: Phase::Halted, halt: Some(halt), pending: Seq::empty(), ..self },
            Command::Halt(halt),
        )
    }

    /// The run begins to fill a new physical index from the first key on.
    pub open spec fn begin_backfill(self, old_index: Option<Seq<char>>) -> (FacadeState, Command) {
        (
            FacadeState {
                phase: Phase::Creating,
                old_index,
                backfill: true,
                cursor: CursorState { watermark: 0, ..self.cursor },
                ..self
            },
            Command::CreateIndex { name: self.new_index },
        )
    }

    /// The answer of the resolver decides the path. A missing alias and a
    /// stale index lead to a backfill, an index that is up to date to writes
    /// through the alias, and every other answer to a halt.
    pub open spec fn on_resolved(self, answer: Result<Seq<char>, ElasticError>) -> (
        FacadeState,
        Command,
    ) {
        match answer {
            Err(ElasticError::NoAlias) => self.begin_backfill(None),
            Err(error) => self.halted(SyncError::Alias(error), Stage::Resolve),
            Ok(name) => if name == self.new_index {
                (
                    FacadeState { phase: Phase::Fetching, backfill: false, ..self },
                    self.fetch_command(),
                )
            } else {
                self.begin_backfill(Some(name))
            },
        }
    }

    pub open spec fn on_created(self, created: bool) -> (FacadeState, Command) {
        if created {
            (FacadeState { phase: Phase::Fetching, ..self }, self.fetch_command())
        } else {
            self.halted(SyncError::IndexCreateFailure, Stage::Create)
        }
    }

    /// What follows the last wave: the swap of the alias after a backfill,
    /// the end of the run otherwise.
    pub open spec fn after_last_wave(self) -> (FacadeState, Command) {
        if self.backfill {
            (
                FacadeState { phase: Phase::Swapping, pending: Seq::empty(), ..self },
                Command::SwapAlias { alias: self.alias, from: self.old_index, to: self.new_index },
            )
        } else {
            (
                FacadeState { phase: Phase::Done, pending: Seq::empty(), ..self },
                Command::Finish { watermark: self.cursor.watermark },
            )
        }
    }

    /// The wave in flight is committed: the watermark moves, and the run
    /// fetches the next wave or, after the last one, goes on to the swap or
    /// to its end.
    pub open spec fn commit(self) -> (FacadeState, Command) {
        let moved = FacadeState { cursor: self.next_cursor, pending: Seq::empty(), ..self };
        if self.wave_ends {
            moved.after_last_wave()
        } else {
            (FacadeState { phase: Phase::Fetching, ..moved }, moved.fetch_command())
        }
    }

    /// The pages of a wave have arrived. Pages that the cursor does not
    /// accept, and a fetch that failed, halt the run where it stands. A wave
    /// without any document is committed at once.
    pub open spec fn on_fetched(self, pages: Option<Seq<Seq<Document>>>) -> (FacadeState, Command) {
        match pages {
            None => self.halted(SyncError::FetchFailure, Stage::Fetch),
            Some(pages) => {
                let keys = wave_keys(pages);
                if !self.cursor.accepts(keys) {
                    self.halted(SyncError::FetchFailure, Stage::Fetch)
                } else {
                    let calls = wave_calls(self.write_target(), pages);
                    let taken = FacadeState {
                        next_cursor: self.cursor.advance(keys),
                        wave_ends: self.cursor.finished(keys),
                        ..self
                    };
                    if calls.len() == 0 {
                        taken.commit()
                    } else {
                        (
                            FacadeState {
                                phase: Phase::Writing,
                                pending: calls,
                                attempts: 1,
                                ..taken
                            },
                            Command::WriteWave { calls },
                        )
                    }
                }
            },
        }
    }

    /// The statuses of the calls in flight have arrived. Where nothing
    /// failed the wave is committed. Otherwise the failed operations, and
    /// only those, are submitted again, until the attempts are used up: then
    /// the run halts, and the watermark stays where it was.
    pub open spec fn on_written(self, statuses: Seq<Seq<u16>>) -> (FacadeState, Command) {
        let retries = wave_retries(self.pending, statuses);
        if retries.len() == 0 {
            self.commit()
        } else if self.attempts < self.max_attempts {
            (
                FacadeState { pending: retries, attempts: self.attempts + 1, ..self },
                Command::WriteWave { calls: retries },
            )
        } else {
            self.halted(SyncError::WriteFailure, Stage::Write)
        }
    }

    pub open spec fn on_swapped(self, swapped: bool) -> (FacadeState, Command) {
        if !swapped {
            self.halted(SyncError::AliasSwapFailure, Stage::Swap)
        } else {
            match self.old_index {
                Some(old) => (
                    FacadeState { phase: Phase::Retiring, ..self },
                    Command::DeleteIndex { name: old },
                ),
                None => (
                    FacadeState { phase: Phase::Done, ..self },
                    Command::Finish { watermark: self.cursor.watermark },
                ),
            }
        }
    }

    pub open spec fn on_deleted(self, deleted: bool) -> (FacadeState, Command) {
        if deleted {
            (
                FacadeState { phase: Phase::Done, ..self },
                Command::Finish { watermark: self.cursor.watermark },
            )
        } else {
            self.halted(SyncError::IndexDeleteFailure, Stage::Retire)
        }
    }

    /// The stage that the run is at.
    pub open spec fn stage(self) -> Stage {
        match self.phase {
            Phase::Unresolved => Stage::Resolve,
            Phase::Creating => Stage::Create,
            Phase::Fetching => Stage::Fetch,
            Phase::Writing => Stage::Write,
            Phase::Swapping => Stage::Swap,
            Phase::Retiring => Stage::Retire,
            Phase::Done => Stage::Retire,
            Phase::Halted => Stage::Resolve,
        }
    }

    /// The command that a run at rest answers with: a run that is done says
    /// so again, and so does a run that has halted.
    pub open spec fn at_rest(self) -> (FacadeState, Command) {
        match self.halt {
            Some(halt) => (self, Command::Halt(halt)),
            None => (self, Command::Finish { watermark: self.cursor.watermark }),
        }
    }

    /// One step of the dialogue: the state after `signal` and the next
    /// command. A signal that does not answer the last command halts the run.
    pub open spec fn step(self, signal: Signal) -> (FacadeState, Command) {
        match (self.phase, signal) {
            (Phase::Done, _) => self.at_rest(),
            (Phase::Halted, _) => self.at_rest(),
            (Phase::Unresolved, Signal::AliasResolved(answer)) => self.on_resolved(answer),
            (Phase::Creating, Signal::IndexCreated(created)) => self.on_created(created),
            (Phase::Fetching, Signal::WaveFetched(pages)) => self.on_fetched(pages),
            (Phase::Writing, Signal::WaveWritten(statuses)) => self.on_written(statuses),
            (Phase::Swapping, Signal::AliasSwapped(swapped)) => self.on_swapped(swapped),
            (Phase::Retiring, Signal::IndexDeleted(deleted)) => self.on_deleted(deleted),
            _ => self.halted(SyncError::UnexpectedEvent, self.stage()),
        }
    }

    /// The state in which a run begins.
    pub open spec fn initial(
        alias: Seq<char>,
        domain_id: int,
        new_index: Seq<char>,
        cursor: CursorState,
        max_attempts: int,
    ) -> FacadeState {
        FacadeState {
            phase: Phase::Unresolved,
            alias,
            domain_id,
            new_index,
            old_index: None,
            backfill: false,
            cursor,
            next_cursor: cursor,
            wave_ends: false,
            max_attempts,
            attempts: 0,
            pending: Seq::empty(),
            halt: None,
        }
    }
}


/// The keys of the documents of a wave, page by page.
fn keys_of_wave(pages: &Vec<Vec<ProductExportData>>) -> (keys: Vec<Vec<i32>>)
    ensures
        keys.deep_view() == wave_keys(pages.deep_view()),
{
    let mut keys: Vec<Vec<i32>> = Vec::new();
    let mut n: usize = 0;
    while n < pages.len()
        invariant
            n <= pages.len(),
            keys@.len() == n,
            forall|k: int|
                0 <= k < n ==> (#[trigger] keys@[k])@ == page_keys(pages@[k].deep_view()),
        decreases pages.len() - n,
    {
        let page = &pages[n];
        let mut page_ids: Vec<i32> = Vec::new();
        let mut i: usize = 0;
        while i < page.len()
            invariant
                i <= page.len(),
                page_ids@.len() == i,
                forall|j: int| 0 <= j < i ==> page_ids@[j] == page@[j].id,
            decreases page.len() - i,
        {
            page_ids.push(page[i].id);
            i = i + 1;
        }
        assert(page_ids@ =~= page_keys(page.deep_view()));
        keys.push(page_ids);
        n = n + 1;
    }
    assert forall|k: int| 0 <= k < keys@.len() implies #[trigger] keys.deep_view()[k]
        == wave_keys(pages.deep_view())[k] by {
        assert(keys@[k].deep_view() =~= keys@[k]@);
        assert(pages.deep_view()[k] == pages@[k].deep_view());
    }
    assert(keys.deep_view() =~= wave_keys(pages.deep_view()));
    keys
}

/// The bulk calls of a wave.
fn requests_of_wave(target: &str, pages: &Vec<Vec<ProductExportData>>) -> (requests: Vec<
    BulkRequest,
>)
    ensures
        requests.deep_view() == wave_calls(target@, pages.deep_view()),
{
    let ghost all = pages.deep_view();
    let mut requests: Vec<BulkRequest> = Vec::new();
    let mut n: usize = 0;
    while n < pages.len()
        invariant
            n <= pages.len(),
            all == pages.deep_view(),
            requests.deep_view() == wave_calls(target@, all.take(n as int)),
        decreases pages.len() - n,
    {
        assert(all.take(n as int + 1).drop_last() =~= all.take(n as int));
        assert(all.take(n as int + 1).last() == pages@[n as int].deep_view());
        match crate::bulk::write(target, &pages[n]) {
            Some(request) => {
                let ghost before = requests.deep_view();
                let ghost call = request.deep_view();
                requests.push(request);
                assert(requests.deep_view() =~= before.push(call));
            },
            None => {},
        }
        n = n + 1;
    }
    assert(all.take(n as int) =~= all);
    requests
}

/// The calls that try the failed operations of the calls in flight again.
fn retries_of_wave(pending: &Vec<BulkRequest>, statuses: &Vec<Vec<u16>>) -> (retries: Vec<
    BulkRequest,
>)
    ensures
        retries.deep_view() == wave_retries(pending.deep_view(), statuses.deep_view()),
{
    let ghost all = pending.deep_view();
    let none: Vec<u16> = Vec::new();
    let mut retries: Vec<BulkRequest> = Vec::new();
    let mut n: usize = 0;
    while n < pending.len()
        invariant
            n <= pending.len(),
            all == pending.deep_view(),
            none@.len() == 0,
            retries.deep_view() == wave_retries(all.take(n as int), statuses.deep_view()),
        decreases pending.len() - n,
    {
        assert(all.take(n as int + 1).drop_last() =~= all.take(n as int));
        assert(all.take(n as int + 1).last() == pending@[n as int].deep_view());
        let answered = if n < statuses.len() {
            &statuses[n]
        } else {
            &none
        };
        assert(answered@ =~= statuses_at(statuses.deep_view(), n as int));
        match retry(&pending[n], answered) {
            Some(request) => {
                let ghost before = retries.deep_view();
                let ghost call = request.deep_view();
                retries.push(request);
                assert(retries.deep_view() =~= before.push(call));
            },
            None => {},
        }
        n = n + 1;
    }
    assert(all.take(n as int) =~= all);
    retries
}

/// A copy of the calls.
fn clone_requests(requests: &Vec<BulkRequest>) -> (copy: Vec<BulkRequest>)
    ensures
        copy.deep_view() == requests.deep_view(),
{
    let mut copy: Vec<BulkRequest> = Vec::new();
    let mut i: usize = 0;
    while i < requests.len()
        invariant
            i <= requests.len(),
            copy@.len() == i,
            forall|j: int|
                0 <= j < i ==> (#[trigger] copy@[j]).deep_view() == requests@[j].deep_view(),
        decreases requests.len() - i,
    {
        copy.push(requests[i].clone());
        i = i + 1;
    }
    assert(copy.deep_view() =~= requests.deep_view());
    copy
}

/// A copy of an optional name.
fn clone_name(name: &Option<String>) -> (copy: Option<String>)
    ensures
        copy.deep_view() == name.deep_view(),
{
    match name {
        Some(text) => Some(text.clone()),
        None => None,
    }
}

/// One synchronisation run of one index identity.
#[derive(Debug)]
pub struct IndexFacade {
    phase: Phase,
    alias: String,
    domain_id: u8,
    new_index: String,
    old_index: Option<String>,
    backfill: bool,
    cursor: ExportCursor,
    next_cursor: ExportCursor,
    wave_ends: bool,
    max_attempts: u32,
    attempts: u32,
    pending: Vec<BulkRequest>,
    halt: Option<Halt>,
}

impl View for IndexFacade {
    type V = FacadeState;

    closed spec fn view(&self) -> FacadeState {
        FacadeState {
            phase: self.phase,
            alias: self.alias@,
            domain_id: self.domain_id as int,
            new_index: self.new_index@,
            old_index: self.old_index.deep_view(),
            backfill: self.backfill,
            cursor: self.cursor@,
            next_cursor: self.next_cursor@,
            wave_ends: self.wave_ends,
            max_attempts: self.max_attempts as int,
            attempts: self.attempts as int,
            pending: self.pending.deep_view(),
            halt: self.halt,
        }
    }
}

impl IndexFacade {
    /// A run for the index of `index_definition`. `fingerprint` stands for
    /// the structural definition in force: the physical index of the run is
    /// named after it, and an existing index of another name counts as stale.
    /// `cursor` holds the watermark from which an index that is up to date is
    /// continued. One wave is submitted once and then again, as long as
    /// items fail, until it has been submitted `max_write_attempts` times.
    pub fn new(
        index_definition: &IndexDefinition,
        fingerprint: &str,
        cursor: ExportCursor,
        max_write_attempts: u32,
    ) -> (facade: Self)
        ensures
            facade@ == FacadeState::initial(
                index_definition@.alias(),
                index_definition@.domain_id,
                index_definition@.physical_name(fingerprint@),
                cursor@,
                max_write_attempts as int,
            ),
    {
        let facade = IndexFacade {
            phase: Phase::Unresolved,
            alias: index_definition.get_index_alias(),
            domain_id: index_definition.domain_id,
            new_index: index_definition.physical_index_name(fingerprint),
            old_index: None,
            backfill: false,
            cursor,
            next_cursor: cursor,
            wave_ends: false,
            max_attempts: max_write_attempts,
            attempts: 0,
            pending: Vec::new(),
            halt: None,
        };
        assert(facade@.pending =~= Seq::<BulkCall>::empty());
        facade
    }

    /// Where the run stands.
    pub fn phase(&self) -> (phase: Phase)
        ensures
            phase == self@.phase,
    {
        self.phase
    }

    /// The last key whose batch is committed.
    pub fn watermark(&self) -> (watermark: u32)
        ensures
            watermark == self@.cursor.watermark,
    {
        self.cursor.watermark()
    }

    /// The error that halted the run, if it has halted.
    pub fn halt(&self) -> (halt: Option<Halt>)
        ensures
            halt == self@.halt,
    {
        self.halt
    }

    /// The first action of every run: resolve the alias.
    pub fn start(&self) -> (action: Action)
        ensures
            action.deep_view() == (Command::ResolveAlias { alias: self@.alias }),
    {
        Action::ResolveAlias { alias: self.alias.clone() }
    }

    /// The action that creates the physical index of this run.
    pub fn create(&self) -> (action: Action)
        ensures
            action.deep_view() == (Command::CreateIndex { name: self@.new_index }),
    {
        Action::CreateIndex { name: self.new_index.clone() }
    }

    /// The index that the alias of `index_definition` is bound to according
    /// to the catalogue.
    pub fn resolve_existing_index_name(
        index_repository: &IndexRepository,
        index_definition: &IndexDefinition,
    ) -> (answer: Result<String, ElasticError>)
        ensures
            name_view(answer) == current_index(index_repository@, index_definition@.alias()),
    {
        let alias = index_definition.get_index_alias();
        index_repository.find_current_index_name_for_alias(alias.as_str())
    }

    fn fetch_action(&self) -> (action: Action)
        ensures
            action.deep_view() == self@.fetch_command(),
    {
        Action::FetchWave { windows: self.cursor.windows(), domain_id: self.domain_id }
    }

    fn halted(&mut self, error: SyncError, stage: Stage) -> (action: Action)
        ensures
            (final(self)@, action.deep_view()) == old(self)@.halted(error, stage),
    {
        let halt = Halt { error, stage, watermark: self.cursor.watermark() };
        self.phase = Phase::Halted;
        self.halt = Some(halt);
        self.pending = Vec::new();
        assert(self@.pending =~= Seq::<BulkCall>::empty());
        Action::Halt(halt)
    }

    fn begin_backfill(&mut self, old_index: Option<String>) -> (action: Action)
        ensures
            (final(self)@, action.deep_view()) == old(self)@.begin_backfill(old_index.deep_view()),
    {
        self.phase = Phase::Creating;
        self.old_index = old_index;
        self.backfill = true;
        self.cursor = self.cursor.from_start();
        Action::CreateIndex { name: self.new_index.clone() }
    }

    fn after_last_wave(&mut self) -> (action: Action)
        ensures
            (final(self)@, action.deep_view()) == old(self)@.after_last_wave(),
    {
        self.pending = Vec::new();
        assert(self@.pending =~= Seq::<BulkCall>::empty());
        if self.backfill {
            self.phase = Phase::Swapping;
            Action::SwapAlias {
                alias: self.alias.clone(),
                from: clone_name(&self.old_index),
                to: self.new_index.clone(),
            }
        } else {
            self.phase = Phase::Done;
            Action::Finish { watermark: self.cursor.watermark() }
        }
    }

    fn commit(&mut self) -> (action: Action)
        ensures
            (final(self)@, action.deep_view()) == old(self)@.commit(),
    {
        self.cursor = self.next_cursor;
        self.pending = Vec::new();
        assert(self@.pending =~= Seq::<BulkCall>::empty());
        if self.wave_ends {
            self.after_last_wave()
        } else {
            self.phase = Phase::Fetching;
            self.fetch_action()
        }
    }

    /// Takes in the answer of the alias resolver and decides the path of the
    /// run.
    pub fn migrate(&mut self, answer: Result<String, ElasticError>) -> (action: Action)
        ensures
            (final(self)@, action.deep_view()) == old(self)@.step(
                Signal::AliasResolved(name_view(answer)),
            ),
    {
        self.step(Event::AliasResolved(answer))
    }

    /// Takes in the pages of a wave and hands out the bulk calls for them.
    pub fn export(&mut self, pages: Option<Vec<Vec<ProductExportData>>>) -> (action: Action)
        ensures
            (final(self)@, action.deep_view()) == old(self)@.step(
                Signal::WaveFetched(pages.deep_view()),
            ),
    {
        self.step(Event::WaveFetched(pages))
    }

    fn on_resolved(&mut self, answer: Result<String, ElasticError>) -> (action: Action)
        ensures
            (final(self)@, action.deep_view()) == old(self)@.on_resolved(name_view(answer)),
    {
        match answer {
            Err(ElasticError::NoAlias) => self.begin_backfill(None),
            Err(error) => self.halted(SyncError::Alias(error), Stage::Resolve),
            Ok(name) => {
                if same_text(name.as_str(), self.new_index.as_str()) {
                    self.phase = Phase::Fetching;
                    self.backfill = false;
                    self.fetch_action()
                } else {
                    self.begin_backfill(Some(name))
                }
            },
        }
    }

    fn on_created(&mut self, created: bool) -> (action: Action)
        ensures
            (final(self)@, action.deep_view()) == old(self)@.on_created(created),
    {
        if created {
            self.phase = Phase::Fetching;
            self.fetch_action()
        } else {
            self.halted(SyncError::IndexCreateFailure, Stage::Create)
        }
    }

    fn on_fetched(&mut self, pages: Option<Vec<Vec<ProductExportData>>>) -> (action: Action)
        ensures
            (final(self)@, action.deep_view()) == old(self)@.on_fetched(pages.deep_view()),
    {
        match pages {
            None => self.halted(SyncError::FetchFailure, Stage::Fetch),
            Some(pages) => {
                let keys = keys_of_wave(&pages);
                let mut next = self.cursor;
                match next.advance(&keys) {
                    None => self.halted(SyncError::FetchFailure, Stage::Fetch),
                    Some(ends) => {
                        let requests = if self.backfill {
                            requests_of_wave(self.new_index.as_str(), &pages)
                        } else {
                            requests_of_wave(self.alias.as_str(), &pages)
                        };
                        self.next_cursor = next;
                        self.wave_ends = ends;
                        if requests.len() == 0 {
                            self.commit()
                        } else {
                            self.pending = clone_requests(&requests);
                            self.attempts = 1;
                            self.phase = Phase::Writing;
                            Action::WriteWave { requests }
                        }
                    },
                }
            },
        }
    }

    fn on_written(&mut self, statuses: Vec<Vec<u16>>) -> (action: Action)
        ensures
            (final(self)@, action.deep_view()) == old(self)@.on_written(statuses.deep_view()),
    {
        let retries = retries_of_wave(&self.pending, &statuses);
        if retries.len() == 0 {
            self.commit()
        } else if self.attempts < self.max_attempts {
            self.pending = clone_requests(&retries);
            self.attempts = self.attempts + 1;
            Action::WriteWave { requests: retries }
        } else {
            self.halted(SyncError::WriteFailure, Stage::Write)
        }
    }

    fn on_swapped(&mut self, swapped: bool) -> (action: Action)
        ensures
            (final(self)@, action.deep_view()) == old(self)@.on_swapped(swapped),
    {
        if !swapped {
            return self.halted(SyncError::AliasSwapFailure, Stage::Swap);
        }
        match clone_name(&self.old_index) {
            Some(old) => {
                self.phase = Phase::Retiring;
                Action::DeleteIndex { name: old }
            },
            None => {
                self.phase = Phase::Done;
                Action::Finish { watermark: self.cursor.watermark() }
            },
        }
    }

    fn on_deleted(&mut self, deleted: bool) -> (action: Action)
        ensures
            (final(self)@, action.deep_view()) == old(self)@.on_deleted(deleted),
    {
        if deleted {
            self.phase = Phase::Done;
            Action::Finish { watermark: self.cursor.watermark() }
        } else {
            self.halted(SyncError::IndexDeleteFailure, Stage::Retire)
        }
    }

    fn stage(&self) -> (stage: Stage)
        ensures
            stage == self@.stage(),
    {
        match self.phase {
            Phase::Unresolved => Stage::Resolve,
            Phase::Creating => Stage::Create,
            Phase::Fetching => Stage::Fetch,
            Phase::Writing => Stage::Write,
            Phase::Swapping => Stage::Swap,
            Phase::Retiring => Stage::Retire,
            Phase::Done => Stage::Retire,
            Phase::Halted => Stage::Resolve,
        }
    }

    fn at_rest(&self) -> (action: Action)
        ensures
            (self@, action.deep_view()) == self@.at_rest(),
    {
        match self.halt {
            Some(halt) => Action::Halt(halt),
            None => Action::Finish { watermark: self.cursor.watermark() },
        }
    }

    /// One step of the dialogue: takes in the event that answers the last
    /// action and hands out the next action.
    pub fn step(&mut self, event: Event) -> (action: Action)
        ensures
            (final(self)@, action.deep_view()) == old(self)@.step(event.deep_view()),
    {
        match self.phase {
            Phase::Done => self.at_rest(),
            Phase::Halted => self.at_rest(),
            Phase::Unresolved => match event {
                Event::AliasResolved(answer) => self.on_resolved(answer),
                _ => {
                    let stage = self.stage();
                    self.halted(SyncError::UnexpectedEvent, stage)
                },
            },
            Phase::Creating => match event {
                Event::IndexCreated(created) => self.on_created(created),
                _ => {
                    let stage = self.stage();
                    self.halted(SyncError::UnexpectedEvent, stage)
                },
            },
            Phase::Fetching => match event {
                Event::WaveFetched(pages) => self.on_fetched(pages),
                _ => {
                    let stage = self.stage();
                    self.halted(SyncError::UnexpectedEvent, stage)
                },
            },
            Phase::Writing => match event {
                Event::WaveWritten(statuses) => self.on_written(statuses),
                _ => {
                    let stage = self.stage();
                    self.halted(SyncError::UnexpectedEvent, stage)
                },
            },
            Phase::Swapping => match event {
                Event::AliasSwapped(swapped) => self.on_swapped(swapped),
                _ => {
                    let stage = self.stage();
                    self.halted(SyncError::UnexpectedEvent, stage)
                },
            },
            Phase::Retiring => match event {
                Event::IndexDeleted(deleted) => self.on_deleted(deleted),
                _ => {
                    let stage = self.stage();
                    self.halted(SyncError::UnexpectedEvent, stage)
                },
            },
        }
    }
}


/// A dialogue: the state after the signals were taken in one after the other,
/// and the commands that answered them.
pub open spec fn run(state: FacadeState, signals: Seq<Signal>) -> (FacadeState, Seq<Command>)
    decreases signals.len(),
{
    if signals.len() == 0 {
        (state, Seq::empty())
    } else {
        let (before, commands) = run(state, signals.drop_last());
        let (after, command) = before.step(signals.last());
        (after, commands.push(command))
    }
}

/// Whether a command changes anything in the search engine.
pub open spec fn touches_engine(command: Command) -> bool {
    command is CreateIndex || command is WriteWave || command is SwapAlias || command
        is DeleteIndex
}

/// A run that has halted stays halted: whatever arrives, it answers with the
/// same halt and changes nothing.
pub proof fn lemma_halt_is_final(state: FacadeState, halt: Halt, signals: Seq<Signal>)
    requires
        state.phase == Phase::Halted,
        state.halt == Some(halt),
    ensures
        run(state, signals).0 == state,
        run(state, signals).1.len() == signals.len(),
        forall|i: int|
            0 <= i < signals.len() ==> #[trigger] run(state, signals).1[i] == Command::Halt(halt),
    decreases signals.len(),
{
    if signals.len() > 0 {
        lemma_halt_is_final(state, halt, signals.drop_last());
    }
}

/// The first step splits off from a dialogue.
pub proof fn lemma_run_first_step(state: FacadeState, first: Signal, later: Seq<Signal>)
    ensures
        run(state, seq![first] + later).0 == run(state.step(first).0, later).0,
        run(state, seq![first] + later).1 == seq![state.step(first).1] + run(
            state.step(first).0,
            later,
        ).1,
    decreases later.len(),
{
    let all = seq![first] + later;
    if later.len() == 0 {
        assert(all.drop_last().len() == 0);
        assert(run(state, all.drop_last()) == (state, Seq::<Command>::empty()));
        assert(run(state.step(first).0, later) == (state.step(first).0, Seq::<Command>::empty()));
        assert(all.last() == first);
        assert(run(state, all).1 =~= seq![state.step(first).1] + run(state.step(first).0, later).1);
    } else {
        assert(all.drop_last() =~= seq![first] + later.drop_last());
        assert(all.last() == later.last());
        lemma_run_first_step(state, first, later.drop_last());
        assert(run(state, all).1 =~= seq![state.step(first).1] + run(state.step(first).0, later).1);
    }
}

/// An ambiguous alias halts the run before anything is written. Where two or
/// more indices of the catalogue carry the alias, the resolver's answer is
/// `MoreThanOneIndexFoundForAlias`; a run that takes in this answer halts on
/// it at the resolve stage, with its watermark unmoved; and whatever arrives
/// afterwards, every command of the run is that halt: no index is created,
/// nothing is written, no alias is swapped and no index is dropped.
pub proof fn lemma_ambiguous_alias_halts(
    state: FacadeState,
    catalogue: Seq<IndexEntry>,
    later: Seq<Signal>,
)
    requires
        state.phase == Phase::Unresolved,
        carriers(catalogue, state.alias).len() >= 2,
    ensures
        ({
            let answer = current_index(catalogue, state.alias);
            let (end, commands) = run(state, seq![Signal::AliasResolved(answer)] + later);
            let halt = Halt {
                error: SyncError::Alias(ElasticError::MoreThanOneIndexFoundForAlias),
                stage: Stage::Resolve,
                watermark: state.cursor.watermark as u32,
            };
            &&& answer == Err::<Seq<char>, ElasticError>(
                ElasticError::MoreThanOneIndexFoundForAlias,
            )
            &&& end.phase == Phase::Halted
            &&& end.halt == Some(halt)
            &&& end.cursor == state.cursor
            &&& commands.len() == later.len() + 1
            &&& forall|i: int| 0 <= i < commands.len() ==> #[trigger] commands[i] == Command::Halt(halt)
            &&& forall|i: int| 0 <= i < commands.len() ==> !touches_engine(#[trigger] commands[i])
        }),
{
    let answer = current_index(catalogue, state.alias);
    let first = Signal::AliasResolved(answer);
    let halt = Halt {
        error: SyncError::Alias(ElasticError::MoreThanOneIndexFoundForAlias),
        stage: Stage::Resolve,
        watermark: state.cursor.watermark as u32,
    };
    let (halted, command) = state.step(first);
    assert(command == Command::Halt(halt));
    lemma_run_first_step(state, first, later);
    lemma_halt_is_final(halted, halt, later);
    let commands = run(state, seq![first] + later).1;
    assert forall|i: int| 0 <= i < commands.len() implies #[trigger] commands[i] == Command::Halt(
        halt,
    ) by {
        if i > 0 {
            assert(commands[i] == run(halted, later).1[i - 1]);
        }
    }
}


/// Whether every call goes to `target`.
pub open spec fn all_go_to(calls: Seq<BulkCall>, target: Seq<char>) -> bool {
    forall|i: int| 0 <= i < calls.len() ==> (#[trigger] calls[i]).target == target
}

impl FacadeState {
    /// What holds of every state that a run can reach: calls are in flight
    /// only while the run waits for their statuses, and they go to the run's
    /// write target; the cursor that a commit would install does not lie
    /// before the present one; the run has a halt on record exactly if it
    /// has halted; and the index to be replaced is not the one to be built.
    pub open spec fn consistent(self) -> bool {
        &&& all_go_to(self.pending, self.write_target())
        &&& self.phase != Phase::Writing ==> self.pending.len() == 0
        &&& self.phase == Phase::Writing ==> self.next_cursor.watermark >= self.cursor.watermark
        &&& self.phase == Phase::Halted <==> self.halt is Some
        &&& self.old_index matches Some(old) ==> old != self.new_index
    }
}

/// The watermark after a wave is not below the one before it.
pub proof fn lemma_watermark_not_below_floor(pages: Seq<Seq<i32>>, floor: int)
    ensures
        highest_last_key(pages, floor) >= floor,
    decreases pages.len(),
{
    if pages.len() > 0 {
        lemma_watermark_not_below_floor(pages.drop_last(), floor);
    }
}

/// The calls of a wave all go to the target they were made for.
pub proof fn lemma_wave_calls_target(target: Seq<char>, pages: Seq<Seq<Document>>)
    ensures
        all_go_to(wave_calls(target, pages), target),
    decreases pages.len(),
{
    if pages.len() > 0 {
        lemma_wave_calls_target(target, pages.drop_last());
    }
}

/// The retries of a wave go where the calls in flight went.
pub proof fn lemma_wave_retries_target(
    pending: Seq<BulkCall>,
    statuses: Seq<Seq<u16>>,
    target: Seq<char>,
)
    requires
        all_go_to(pending, target),
    ensures
        all_go_to(wave_retries(pending, statuses), target),
    decreases pending.len(),
{
    if pending.len() > 0 {
        assert forall|i: int| 0 <= i < pending.drop_last().len() implies (
        #[trigger] pending.drop_last()[i]).target == target by {
            assert(pending[i].target == target);
        }
        lemma_wave_retries_target(pending.drop_last(), statuses, target);
        assert(pending.last() == pending[pending.len() - 1]);
    }
}

/// A run keeps its word from step to step. The state after a step is
/// consistent again. Once the alias is resolved the watermark never moves
/// back, and a step that halts the run leaves it where it was: a wave that
/// was not committed in full does not advance it. Bulk calls are never empty
/// and go to the write target of the run, which during a backfill is the
/// physical name of the new index and otherwise the alias. The alias is
/// swapped only by a run that has filled a new index to the end, and only
/// towards that index. The only index that a run ever drops is the one that
/// carried the alias when it began, and only after the swap: an index that a
/// failed run has created stays in place.
pub proof fn lemma_step_keeps_consistent(state: FacadeState, signal: Signal)
    requires
        state.consistent(),
    ensures
        ({
            let (next, command) = state.step(signal);
            &&& next.consistent()
            &&& state.phase != Phase::Unresolved ==> next.cursor.watermark
                >= state.cursor.watermark
            &&& next.phase == Phase::Halted ==> next.cursor == state.cursor
            &&& state.phase != Phase::Unresolved ==> next.write_target() == state.write_target()
            &&& command matches Command::WriteWave { calls } ==> {
                &&& calls.len() > 0
                &&& calls == next.pending
                &&& next.phase == Phase::Writing
                &&& all_go_to(calls, next.write_target())
            }
            &&& command matches Command::SwapAlias { alias, from, to } ==> {
                &&& state.backfill
                &&& state.phase == Phase::Fetching || state.phase == Phase::Writing
                &&& alias == state.alias
                &&& from == state.old_index
                &&& to == state.new_index
                &&& next.phase == Phase::Swapping
            }
            &&& command matches Command::DeleteIndex { name } ==> {
                &&& state.phase == Phase::Swapping
                &&& state.old_index == Some(name)
                &&& name != state.new_index
            }
            &&& command matches Command::CreateIndex { name } ==> {
                &&& state.phase == Phase::Unresolved
                &&& name == state.new_index
            }
            &&& state.phase != Phase::Unresolved ==> {
                &&& next.alias == state.alias
                &&& next.new_index == state.new_index
                &&& next.old_index == state.old_index
                &&& next.backfill == state.backfill
            }
            &&& command is Halt <==> next.phase == Phase::Halted
        }),
{
    let (next, command) = state.step(signal);
    match (state.phase, signal) {
        (Phase::Fetching, Signal::WaveFetched(Some(pages))) => {
            let keys = wave_keys(pages);
            lemma_watermark_not_below_floor(keys, state.cursor.watermark);
            lemma_wave_calls_target(state.write_target(), pages);
        },
        (Phase::Writing, Signal::WaveWritten(statuses)) => {
            lemma_wave_retries_target(state.pending, statuses, state.write_target());
        },
        _ => {},
    }
}


/// Every run begins in a consistent state and stays in one, whatever arrives
/// and in whatever order.
pub proof fn lemma_run_stays_consistent(
    alias: Seq<char>,
    domain_id: int,
    new_index: Seq<char>,
    cursor: CursorState,
    max_attempts: int,
    signals: Seq<Signal>,
)
    ensures
        FacadeState::initial(alias, domain_id, new_index, cursor, max_attempts).consistent(),
        run(
            FacadeState::initial(alias, domain_id, new_index, cursor, max_attempts),
            signals,
        ).0.consistent(),
    decreases signals.len(),
{
    let state = FacadeState::initial(alias, domain_id, new_index, cursor, max_attempts);
    if signals.len() > 0 {
        lemma_run_stays_consistent(
            alias,
            domain_id,
            new_index,
            cursor,
            max_attempts,
            signals.drop_last(),
        );
        lemma_step_keeps_consistent(run(state, signals.drop_last()).0, signals.last());
    }
}


/// A cutover, from the resolution of the alias to the removal of the old
/// index. Take a catalogue without double names in which the physical name of
/// the run is still free, and in which the alias is bound to one index or to
/// none. A run that takes in what the resolver says of this catalogue begins
/// a backfill: it asks for the new index to be created and remembers the
/// index that carries the alias. Once the new index exists, the engine
/// accepts the swap that the run will ask for, and after it the alias
/// resolves to the new index and to no other; the old index does not carry
/// it any more, and dropping the old index leaves the alias on the new one.
pub proof fn lemma_cutover_binds_the_new_index(state: FacadeState, catalogue: Seq<IndexEntry>)
    requires
        state.phase == Phase::Unresolved,
        distinct_names(catalogue),
        !has_index(catalogue, state.new_index),
        current_index(catalogue, state.alias) is Ok || current_index(catalogue, state.alias)
            == Err::<Seq<char>, ElasticError>(ElasticError::NoAlias),
    ensures
        ({
            let answer = current_index(catalogue, state.alias);
            let (begun, first) = state.step(Signal::AliasResolved(answer));
            let created = after_create(catalogue, state.new_index);
            let swapped = after_swap(created, state.alias, begun.old_index, state.new_index);
            &&& first == Command::CreateIndex { name: state.new_index }
            &&& begun.phase == Phase::Creating
            &&& begun.backfill
            &&& begun.old_index == match answer {
                Ok(old) => Some(old),
                Err(_) => None,
            }
            &&& swap_allowed(created, begun.old_index, state.new_index)
            &&& current_index(swapped, state.alias) == Ok::<Seq<char>, ElasticError>(
                state.new_index,
            )
            &&& carriers(swapped, state.alias) == seq![state.new_index]
            &&& begun.old_index matches Some(old) ==> {
                &&& !carriers(swapped, state.alias).contains(old)
                &&& current_index(after_delete(swapped, old), state.alias) == Ok::<
                    Seq<char>,
                    ElasticError,
                >(state.new_index)
            }
        }),
{
    let alias = state.alias;
    let new_index = state.new_index;
    let answer = current_index(catalogue, alias);
    let (begun, first) = state.step(Signal::AliasResolved(answer));
    let created = after_create(catalogue, new_index);
    lemma_carriers_members(catalogue, alias);
    lemma_create_keeps_carriers(catalogue, new_index, alias);
    if carriers(catalogue, alias).contains(new_index) {
        let i = choose|i: int|
            0 <= i < catalogue.len() && (#[trigger] catalogue[i]).index == new_index
                && catalogue[i].aliases.contains(alias);
        assert(has_index(catalogue, new_index));
    }
    match answer {
        Ok(old) => {
            assert(carriers(catalogue, alias)[0] == old);
            assert(carriers(catalogue, alias).contains(old));
            assert(old != new_index);
        },
        Err(_) => {},
    }
    lemma_cutover_keeps_one_owner(created, alias, begun.old_index, new_index);
    let swapped = after_swap(created, alias, begun.old_index, new_index);
    if begun.old_index is Some {
        lemma_delete_keeps_carriers(swapped, begun.old_index.unwrap(), alias);
    }
}


/// The documents of a wave, page after page.
pub open spec fn all_documents(pages: Seq<Seq<Document>>) -> Seq<Document>
    decreases pages.len(),
{
    if pages.len() == 0 {
        Seq::empty()
    } else {
        all_documents(pages.drop_last()) + pages.last()
    }
}

/// The documents that a series of bulk calls carries, call after call.
pub open spec fn written_documents(calls: Seq<BulkCall>) -> Seq<Document>
    decreases calls.len(),
{
    if calls.len() == 0 {
        Seq::empty()
    } else {
        written_documents(calls.drop_last()) + documents_of(calls.last().operations)
    }
}

/// Whether the statuses report every operation of every call as committed.
pub open spec fn all_committed(calls: Seq<BulkCall>, statuses: Seq<Seq<u16>>) -> bool {
    forall|n: int, i: int|
        0 <= n < calls.len() && 0 <= i < calls[n].operations.len() ==> #[trigger] committed(
            statuses_at(statuses, n),
            i,
        )
}

/// The bulk calls of a wave carry the documents of the wave, each once and in
/// the order of the pages.
pub proof fn lemma_wave_calls_carry_every_document(target: Seq<char>, pages: Seq<Seq<Document>>)
    ensures
        written_documents(wave_calls(target, pages)) == all_documents(pages),
    decreases pages.len(),
{
    if pages.len() > 0 {
        lemma_wave_calls_carry_every_document(target, pages.drop_last());
        let page = pages.last();
        let earlier = wave_calls(target, pages.drop_last());
        if page.len() == 0 {
            assert(all_documents(pages) =~= all_documents(pages.drop_last()));
        } else {
            let call = BulkCall { target, operations: upserts_of(page) };
            assert(earlier.push(call).drop_last() =~= earlier);
            assert(documents_of(upserts_of(page)) =~= page);
        }
    }
}

/// Where every operation is committed, nothing is left to try again.
pub proof fn lemma_nothing_failed(operations: Seq<Upsert>, statuses: Seq<u16>)
    requires
        forall|i: int| 0 <= i < operations.len() ==> committed(statuses, i),
    ensures
        failed_operations(operations, statuses).len() == 0,
    decreases operations.len(),
{
    if operations.len() > 0 {
        lemma_nothing_failed(operations.drop_last(), statuses);
    }
}

/// Where every operation of every call is committed, the wave has no retry.
pub proof fn lemma_committed_wave_has_no_retry(calls: Seq<BulkCall>, statuses: Seq<Seq<u16>>)
    requires
        all_committed(calls, statuses),
    ensures
        wave_retries(calls, statuses).len() == 0,
    decreases calls.len(),
{
    if calls.len() > 0 {
        let front = calls.drop_last();
        assert forall|n: int, i: int|
            0 <= n < front.len() && 0 <= i < front[n].operations.len() implies #[trigger] committed(
            statuses_at(statuses, n),
            i,
        ) by {
            assert(front[n] == calls[n]);
        }
        lemma_committed_wave_has_no_retry(front, statuses);
        let last = calls.len() - 1;
        assert(calls.last() == calls[last]);
        lemma_nothing_failed(calls.last().operations, statuses_at(statuses, last));
    }
}

/// One round of a run that meets no failure. The run waits for a wave; the
/// source hands in the pages that it owes for the windows of the cursor; the
/// run answers with bulk calls that carry every document of the wave, to its
/// write target, or commits at once where the wave holds no document; and
/// when the engine reports every operation as committed, the watermark moves
/// exactly as the cursor says. After the round the run waits for the next
/// wave, or, after the last wave, for the swap of the alias (in a backfill)
/// or for nothing more. What the cursor's laws say of pages and watermarks
/// therefore holds of the run.
pub proof fn lemma_faithful_round(
    state: FacadeState,
    source: Seq<i32>,
    pages: Seq<Seq<Document>>,
    statuses: Seq<Seq<u16>>,
)
    requires
        state.phase == Phase::Fetching,
        state.consistent(),
        ascending(source),
        state.cursor.batch_size >= 1,
        state.cursor.workers >= 1,
        wave_keys(pages) == wave_of(source, state.cursor),
        all_committed(wave_calls(state.write_target(), pages), statuses),
    ensures
        ({
            let wave = wave_of(source, state.cursor);
            let calls = wave_calls(state.write_target(), pages);
            let (taken, first) = state.step(Signal::WaveFetched(Some(pages)));
            let (end, last) = if calls.len() > 0 {
                taken.step(Signal::WaveWritten(statuses))
            } else {
                (taken, first)
            };
            &&& calls.len() > 0 ==> first == Command::WriteWave { calls }
            &&& calls.len() > 0 ==> taken.cursor == state.cursor
            &&& written_documents(calls) == all_documents(pages)
            &&& all_go_to(calls, state.write_target())
            &&& end.cursor == state.cursor.advance(wave)
            &&& end.consistent()
            &&& !state.cursor.finished(wave) ==> end.phase == Phase::Fetching && last
                == end.fetch_command()
            &&& state.cursor.finished(wave) && state.backfill ==> end.phase == Phase::Swapping
                && last == Command::SwapAlias {
                alias: state.alias,
                from: state.old_index,
                to: state.new_index,
            }
            &&& state.cursor.finished(wave) && !state.backfill ==> end.phase == Phase::Done && last
                == Command::Finish { watermark: end.cursor.watermark }
        }),
{
    let wave = wave_of(source, state.cursor);
    let calls = wave_calls(state.write_target(), pages);
    lemma_owed_wave_is_accepted(source, state.cursor);
    lemma_wave_calls_carry_every_document(state.write_target(), pages);
    lemma_wave_calls_target(state.write_target(), pages);
    lemma_committed_wave_has_no_retry(calls, statuses);
    lemma_step_keeps_consistent(state, Signal::WaveFetched(Some(pages)));
    let (taken, first) = state.step(Signal::WaveFetched(Some(pages)));
    if calls.len() > 0 {
        lemma_step_keeps_consistent(taken, Signal::WaveWritten(statuses));
    }
}

} // verus!
