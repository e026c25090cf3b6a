use index_sync::cursor::{page_after, ExportCursor, FetchWindow};
use index_sync::error::{ElasticError, Halt, Stage, SyncError};
use index_sync::index_definition::IndexDefinition;
use index_sync::index_definition_loader::IndexDefinitionLoader;
use index_sync::index_facade::{Action, Event, IndexFacade, Phase};
use index_sync::index_repository::{IndexAliases, IndexRepository};
use index_sync::product_index::ProductExportData;
use index_sync::store::DocumentStore;
use std::collections::BTreeMap;

const FINGERPRINT: &str = "v2";
const ALIAS: &str = "emos_product_1";
const NEW_INDEX: &str = "emos_product_1_v2";
const OLD_INDEX: &str = "emos_product_1_v1";

fn definition() -> IndexDefinition {
    IndexDefinitionLoader::new("dir".to_string(), "emos".to_string())
        .get_definition("product".to_string(), 1)
}

fn document(id: i32) -> ProductExportData {
    ProductExportData {
        id,
        catnum: format!("CAT-{}", id),
        partno: String::new(),
        ean: String::new(),
        name: format!("Produkt {}", id),
        fullname: format!(" Produkt {} ", id),
        description: String::new(),
        short_description: String::new(),
        brand: String::new(),
        flags: Vec::new(),
        categories: Vec::new(),
    }
}

fn facade(watermark: u32, batch_size: u32, workers: u32, attempts: u32) -> IndexFacade {
    let cursor = ExportCursor::new(watermark, batch_size, workers).unwrap();
    IndexFacade::new(&definition(), FINGERPRINT, cursor, attempts)
}

struct World {
    source: Vec<i32>,
    repository: IndexRepository,
    stores: BTreeMap<String, DocumentStore>,
    writes: Vec<(String, Vec<i32>)>,
    log: Vec<String>,
    failing_keys: Vec<i32>,
    failures_left: u32,
}

impl World {
    fn new(source: Vec<i32>, indices: Vec<(&str, Vec<&str>)>) -> World {
        let mut stores = BTreeMap::new();
        let mut entries = Vec::new();
        for (index, aliases) in indices {
            stores.insert(index.to_string(), DocumentStore::new());
            entries.push(IndexAliases {
                index: index.to_string(),
                aliases: aliases.iter().map(|a| a.to_string()).collect(),
            });
        }
        World {
            source,
            repository: IndexRepository::new(entries),
            stores,
            writes: Vec::new(),
            log: Vec::new(),
            failing_keys: Vec::new(),
            failures_left: 0,
        }
    }

    fn store_behind(&self, name: &str) -> String {
        if self.repository.is_index_created(name) {
            name.to_string()
        } else {
            self.repository.find_current_index_name_for_alias(name).unwrap()
        }
    }

    fn perform(&mut self, action: Action) -> Option<Event> {
        match action {
            Action::ResolveAlias { alias } => {
                self.log.push("resolve".to_string());
                Some(Event::AliasResolved(
                    self.repository.find_current_index_name_for_alias(&alias),
                ))
            }
            Action::CreateIndex { name } => {
                self.log.push(format!("create {}", name));
                let created = self.repository.create_index(&name).is_ok();
                if created {
                    self.stores.insert(name, DocumentStore::new());
                }
                Some(Event::IndexCreated(created))
            }
            Action::FetchWave { windows, domain_id } => {
                assert_eq!(domain_id, 1);
                self.log.push(format!("fetch {}", windows.len()));
                let pages = windows
                    .iter()
                    .map(|w: &FetchWindow| {
                        page_after(&self.source, w.after, w.limit)
                            .into_iter()
                            .map(document)
                            .collect()
                    })
                    .collect();
                Some(Event::WaveFetched(Some(pages)))
            }
            Action::WriteWave { requests } => {
                let mut answers = Vec::new();
                for request in &requests {
                    let keys: Vec<i32> =
                        request.operations.iter().map(|op| op.document.id).collect();
                    self.log.push(format!("write {:?}", keys));
                    self.writes.push((request.target.clone(), keys.clone()));
                    let failing = self.failures_left > 0;
                    let statuses: Vec<u16> = keys
                        .iter()
                        .map(|k| if failing && self.failing_keys.contains(k) { 503 } else { 200 })
                        .collect();
                    let store_name = self.store_behind(&request.target);
                    let committed = index_sync::bulk::BulkRequest {
                        target: request.target.clone(),
                        operations: request
                            .operations
                            .iter()
                            .zip(&statuses)
                            .filter(|(_, s)| **s == 200)
                            .map(|(op, _)| op.clone())
                            .collect(),
                    };
                    self.stores.get_mut(&store_name).unwrap().apply(&committed);
                    answers.push(statuses);
                }
                if self.failures_left > 0 {
                    self.failures_left -= 1;
                }
                Some(Event::WaveWritten(answers))
            }
            Action::SwapAlias { alias, from, to } => {
                self.log.push(format!("swap {:?} -> {}", from, to));
                Some(Event::AliasSwapped(self.repository.swap_alias(&alias, from.as_deref(), &to)))
            }
            Action::DeleteIndex { name } => {
                self.log.push(format!("delete {}", name));
                self.stores.remove(&name);
                Some(Event::IndexDeleted(self.repository.delete_index(&name)))
            }
            Action::Finish { watermark } => {
                self.log.push(format!("finish {}", watermark));
                None
            }
            Action::Halt(halt) => {
                self.log.push(format!("halt {:?}", halt.error));
                None
            }
        }
    }

    fn run(&mut self, facade: &mut IndexFacade) {
        let mut action = facade.start();
        let mut steps = 0;
        while let Some(event) = self.perform(action) {
            action = facade.step(event);
            steps += 1;
            assert!(steps < 1000);
        }
    }

    fn stored_keys(&self, index: &str) -> Vec<i32> {
        let store = &self.stores[index];
        (0..=400).filter(|k| store.get(*k).is_some()).collect()
    }
}

#[test]
fn first_run_builds_the_index_and_binds_the_alias() {
    let mut world = World::new(vec![1, 2, 3, 4, 5], vec![]);
    let mut facade = facade(0, 2, 1, 3);
    world.run(&mut facade);
    assert_eq!(
        world.log,
        vec![
            "resolve",
            "create emos_product_1_v2",
            "fetch 1",
            "write [1, 2]",
            "fetch 1",
            "write [3, 4]",
            "fetch 1",
            "write [5]",
            "swap None -> emos_product_1_v2",
            "finish 5",
        ]
    );
    assert_eq!(
        world.writes,
        vec![
            (NEW_INDEX.to_string(), vec![1, 2]),
            (NEW_INDEX.to_string(), vec![3, 4]),
            (NEW_INDEX.to_string(), vec![5]),
        ]
    );
    assert_eq!(facade.phase(), Phase::Done);
    assert_eq!(facade.watermark(), 5);
    assert_eq!(facade.halt(), None);
    assert_eq!(
        world.repository.find_current_index_name_for_alias(ALIAS),
        Ok(NEW_INDEX.to_string())
    );
    assert_eq!(world.stored_keys(NEW_INDEX), vec![1, 2, 3, 4, 5]);
}

#[test]
fn stale_index_is_rebuilt_swapped_and_retired() {
    let mut world = World::new(vec![2, 4, 6], vec![(OLD_INDEX, vec![ALIAS])]);
    let mut facade = facade(4, 2, 1, 3);
    world.run(&mut facade);
    assert_eq!(
        world.log,
        vec![
            "resolve",
            "create emos_product_1_v2",
            "fetch 1",
            "write [2, 4]",
            "fetch 1",
            "write [6]",
            "swap Some(\"emos_product_1_v1\") -> emos_product_1_v2",
            "delete emos_product_1_v1",
            "finish 6",
        ]
    );
    assert!(world.writes.iter().all(|(target, _)| target == NEW_INDEX));
    assert_eq!(
        world.repository.find_index_names_for_alias(ALIAS),
        Ok(vec![NEW_INDEX.to_string()])
    );
    assert!(!world.repository.is_index_created(OLD_INDEX));
    assert_eq!(facade.phase(), Phase::Done);
    assert_eq!(facade.watermark(), 6);
}

#[test]
fn index_that_is_up_to_date_is_continued_through_the_alias() {
    let mut world = World::new(vec![1, 2, 3, 4, 5, 6, 7], vec![(NEW_INDEX, vec![ALIAS])]);
    let mut facade = facade(4, 2, 1, 3);
    world.run(&mut facade);
    assert_eq!(
        world.log,
        vec!["resolve", "fetch 1", "write [5, 6]", "fetch 1", "write [7]", "finish 7"]
    );
    assert!(world.writes.iter().all(|(target, _)| target == ALIAS));
    assert_eq!(world.stored_keys(NEW_INDEX), vec![5, 6, 7]);
    assert_eq!(facade.watermark(), 7);
}

#[test]
fn ambiguous_alias_halts_before_any_write() {
    let mut world =
        World::new(vec![1, 2, 3], vec![(OLD_INDEX, vec![ALIAS]), ("emos_product_1_v0", vec![ALIAS])]);
    let mut facade = facade(9, 2, 1, 3);
    world.run(&mut facade);
    assert_eq!(world.log, vec!["resolve", "halt Alias(MoreThanOneIndexFoundForAlias)"]);
    assert!(world.writes.is_empty());
    let halt = Halt {
        error: SyncError::Alias(ElasticError::MoreThanOneIndexFoundForAlias),
        stage: Stage::Resolve,
        watermark: 9,
    };
    assert_eq!(facade.halt(), Some(halt));
    assert_eq!(facade.phase(), Phase::Halted);
    assert_eq!(world.repository.index_names().len(), 2);
    for event in [
        Event::IndexCreated(true),
        Event::WaveFetched(Some(vec![vec![document(10)]])),
        Event::WaveWritten(vec![vec![200]]),
        Event::AliasSwapped(true),
        Event::IndexDeleted(true),
        Event::AliasResolved(Err(ElasticError::NoAlias)),
    ] {
        match facade.step(event) {
            Action::Halt(again) => assert_eq!(again, halt),
            other => panic!("unexpected action {:?}", other),
        }
    }
    assert_eq!(facade.watermark(), 9);
}

#[test]
fn alias_without_index_halts_as_well() {
    let mut facade = facade(0, 2, 1, 3);
    match facade.migrate(Err(ElasticError::NoIndexFoundForAlias)) {
        Action::Halt(halt) => {
            assert_eq!(halt.error, SyncError::Alias(ElasticError::NoIndexFoundForAlias));
            assert_eq!(halt.stage, Stage::Resolve);
        }
        other => panic!("unexpected action {:?}", other),
    }
}

#[test]
fn failed_items_and_only_those_are_retried() {
    let mut world = World::new(vec![1, 2, 3, 4, 5], vec![]);
    world.failing_keys = vec![2, 4];
    world.failures_left = 1;
    let mut facade = facade(0, 5, 1, 3);
    world.run(&mut facade);
    assert_eq!(
        world.log,
        vec![
            "resolve",
            "create emos_product_1_v2",
            "fetch 1",
            "write [1, 2, 3, 4, 5]",
            "write [2, 4]",
            "fetch 1",
            "swap None -> emos_product_1_v2",
            "finish 5",
        ]
    );
    assert_eq!(world.stored_keys(NEW_INDEX), vec![1, 2, 3, 4, 5]);
}

#[test]
fn write_failure_after_the_last_attempt_halts_without_advancing() {
    let mut world = World::new(vec![1, 2, 3, 4, 5], vec![]);
    world.failing_keys = vec![3];
    world.failures_left = 100;
    let mut facade = facade(0, 2, 1, 3);
    world.run(&mut facade);
    assert_eq!(
        world.log,
        vec![
            "resolve",
            "create emos_product_1_v2",
            "fetch 1",
            "write [1, 2]",
            "fetch 1",
            "write [3, 4]",
            "write [3]",
            "write [3]",
            "halt WriteFailure",
        ]
    );
    assert_eq!(
        facade.halt(),
        Some(Halt { error: SyncError::WriteFailure, stage: Stage::Write, watermark: 2 })
    );
    assert_eq!(facade.watermark(), 2);
    assert_eq!(world.repository.find_current_index_name_for_alias(ALIAS), Err(ElasticError::NoAlias));
    assert!(world.repository.is_index_created(NEW_INDEX));
}

#[test]
fn single_attempt_means_no_retry() {
    let mut world = World::new(vec![1, 2], vec![]);
    world.failing_keys = vec![1];
    world.failures_left = 100;
    let mut facade = facade(0, 2, 1, 1);
    world.run(&mut facade);
    assert_eq!(&world.log[3..], &["write [1, 2]".to_string(), "halt WriteFailure".to_string()]);
}

#[test]
fn fetch_failure_halts_where_the_run_stands() {
    let mut facade = facade(0, 2, 1, 3);
    facade.migrate(Err(ElasticError::NoAlias));
    facade.step(Event::IndexCreated(true));
    facade.export(Some(vec![vec![document(1), document(2)]]));
    facade.step(Event::WaveWritten(vec![vec![200, 200]]));
    assert_eq!(facade.watermark(), 2);
    match facade.export(None) {
        Action::Halt(halt) => assert_eq!(
            halt,
            Halt { error: SyncError::FetchFailure, stage: Stage::Fetch, watermark: 2 }
        ),
        other => panic!("unexpected action {:?}", other),
    }
    assert_eq!(facade.phase(), Phase::Halted);
}

#[test]
fn page_that_the_source_does_not_owe_halts_the_run() {
    for bad in [
        vec![vec![document(2), document(1)]],
        vec![vec![document(1), document(1)]],
        vec![vec![document(1), document(2), document(3)]],
        vec![vec![document(0)]],
        vec![],
        vec![vec![document(1)], vec![document(2)]],
    ] {
        let mut facade = facade(0, 2, 1, 3);
        facade.migrate(Err(ElasticError::NoAlias));
        facade.step(Event::IndexCreated(true));
        match facade.export(Some(bad)) {
            Action::Halt(halt) => {
                assert_eq!(halt.error, SyncError::FetchFailure);
                assert_eq!(halt.stage, Stage::Fetch);
                assert_eq!(halt.watermark, 0);
            }
            other => panic!("unexpected action {:?}", other),
        }
    }
}

#[test]
fn create_swap_and_delete_failures_halt_at_their_stage() {
    let mut facade = facade(0, 2, 1, 3);
    facade.migrate(Err(ElasticError::NoAlias));
    match facade.step(Event::IndexCreated(false)) {
        Action::Halt(halt) => {
            assert_eq!(halt.error, SyncError::IndexCreateFailure);
            assert_eq!(halt.stage, Stage::Create);
        }
        other => panic!("unexpected action {:?}", other),
    }

    let mut facade = self::facade(0, 2, 1, 3);
    facade.migrate(Ok(OLD_INDEX.to_string()));
    facade.step(Event::IndexCreated(true));
    match facade.export(Some(vec![vec![]])) {
        Action::SwapAlias { alias, from, to } => {
            assert_eq!(alias, ALIAS);
            assert_eq!(from.as_deref(), Some(OLD_INDEX));
            assert_eq!(to, NEW_INDEX);
        }
        other => panic!("unexpected action {:?}", other),
    }
    match facade.step(Event::AliasSwapped(false)) {
        Action::Halt(halt) => {
            assert_eq!(halt.error, SyncError::AliasSwapFailure);
            assert_eq!(halt.stage, Stage::Swap);
        }
        other => panic!("unexpected action {:?}", other),
    }

    let mut facade = self::facade(0, 2, 1, 3);
    facade.migrate(Ok(OLD_INDEX.to_string()));
    facade.step(Event::IndexCreated(true));
    facade.export(Some(vec![vec![]]));
    match facade.step(Event::AliasSwapped(true)) {
        Action::DeleteIndex { name } => assert_eq!(name, OLD_INDEX),
        other => panic!("unexpected action {:?}", other),
    }
    match facade.step(Event::IndexDeleted(false)) {
        Action::Halt(halt) => {
            assert_eq!(halt.error, SyncError::IndexDeleteFailure);
            assert_eq!(halt.stage, Stage::Retire);
        }
        other => panic!("unexpected action {:?}", other),
    }
}

#[test]
fn event_that_answers_no_action_halts_the_run() {
    let mut facade = facade(3, 2, 1, 3);
    match facade.step(Event::WaveWritten(vec![])) {
        Action::Halt(halt) => assert_eq!(
            halt,
            Halt { error: SyncError::UnexpectedEvent, stage: Stage::Resolve, watermark: 3 }
        ),
        other => panic!("unexpected action {:?}", other),
    }
    let mut facade = self::facade(3, 2, 1, 3);
    facade.migrate(Err(ElasticError::NoAlias));
    match facade.step(Event::AliasSwapped(true)) {
        Action::Halt(halt) => {
            assert_eq!(halt.error, SyncError::UnexpectedEvent);
            assert_eq!(halt.stage, Stage::Create);
            assert_eq!(halt.watermark, 0);
        }
        other => panic!("unexpected action {:?}", other),
    }
}

#[test]
fn finished_run_repeats_its_end() {
    let mut world = World::new(vec![1], vec![]);
    let mut facade = facade(0, 2, 1, 3);
    world.run(&mut facade);
    for _ in 0..2 {
        match facade.step(Event::WaveFetched(Some(vec![vec![document(9)]]))) {
            Action::Finish { watermark } => assert_eq!(watermark, 1),
            other => panic!("unexpected action {:?}", other),
        }
    }
    assert_eq!(facade.phase(), Phase::Done);
}

#[test]
fn start_and_create_name_the_alias_and_the_new_index() {
    let facade = facade(0, 2, 1, 3);
    match facade.start() {
        Action::ResolveAlias { alias } => assert_eq!(alias, ALIAS),
        other => panic!("unexpected action {:?}", other),
    }
    match facade.create() {
        Action::CreateIndex { name } => assert_eq!(name, NEW_INDEX),
        other => panic!("unexpected action {:?}", other),
    }
    assert_eq!(facade.phase(), Phase::Unresolved);
}

#[test]
fn backfill_starts_before_the_first_key() {
    let mut facade = facade(500, 10, 2, 3);
    facade.migrate(Ok(OLD_INDEX.to_string()));
    match facade.step(Event::IndexCreated(true)) {
        Action::FetchWave { windows, domain_id } => {
            assert_eq!(domain_id, 1);
            assert_eq!(
                windows,
                vec![FetchWindow { after: 0, limit: 10 }, FetchWindow { after: 10, limit: 10 }]
            );
        }
        other => panic!("unexpected action {:?}", other),
    }
}

#[test]
fn empty_source_is_swapped_in_without_a_write() {
    let mut world = World::new(vec![], vec![]);
    let mut facade = facade(0, 2, 1, 3);
    world.run(&mut facade);
    assert_eq!(
        world.log,
        vec![
            "resolve",
            "create emos_product_1_v2",
            "fetch 1",
            "swap None -> emos_product_1_v2",
            "finish 0",
        ]
    );
    assert!(world.writes.is_empty());
}

#[test]
fn parallel_and_sequential_runs_leave_the_same_index() {
    let source: Vec<i32> = vec![1, 2, 3, 5, 8, 13, 21, 34, 55, 89, 144, 233, 377];
    let mut sequential = World::new(source.clone(), vec![]);
    let mut one = facade(0, 3, 1, 3);
    sequential.run(&mut one);
    let mut parallel = World::new(source.clone(), vec![]);
    let mut three = facade(0, 3, 3, 3);
    parallel.run(&mut three);
    assert_eq!(sequential.stored_keys(NEW_INDEX), source);
    assert_eq!(parallel.stored_keys(NEW_INDEX), source);
    assert_eq!(one.watermark(), 377);
    assert_eq!(three.watermark(), 377);
    assert_eq!(one.phase(), Phase::Done);
    assert_eq!(three.phase(), Phase::Done);
    for key in &source {
        assert_eq!(
            sequential.stores[NEW_INDEX].get(*key).unwrap().name,
            parallel.stores[NEW_INDEX].get(*key).unwrap().name
        );
    }
}

#[test]
fn wave_of_two_workers_writes_one_call_per_page() {
    let mut facade = facade(0, 2, 2, 3);
    facade.migrate(Err(ElasticError::NoAlias));
    facade.step(Event::IndexCreated(true));
    let action =
        facade.export(Some(vec![vec![document(1), document(2)], vec![document(3)]]));
    match action {
        Action::WriteWave { requests } => {
            assert_eq!(requests.len(), 2);
            assert_eq!(requests[0].target, NEW_INDEX);
            assert_eq!(requests[0].operations.len(), 2);
            assert_eq!(requests[1].operations[0].id, "3");
        }
        other => panic!("unexpected action {:?}", other),
    }
    assert_eq!(facade.watermark(), 0);
    match facade.step(Event::WaveWritten(vec![vec![200, 200]])) {
        Action::WriteWave { requests } => {
            assert_eq!(requests.len(), 1);
            assert_eq!(requests[0].operations[0].id, "3");
        }
        other => panic!("unexpected action {:?}", other),
    }
    assert_eq!(facade.watermark(), 0);
    match facade.step(Event::WaveWritten(vec![vec![201]])) {
        Action::SwapAlias { from, to, .. } => {
            assert_eq!(from, None);
            assert_eq!(to, NEW_INDEX);
        }
        other => panic!("unexpected action {:?}", other),
    }
    assert_eq!(facade.watermark(), 3);
}
