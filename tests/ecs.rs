use shipyard_core::{
    TightPack,
    add_component, Entities,
    AliasingCell, AllStorages, Borrow, BorrowState, ChunkExact1, CurrentId, EntityId, GetStorage,
    Iter1, Iter2, IterNot, MapIter, Mode, NewEntity, Pack, Register, Remove, RunWorkload,
    SetDefaultWorkload, Shiperator, Sort, Storage, StorageId, WithId, AddComponent,
};

fn sid(id: u64) -> StorageId {
    StorageId { id }
}

fn filled(n: usize) -> Storage<u32> {
    let mut s = Storage::new(sid(1));
    for i in 0..n {
        s.insert(EntityId::new(i, 0), i as u32 * 10);
    }
    s
}

#[test]
fn borrow_messages() {
    assert_eq!(Borrow::Unique.message(), "Cannot mutably borrow while already borrowed.");
    assert_eq!(
        Borrow::Shared.message(),
        "Cannot immutably borrow while already mutably borrowed."
    );
}

#[test]
fn get_storage_messages_name_the_storage() {
    assert_eq!(
        GetStorage::StorageBorrow(("Position", Borrow::Shared)).message(),
        "Cannot immutably borrow \"Position\" storage while it's already mutably borrowed."
    );
    assert_eq!(
        GetStorage::MissingComponent("Velocity").message(),
        "No storage exists for Velocity.\nConsider adding this line after the creation of World: world.register::<Velocity>();"
    );
    assert_eq!(
        GetStorage::NonUnique(("Velocity", Borrow::Unique)).message(),
        "Velocity's storage isn't unique.\nYou might have forgotten to declare it, replace world.register::<Velocity>() by world.register_unique(/* your_storage */).\nIf it isn't supposed to be a unique storage, replace Unique<&mut Velocity> by &mut Velocity."
    );
    assert_eq!(
        GetStorage::NonUnique(("Velocity", Borrow::Shared)).message(),
        "Velocity's storage isn't unique.\nYou might have forgotten to declare it, replace world.register::<Velocity>() by world.register_unique(/* your_storage */).\nIf it isn't supposed to be a unique storage, replace Unique<&Velocity> by &Velocity."
    );
}

#[test]
fn other_error_messages() {
    assert_eq!(
        NewEntity::Entities(Borrow::Unique).message(),
        "Cannot mutably borrow entities while it's already borrowed."
    );
    assert_eq!(
        AddComponent::EntityIsNotAlive.message(),
        "Entity has to be alive to add component to it."
    );
    assert_eq!(
        Pack::UniqueStorage("Gravity").message(),
        "The storage of type \"\"Gravity\"\" is a unique storage and can't be packed."
    );
    assert_eq!(
        Pack::from(GetStorage::Entities(Borrow::Shared)).message(),
        "Cannot immutably borrow Entities storage while it's already mutably borrowed."
    );
    assert_eq!(
        Remove::MissingPackStorage(sid(3)).message(),
        "Missing storage for type (3). To remove a packed component you have to pass all storages packed with it. Even if you just remove one component."
    );
    assert_eq!(
        AddComponent::MissingPackStorage(sid(1204)).message(),
        "Missing storage for type (1204). To add a packed component you have to pass all storages packed with it. Even if you just add one component."
    );
    assert_eq!(
        Pack::AlreadyTightPack(sid(0)).message(),
        "The storage of type (0) is already tightly packed."
    );
    assert_eq!(
        Pack::AlreadyLoosePack(sid(90)).message(),
        "The storage of type (90) is already loosely packed."
    );
    assert_eq!(
        Pack::AlreadyUpdatePack(sid(18446744073709551615)).message(),
        "The storage of type (18446744073709551615) is already has an update pack."
    );
    assert_eq!(
        RunWorkload::Borrow(Borrow::Shared).message(),
        "Cannot mutably borrow pipeline while it's already borrowed."
    );
    assert_eq!(
        RunWorkload::MissingWorkload.message(),
        "No workload with this name exists."
    );
    assert_eq!(
        SetDefaultWorkload::MissingWorkload.message(),
        "No workload with this name exists."
    );
    assert_eq!(
        RunWorkload::from(Borrow::Shared),
        RunWorkload::Borrow(Borrow::Shared)
    );
    assert_eq!(
        SetDefaultWorkload::from(Borrow::Unique),
        SetDefaultWorkload::Borrow(Borrow::Unique)
    );
    assert!(Sort::TooManyStorages.message().starts_with("You provided too many storages"));
}

#[test]
fn cell_unique_excludes_shared_until_released() {
    let mut cell = AliasingCell::new(1, 5u32);
    let unique = cell.acquire_unique().ok().unwrap();
    assert_eq!(cell.acquire_shared().err(), Some(Borrow::Shared));
    assert_eq!(cell.acquire_unique().err(), Some(Borrow::Unique));
    cell.set(&unique, 7);
    cell.release_unique(unique);
    assert_eq!(cell.borrow_state(), BorrowState::Free);
    let shared = cell.acquire_shared().ok().unwrap();
    assert_eq!(*cell.get(&shared), 7);
}

#[test]
fn cell_many_shared_then_unique_refused() {
    let mut cell = AliasingCell::new(2, ());
    let a = cell.acquire_shared().ok().unwrap();
    let b = cell.acquire_shared().ok().unwrap();
    assert_eq!(cell.borrow_state(), BorrowState::Shared(2));
    assert_eq!(cell.acquire_unique().err(), Some(Borrow::Unique));
    cell.release_shared(a);
    assert_eq!(cell.borrow_state(), BorrowState::Shared(1));
    cell.release_shared(b);
    assert_eq!(cell.borrow_state(), BorrowState::Free);
    assert!(cell.acquire_unique().is_ok());
}

#[test]
fn view_conflict_scenario() {
    let mut all = AllStorages::new(1);
    assert_eq!(all.get_or_create(sid(1), "X"), Ok(()));
    let unique = all.acquire_storage(sid(1), "X", Mode::Unique).ok().unwrap();
    assert_eq!(unique.storage_id(), sid(1));
    assert_eq!(unique.mode(), Mode::Unique);
    assert_eq!(
        all.acquire_storage(sid(1), "X", Mode::Shared).err(),
        Some(GetStorage::StorageBorrow(("X", Borrow::Shared)))
    );
    all.release_storage(unique);
    let shared = all.acquire_storage(sid(1), "X", Mode::Shared).ok().unwrap();
    assert_eq!(shared.mode(), Mode::Shared);
    assert_eq!(all.storage_state(sid(1)), Some(BorrowState::Shared(1)));
    all.release_storage(shared);
    assert_eq!(all.storage_state(sid(1)), Some(BorrowState::Free));
}

#[test]
fn registry_errors() {
    let mut all = AllStorages::new(1);
    assert_eq!(
        all.acquire_storage(sid(9), "Missing", Mode::Shared).err(),
        Some(GetStorage::MissingComponent("Missing"))
    );
    assert_eq!(all.get_or_create(sid(1), "A"), Ok(()));
    assert_eq!(all.get_or_create(sid(1), "A"), Ok(()));
    assert!(all.acquire_storage(sid(1), "A", Mode::Shared).is_ok());
    assert_eq!(
        all.acquire_storage(sid(1), "A", Mode::Unique).err(),
        Some(GetStorage::StorageBorrow(("A", Borrow::Unique)))
    );
    assert_eq!(all.acquire_all_unique(), Ok(()));
    assert_eq!(
        all.get_or_create(sid(2), "B"),
        Err(GetStorage::AllStoragesBorrow(Borrow::Unique))
    );
    assert_eq!(
        all.acquire_storage(sid(1), "A", Mode::Shared).err(),
        Some(GetStorage::AllStoragesBorrow(Borrow::Shared))
    );
    assert_eq!(
        all.acquire_all_unique(),
        Err(GetStorage::AllStoragesBorrow(Borrow::Unique))
    );
    all.release_all_unique();
    assert_eq!(all.storage_state(sid(2)), None);
}

#[test]
fn register_declares_every_storage() {
    let mut all = AllStorages::new(1);
    let decls = vec![(sid(1), "A"), (sid(2), "B"), (sid(1), "A")];
    assert_eq!(decls.register(&mut all), Ok(()));
    assert_eq!(all.storage_state(sid(1)), Some(BorrowState::Free));
    assert_eq!(all.storage_state(sid(2)), Some(BorrowState::Free));
    assert_eq!(all.registry_borrow_state(), BorrowState::Free);
    assert_eq!(().register(&mut all), Ok(()));
    all.acquire_all_unique().unwrap();
    assert_eq!(
        vec![(sid(3), "C")].register(&mut all),
        Err(GetStorage::AllStoragesBorrow(Borrow::Unique))
    );
    assert_eq!(all.storage_state(sid(3)), None);
}

#[test]
fn storage_insert_get_remove() {
    let mut s: Storage<u32> = Storage::new(sid(1));
    let e0 = EntityId::new(0, 0);
    let e5 = EntityId::new(5, 0);
    s.insert(e5, 50);
    s.insert(e0, 1);
    s.insert(e0, 2);
    assert_eq!(s.len(), 2);
    assert_eq!(s.get(e0), Some(&2));
    assert_eq!(s.get(e5), Some(&50));
    assert_eq!(s.remove(e5), Some(50));
    assert_eq!(s.remove(e5), None);
    assert_eq!(s.len(), 1);
    assert_eq!(s.get(e0), Some(&2));
    assert!(!s.contains(e5));
}

#[test]
fn storage_never_holds_an_entity_twice() {
    let mut s: Storage<u32> = Storage::new(sid(1));
    let a = EntityId::new(3, 0);
    let b = EntityId::new(4, 0);
    s.insert(a, 1);
    s.insert(b, 2);
    s.insert(a, 3);
    s.remove(b);
    s.insert(b, 4);
    s.insert(a, 5);
    assert_eq!(s.dense_ids(), &[a, b]);
    assert_eq!(s.dense_values(), &[5, 4]);
    let reused = EntityId::new(3, 1);
    s.insert(reused, 9);
    assert!(!s.contains(a));
    assert_eq!(s.get(reused), Some(&9));
    assert_eq!(s.len(), 2);
}

#[test]
fn update_pack_twice_is_refused() {
    let mut s: Storage<u32> = Storage::new(sid(4));
    assert_eq!(s.update_pack(), Ok(()));
    assert_eq!(s.update_pack(), Err(Pack::AlreadyUpdatePack(sid(4))));
}

#[test]
fn position_velocity_scenario() {
    let mut pos: Storage<(i32, i32)> = Storage::new(sid(1));
    let mut vel: Storage<(i32, i32)> = Storage::new(sid(2));
    let e1 = EntityId::new(1, 0);
    let e2 = EntityId::new(2, 0);
    let e3 = EntityId::new(3, 0);
    pos.insert(e1, (0, 0));
    vel.insert(e1, (1, 1));
    pos.insert(e2, (5, 5));
    pos.insert(e3, (9, 9));
    vel.insert(e3, (2, 2));
    assert_eq!(Iter2::new(&pos, &vel).collect_ids(), vec![e1, e3]);
    assert_eq!(IterNot::new(&pos, &vel).collect_ids(), vec![e2]);

    let mut pairs = Iter2::new(&pos, &vel);
    let (p, v) = pairs.first_pass().unwrap();
    assert_eq!((*p, *v), ((0, 0), (1, 1)));
    assert_eq!(pairs.current_id(), e1);
    let (p, v) = pairs.first_pass().unwrap();
    assert_eq!((*p, *v), ((9, 9), (2, 2)));
    assert_eq!(pairs.current_id(), e3);
    assert!(pairs.first_pass().is_none());
}

#[test]
fn pair_iteration_yields_intersection_once() {
    let mut a: Storage<u8> = Storage::new(sid(1));
    let mut b: Storage<u8> = Storage::new(sid(2));
    for i in 0..6usize {
        a.insert(EntityId::new(i, 0), 0);
    }
    for i in [4usize, 1, 7, 2] {
        b.insert(EntityId::new(i, 0), 0);
    }
    let got = Iter2::new(&a, &b).collect_ids();
    assert_eq!(
        got,
        vec![EntityId::new(4, 0), EntityId::new(1, 0), EntityId::new(2, 0)]
    );
}

#[test]
fn not_filter_over_empty_storage_yields_all() {
    let a = filled(3);
    let b: Storage<u8> = Storage::new(sid(2));
    assert_eq!(IterNot::new(&a, &b).collect_ids(), a.dense_ids().to_vec());
    let none: Storage<u32> = Storage::new(sid(3));
    assert!(IterNot::new(&none, &a).collect_ids().is_empty());
}

#[test]
fn chunk_exact_then_remainder() {
    let s = filled(10);
    let mut chunks: ChunkExact1<u32> = match s.iter().into_chunk_exact(3) {
        Ok(c) => c,
        Err(_) => panic!("tight iterator refused"),
    };
    assert_eq!(chunks.first_pass().unwrap(), &[0, 10, 20]);
    assert_eq!(chunks.first_pass().unwrap(), &[30, 40, 50]);
    assert_eq!(chunks.first_pass().unwrap(), &[60, 70, 80]);
    assert!(chunks.first_pass().is_none());
    assert_eq!(chunks.remainder(), &[90]);
    assert!(chunks.remainder().is_empty());
}

#[test]
fn chunk_exact_with_no_remainder() {
    let s = filled(6);
    let mut chunks = s.iter().into_chunk_exact(2).ok().unwrap();
    let mut count = 0;
    while let Some(c) = chunks.first_pass() {
        assert_eq!(c.len(), 2);
        count += 1;
    }
    assert_eq!(count, 3);
    assert!(chunks.remainder().is_empty());
}

#[test]
fn chunk_keeps_short_last_batch() {
    let s = filled(10);
    let mut chunks = s.iter().into_chunk(4).ok().unwrap();
    assert_eq!(chunks.first_pass().unwrap(), &[0, 10, 20, 30]);
    assert_eq!(chunks.first_pass().unwrap(), &[40, 50, 60, 70]);
    assert_eq!(chunks.first_pass().unwrap(), &[80, 90]);
    assert!(chunks.first_pass().is_none());
}

#[test]
fn update_iterator_refuses_chunking() {
    let mut s = filled(4);
    s.update_pack().unwrap();
    let it = s.iter();
    let it = match it.into_chunk(2) {
        Ok(_) => panic!("update iterator was chunked"),
        Err(it) => it,
    };
    let it = match it.into_chunk_exact(2) {
        Ok(_) => panic!("update iterator was chunked"),
        Err(it) => it,
    };
    match it {
        Iter1::Update(u) => {
            assert_eq!(u.current, 0);
            assert_eq!(u.end, 4);
            assert!(u.observed.is_empty());
        }
        Iter1::Tight(_) => panic!("iterator changed kind"),
    }
}

#[test]
fn update_iterator_records_kept_items() {
    let mut s = filled(3);
    s.update_pack().unwrap();
    let mut it = s.iter();
    let first = it.first_pass().unwrap();
    assert_eq!(*it.post_process(first), 0);
    let _skipped = it.first_pass().unwrap();
    let third = it.first_pass().unwrap();
    assert_eq!(*it.post_process(third), 20);
    assert!(it.first_pass().is_none());
    match it {
        Iter1::Update(u) => assert_eq!(u.observed, vec![0, 2]),
        Iter1::Tight(_) => panic!("iterator changed kind"),
    }
}

#[test]
fn map_applies_after_post_process() {
    let s = filled(3);
    let mut m = MapIter::new(s.iter(), |x: &u32| *x + 1);
    assert_eq!(m.first_pass(), Some(1));
    assert_eq!(m.current_id(), EntityId::new(0, 0));
    assert_eq!(m.first_pass(), Some(11));
    assert_eq!(m.first_pass(), Some(21));
    assert_eq!(m.first_pass(), None);
}

#[test]
fn with_id_pairs_items_with_entities() {
    let s = filled(2);
    let mut w = WithId::new(s.iter());
    let item = w.first_pass().unwrap();
    let (id, v) = w.post_process(item);
    assert_eq!((id, *v), (EntityId::new(0, 0), 0));
    let (id, v) = w.first_pass().unwrap();
    assert_eq!((id, *v), (EntityId::new(1, 0), 10));
    assert!(w.first_pass().is_none());
}

#[test]
fn update_tracking_flags_inserts_and_kept_items() {
    let mut s: Storage<u32> = Storage::new(sid(1));
    let a = EntityId::new(0, 0);
    let b = EntityId::new(1, 0);
    s.insert(a, 1);
    assert!(!s.is_modified_exec(a));
    s.update_pack().unwrap();
    s.insert(b, 2);
    assert!(s.is_modified_exec(b));
    assert!(!s.is_modified_exec(a));
    s.clear_modified();
    assert!(!s.is_modified_exec(b));

    let observed = {
        let mut it = s.iter();
        let _first = it.first_pass().unwrap();
        let second = it.first_pass().unwrap();
        it.post_process(second);
        match it {
            Iter1::Update(u) => u.observed,
            Iter1::Tight(_) => panic!("iterator changed kind"),
        }
    };
    assert_eq!(observed, vec![1]);
    s.mark_modified(&observed);
    assert!(!s.is_modified_exec(a));
    assert!(s.is_modified_exec(b));
    s.insert(a, 3);
    assert!(s.is_modified_exec(a));
    assert_eq!(s.remove(b), Some(2));
    assert!(s.is_modified_exec(a));
}

#[test]
fn entities_are_not_reused_while_alive() {
    let mut entities = Entities::new();
    let a = entities.new_entity();
    let b = entities.new_entity();
    assert_eq!(a, EntityId::new(0, 0));
    assert_eq!(b, EntityId::new(1, 0));
    assert!(entities.delete(a));
    assert!(!entities.delete(a));
    assert!(!entities.is_alive_exec(a));
    let c = entities.new_entity();
    assert_eq!(c, EntityId::new(0, 1));
    assert!(entities.is_alive_exec(c));
    assert!(!entities.is_alive_exec(a));
    assert!(entities.is_alive_exec(b));
}

#[test]
fn add_component_needs_a_live_entity() {
    let mut entities = Entities::new();
    let mut s: Storage<u32> = Storage::new(sid(1));
    let a = entities.new_entity();
    assert_eq!(add_component(&entities, &mut s, a, 4), Ok(()));
    assert_eq!(s.get(a), Some(&4));
    entities.delete(a);
    assert_eq!(
        add_component(&entities, &mut s, a, 5),
        Err(AddComponent::EntityIsNotAlive)
    );
    assert_eq!(s.get(a), Some(&4));
}

#[test]
fn tight_pack_position_velocity_scenario() {
    let mut pos: Storage<(i32, i32)> = Storage::new(sid(1));
    let mut vel: Storage<(i32, i32)> = Storage::new(sid(2));
    let e1 = EntityId::new(1, 0);
    let e2 = EntityId::new(2, 0);
    let e3 = EntityId::new(3, 0);
    pos.insert(e1, (0, 0));
    vel.insert(e1, (1, 1));
    pos.insert(e2, (5, 5));
    pos.insert(e3, (9, 9));
    vel.insert(e3, (2, 2));
    let pack = TightPack::new(pos, vel);
    assert_eq!(pack.len(), 2);
    assert_eq!(pack.iter().collect_ids(), vec![e1, e3]);
    let mut it = pack.iter();
    let (p, v) = it.first_pass().unwrap();
    assert_eq!((*p, *v), ((0, 0), (1, 1)));
    let (p, v) = it.first_pass().unwrap();
    assert_eq!((*p, *v), ((9, 9), (2, 2)));
    assert_eq!(it.current_id(), e3);
    assert!(it.first_pass().is_none());
    assert_eq!(
        IterNot::new(pack.first_storage(), pack.second_storage()).collect_ids(),
        vec![e2]
    );
}

#[test]
fn tight_pack_follows_adds_and_removes() {
    let a: Storage<u32> = Storage::new(sid(1));
    let b: Storage<u32> = Storage::new(sid(2));
    let mut pack = TightPack::new(a, b);
    let ids: Vec<EntityId> = (0..5).map(|i| EntityId::new(i, 0)).collect();
    for (i, e) in ids.iter().enumerate() {
        pack.add_component(*e, i as u32, 10 * i as u32);
    }
    assert_eq!(pack.len(), 5);
    assert_eq!(pack.remove_component(ids[1]), (Some(1), Some(10)));
    assert_eq!(pack.remove_component(ids[1]), (None, None));
    assert_eq!(pack.len(), 4);
    let got = pack.iter().collect_ids();
    assert_eq!(got.len(), 4);
    for e in [ids[0], ids[2], ids[3], ids[4]] {
        assert!(got.contains(&e));
    }
    let (first, second) = pack.into_storages();
    assert_eq!(first.get(ids[3]), Some(&3));
    assert_eq!(second.get(ids[3]), Some(&30));
}

#[test]
fn tight_pack_chunk_exact_then_remainder() {
    let mut a: Storage<u32> = Storage::new(sid(1));
    let mut b: Storage<u32> = Storage::new(sid(2));
    for i in 0..7usize {
        a.insert(EntityId::new(i, 0), i as u32);
        b.insert(EntityId::new(i, 0), 100 + i as u32);
    }
    a.insert(EntityId::new(20, 0), 20);
    let pack = TightPack::new(a, b);
    assert_eq!(pack.len(), 7);
    let mut chunks = pack.iter().into_chunk_exact(3);
    let (x, y) = chunks.first_pass().unwrap();
    assert_eq!((x, y), (&[0, 1, 2][..], &[100, 101, 102][..]));
    let (x, y) = chunks.first_pass().unwrap();
    assert_eq!((x, y), (&[3, 4, 5][..], &[103, 104, 105][..]));
    assert!(chunks.first_pass().is_none());
    let (x, y) = chunks.remainder();
    assert_eq!((x, y), (&[6][..], &[106][..]));
    let (x, y) = chunks.remainder();
    assert!(x.is_empty() && y.is_empty());
}

#[test]
fn chunk_exact_from_a_partly_consumed_iterator() {
    let s = filled(5);
    let mut it = s.iter();
    assert_eq!(it.first_pass(), Some(&0));
    let mut chunks = match it.into_chunk_exact(2) {
        Ok(c) => c,
        Err(_) => panic!("tight iterator refused"),
    };
    assert_eq!(chunks.first_pass().unwrap(), &[10, 20]);
    assert_eq!(chunks.first_pass().unwrap(), &[30, 40]);
    assert!(chunks.first_pass().is_none());
    assert!(chunks.remainder().is_empty());

    let s = filled(6);
    let mut it = s.iter();
    it.first_pass();
    let mut chunks = it.into_chunk_exact(2).ok().unwrap();
    assert_eq!(chunks.remainder(), &[50]);
    assert!(chunks.remainder().is_empty());
    assert_eq!(chunks.first_pass().unwrap(), &[10, 20]);
    assert_eq!(chunks.first_pass().unwrap(), &[30, 40]);
    assert!(chunks.first_pass().is_none());
}

#[test]
fn update_iterator_refuses_chunking_with_zero_step() {
    let mut s = filled(2);
    s.update_pack().unwrap();
    assert!(s.iter().into_chunk(0).is_err());
    assert!(s.iter().into_chunk_exact(0).is_err());
}

#[test]
fn tight_pack_scenario_after_packing() {
    let pos: Storage<(i32, i32)> = Storage::new(sid(1));
    let vel: Storage<(i32, i32)> = Storage::new(sid(2));
    let mut pack = TightPack::new(pos, vel);
    let e1 = EntityId::new(1, 0);
    let e2 = EntityId::new(2, 0);
    let e3 = EntityId::new(3, 0);
    pack.add_component(e1, (0, 0), (1, 1));
    pack.add_first(e2, (5, 5));
    pack.add_component(e3, (9, 9), (2, 2));
    assert_eq!(pack.len(), 2);
    assert_eq!(pack.iter().collect_ids(), vec![e1, e3]);
    assert_eq!(
        IterNot::new(pack.first_storage(), pack.second_storage()).collect_ids(),
        vec![e2]
    );
    pack.add_second(e2, (7, 7));
    assert_eq!(pack.iter().collect_ids(), vec![e1, e3, e2]);
    let stale = EntityId::new(2, 1);
    pack.add_first(stale, (8, 8));
    assert_eq!(pack.iter().collect_ids(), vec![e1, e3]);
    assert!(!pack.second_storage().contains(e2));
    assert_eq!(pack.first_storage().get(stale), Some(&(8, 8)));
}

#[test]
fn register_adds_only_declared_storages() {
    let mut all = AllStorages::new(3);
    all.get_or_create(sid(5), "E").unwrap();
    let view = all.acquire_storage(sid(5), "E", Mode::Shared).ok().unwrap();
    assert_eq!(vec![(sid(1), "A"), (sid(5), "E")].register(&mut all), Ok(()));
    assert_eq!(all.storage_state(sid(5)), Some(BorrowState::Shared(1)));
    assert_eq!(all.storage_state(sid(1)), Some(BorrowState::Free));
    assert_eq!(all.storage_state(sid(2)), None);
    all.release_storage(view);
    assert_eq!(all.storage_state(sid(5)), Some(BorrowState::Free));
}
