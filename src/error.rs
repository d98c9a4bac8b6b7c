use vstd::prelude::*;
use crate::entity::{decimal, decimal_string, StorageId};

verus! {

/// Conflict class of a refused borrow.
///
/// `Unique`: an exclusive borrow was asked for while the cell was already borrowed.
///
/// `Shared`: a shared borrow was asked for while the cell was exclusively borrowed.
#[derive(Clone, Copy, Debug, PartialEq, Eq, Structural)]
pub enum Borrow {
    Unique,
    Shared,
}

impl Borrow {
    pub open spec fn text(self) -> Seq<char> {
        match self {
            Borrow::Unique => "Cannot mutably borrow while already borrowed."@,
            Borrow::Shared => "Cannot immutably borrow while already mutably borrowed."@,
        }
    }

    /// Human readable description of the conflict.
    pub fn message(&self) -> (r: String)
        ensures
            r@ == self.text(),
    {
        match self {
            Borrow::Unique => String::from_str("Cannot mutably borrow while already borrowed."),
            Borrow::Shared => String::from_str("Cannot immutably borrow while already mutably borrowed."),
        }
    }
}

/// Failure to resolve a view on a storage.
#[derive(Clone, Copy, Debug, PartialEq, Eq)]
pub enum GetStorage {
    AllStoragesBorrow(Borrow),
    StorageBorrow((&'static str, Borrow)),
    MissingComponent(&'static str),
    NonUnique((&'static str, Borrow)),
    MissingUnique(&'static str),
    Entities(Borrow),
}

impl GetStorage {
    pub open spec fn text(self) -> Seq<char> {
        match self {
            GetStorage::AllStoragesBorrow(Borrow::Unique) =>
                "Cannot mutably borrow AllStorages while it's already borrowed (AllStorages is borrowed to access any storage)."@,
            GetStorage::AllStoragesBorrow(Borrow::Shared) =>
                "Cannot immutably borrow AllStorages while it's already mutably borrowed."@,
            GetStorage::StorageBorrow((name, Borrow::Unique)) =>
                "Cannot mutably borrow \""@ + name@ + "\" storage while it's already borrowed."@,
            GetStorage::StorageBorrow((name, Borrow::Shared)) =>
                "Cannot immutably borrow \""@ + name@
                    + "\" storage while it's already mutably borrowed."@,
            GetStorage::MissingComponent(name) =>
                "No storage exists for "@ + name@
                    + ".\nConsider adding this line after the creation of World: world.register::<"@
                    + name@ + ">();"@,
            GetStorage::MissingUnique(name) =>
                "No unique storage exists for "@ + name@
                    + ".\nConsider adding this line after the creation of World: world.register_unique::<"@
                    + name@ + ">(/* your_storage */);"@,
            GetStorage::NonUnique((name, mutation)) =>
                name@ + "'s storage isn't unique.\nYou might have forgotten to declare it, replace world.register::<"@
                    + name@
                    + ">() by world.register_unique(/* your_storage */).\nIf it isn't supposed to be a unique storage, replace Unique<&"@
                    + (if mutation == Borrow::Unique { "mut "@ } else { ""@ }) + name@ + "> by &"@
                    + (if mutation == Borrow::Unique { "mut "@ } else { ""@ }) + name@ + "."@,
            GetStorage::Entities(Borrow::Unique) =>
                "Cannot mutably borrow Entities storage while it's already borrowed."@,
            GetStorage::Entities(Borrow::Shared) =>
                "Cannot immutably borrow Entities storage while it's already mutably borrowed."@,
        }
    }

    /// Human readable description of the failure.
    pub fn message(&self) -> (r: String)
        ensures
            r@ == self.text(),
    {
        match self {
            GetStorage::AllStoragesBorrow(Borrow::Unique) => String::from_str(
                "Cannot mutably borrow AllStorages while it's already borrowed (AllStorages is borrowed to access any storage).",
            ),
            GetStorage::AllStoragesBorrow(Borrow::Shared) => String::from_str(
                "Cannot immutably borrow AllStorages while it's already mutably borrowed.",
            ),
            GetStorage::StorageBorrow((name, Borrow::Unique)) => String::from_str(
                "Cannot mutably borrow \"",
            ).concat(name).concat("\" storage while it's already borrowed."),
            GetStorage::StorageBorrow((name, Borrow::Shared)) => String::from_str(
                "Cannot immutably borrow \"",
            ).concat(name).concat("\" storage while it's already mutably borrowed."),
            GetStorage::MissingComponent(name) => String::from_str("No storage exists for ").concat(
                name,
            ).concat(
                ".\nConsider adding this line after the creation of World: world.register::<",
            ).concat(name).concat(">();"),
            GetStorage::MissingUnique(name) => String::from_str(
                "No unique storage exists for ",
            ).concat(name).concat(
                ".\nConsider adding this line after the creation of World: world.register_unique::<",
            ).concat(name).concat(">(/* your_storage */);"),
            GetStorage::NonUnique((name, mutation)) => {
                let reference = match mutation {
                    Borrow::Unique => "mut ",
                    Borrow::Shared => "",
                };
                String::from_str(name).concat(
                    "'s storage isn't unique.\nYou might have forgotten to declare it, replace world.register::<",
                ).concat(name).concat(
                    ">() by world.register_unique(/* your_storage */).\nIf it isn't supposed to be a unique storage, replace Unique<&",
                ).concat(reference).concat(name).concat("> by &").concat(reference).concat(
                    name,
                ).concat(".")
            },
            GetStorage::Entities(Borrow::Unique) => String::from_str(
                "Cannot mutably borrow Entities storage while it's already borrowed.",
            ),
            GetStorage::Entities(Borrow::Shared) => String::from_str(
                "Cannot immutably borrow Entities storage while it's already mutably borrowed.",
            ),
        }
    }
}

/// Failure to create an entity.
///
/// `AllStoragesBorrow`: a structural change of the registry is in progress.
///
/// `Entities`: the entity registry is already borrowed.
#[derive(Clone, Copy, Debug, PartialEq, Eq, Structural)]
pub enum NewEntity {
    AllStoragesBorrow(Borrow),
    Entities(Borrow),
}

impl NewEntity {
    pub open spec fn text(self) -> Seq<char> {
        match self {
            NewEntity::AllStoragesBorrow(Borrow::Unique) =>
                "Cannot mutably borrow all storages while it's already borrowed (this include component storage)."@,
            NewEntity::AllStoragesBorrow(Borrow::Shared) =>
                "Cannot immutably borrow all storages while it's already mutably borrowed."@,
            NewEntity::Entities(Borrow::Unique) =>
                "Cannot mutably borrow entities while it's already borrowed."@,
            NewEntity::Entities(Borrow::Shared) =>
                "Cannot immutably borrow entities while it's already mutably borrowed."@,
        }
    }

    /// Human readable description of the failure.
    pub fn message(&self) -> (r: String)
        ensures
            r@ == self.text(),
    {
        match self {
            NewEntity::AllStoragesBorrow(Borrow::Unique) => String::from_str(
                "Cannot mutably borrow all storages while it's already borrowed (this include component storage).",
            ),
            NewEntity::AllStoragesBorrow(Borrow::Shared) => String::from_str(
                "Cannot immutably borrow all storages while it's already mutably borrowed.",
            ),
            NewEntity::Entities(Borrow::Unique) => String::from_str(
                "Cannot mutably borrow entities while it's already borrowed.",
            ),
            NewEntity::Entities(Borrow::Shared) => String::from_str(
                "Cannot immutably borrow entities while it's already mutably borrowed.",
            ),
        }
    }
}

/// Failure to add a component.
///
/// `MissingPackStorage`: the storage named is packed with the target and was not supplied.
///
/// `EntityIsNotAlive`: the entity was deleted.
#[derive(Clone, Copy, Debug, PartialEq, Eq, Structural)]
pub enum AddComponent {
    MissingPackStorage(StorageId),
    EntityIsNotAlive,
}

impl AddComponent {
    pub open spec fn text(self) -> Seq<char> {
        match self {
            AddComponent::MissingPackStorage(id) =>
                "Missing storage for type ("@ + decimal(id.id as nat)
                    + "). To add a packed component you have to pass all storages packed with it. Even if you just add one component."@,
            AddComponent::EntityIsNotAlive => "Entity has to be alive to add component to it."@,
        }
    }

    /// Human readable description of the failure.
    pub fn message(&self) -> (r: String)
        ensures
            r@ == self.text(),
    {
        match self {
            AddComponent::MissingPackStorage(id) => {
                let number = decimal_string(id.id);
                String::from_str("Missing storage for type (").concat(number.as_str()).concat(
                    "). To add a packed component you have to pass all storages packed with it. Even if you just add one component.",
                )
            },
            AddComponent::EntityIsNotAlive => String::from_str(
                "Entity has to be alive to add component to it.",
            ),
        }
    }
}

/// Failure to establish a pack: a storage could not be resolved, already
/// holds an incompatible pack, or is a unique storage.
#[derive(Clone, Copy, Debug, PartialEq, Eq)]
pub enum Pack {
    GetStorage(GetStorage),
    AlreadyTightPack(StorageId),
    AlreadyLoosePack(StorageId),
    AlreadyUpdatePack(StorageId),
    UniqueStorage(&'static str),
}

impl From<GetStorage> for Pack {
    fn from(get_storage: GetStorage) -> (r: Pack) {
        Pack::GetStorage(get_storage)
    }
}

impl vstd::std_specs::convert::FromSpecImpl<GetStorage> for Pack {
    open spec fn obeys_from_spec() -> bool {
        true
    }

    open spec fn from_spec(get_storage: GetStorage) -> Pack {
        Pack::GetStorage(get_storage)
    }
}

impl Pack {
    pub open spec fn text(self) -> Seq<char> {
        match self {
            Pack::GetStorage(get_storage) => get_storage.text(),
            Pack::AlreadyTightPack(id) =>
                "The storage of type ("@ + decimal(id.id as nat) + ") is already tightly packed."@,
            Pack::AlreadyLoosePack(id) =>
                "The storage of type ("@ + decimal(id.id as nat) + ") is already loosely packed."@,
            Pack::AlreadyUpdatePack(id) =>
                "The storage of type ("@ + decimal(id.id as nat)
                    + ") is already has an update pack."@,
            Pack::UniqueStorage(name) =>
                "The storage of type \"\""@ + name@
                    + "\"\" is a unique storage and can't be packed."@,
        }
    }

    /// Human readable description of the failure.
    pub fn message(&self) -> (r: String)
        ensures
            r@ == self.text(),
    {
        match self {
            Pack::GetStorage(get_storage) => get_storage.message(),
            Pack::AlreadyTightPack(id) => {
                let number = decimal_string(id.id);
                String::from_str("The storage of type (").concat(number.as_str()).concat(
                    ") is already tightly packed.",
                )
            },
            Pack::AlreadyLoosePack(id) => {
                let number = decimal_string(id.id);
                String::from_str("The storage of type (").concat(number.as_str()).concat(
                    ") is already loosely packed.",
                )
            },
            Pack::AlreadyUpdatePack(id) => {
                let number = decimal_string(id.id);
                String::from_str("The storage of type (").concat(number.as_str()).concat(
                    ") is already has an update pack.",
                )
            },
            Pack::UniqueStorage(name) => String::from_str("The storage of type \"\"").concat(
                name,
            ).concat("\"\" is a unique storage and can't be packed."),
        }
    }
}

/// Failure to remove a packed component: the storage named is packed with
/// the target and was not supplied.
#[derive(Clone, Copy, Debug, PartialEq, Eq, Structural)]
pub enum Remove {
    MissingPackStorage(StorageId),
}

impl Remove {
    pub open spec fn text(self) -> Seq<char> {
        match self {
            Remove::MissingPackStorage(id) =>
                "Missing storage for type ("@ + decimal(id.id as nat)
                    + "). To remove a packed component you have to pass all storages packed with it. Even if you just remove one component."@,
        }
    }

    /// Human readable description of the failure.
    pub fn message(&self) -> (r: String)
        ensures
            r@ == self.text(),
    {
        match self {
            Remove::MissingPackStorage(id) => {
                let number = decimal_string(id.id);
                String::from_str("Missing storage for type (").concat(number.as_str()).concat(
                    "). To remove a packed component you have to pass all storages packed with it. Even if you just remove one component.",
                )
            },
        }
    }
}

/// Failure to set the default workload.
#[derive(Clone, Copy, Debug, PartialEq, Eq, Structural)]
pub enum SetDefaultWorkload {
    Borrow(Borrow),
    MissingWorkload,
}

impl From<Borrow> for SetDefaultWorkload {
    fn from(borrow: Borrow) -> (r: SetDefaultWorkload) {
        SetDefaultWorkload::Borrow(borrow)
    }
}

impl vstd::std_specs::convert::FromSpecImpl<Borrow> for SetDefaultWorkload {
    open spec fn obeys_from_spec() -> bool {
        true
    }

    open spec fn from_spec(borrow: Borrow) -> SetDefaultWorkload {
        SetDefaultWorkload::Borrow(borrow)
    }
}

impl SetDefaultWorkload {
    pub open spec fn text(self) -> Seq<char> {
        match self {
            SetDefaultWorkload::Borrow(Borrow::Unique) =>
                "Cannot mutably borrow pipeline while it's already borrowed."@,
            SetDefaultWorkload::Borrow(Borrow::Shared) =>
                "Cannot immutably borrow pipeline while it's already mutably borrowed."@,
            SetDefaultWorkload::MissingWorkload => "No workload with this name exists."@,
        }
    }

    /// Human readable description of the failure.
    pub fn message(&self) -> (r: String)
        ensures
            r@ == self.text(),
    {
        match self {
            SetDefaultWorkload::Borrow(Borrow::Unique) => String::from_str(
                "Cannot mutably borrow pipeline while it's already borrowed.",
            ),
            SetDefaultWorkload::Borrow(Borrow::Shared) => String::from_str(
                "Cannot immutably borrow pipeline while it's already mutably borrowed.",
            ),
            SetDefaultWorkload::MissingWorkload => String::from_str(
                "No workload with this name exists.",
            ),
        }
    }
}

/// Failure to run a workload.
#[derive(Clone, Copy, Debug, PartialEq, Eq, Structural)]
pub enum RunWorkload {
    Borrow(Borrow),
    MissingWorkload,
}

impl From<Borrow> for RunWorkload {
    fn from(borrow: Borrow) -> (r: RunWorkload) {
        RunWorkload::Borrow(borrow)
    }
}

impl vstd::std_specs::convert::FromSpecImpl<Borrow> for RunWorkload {
    open spec fn obeys_from_spec() -> bool {
        true
    }

    open spec fn from_spec(borrow: Borrow) -> RunWorkload {
        RunWorkload::Borrow(borrow)
    }
}

impl RunWorkload {
    pub open spec fn text(self) -> Seq<char> {
        match self {
            RunWorkload::Borrow(Borrow::Unique) =>
                "Cannot mutably borrow pipeline while it's already borrowed."@,
            RunWorkload::Borrow(Borrow::Shared) =>
                "Cannot mutably borrow pipeline while it's already borrowed."@,
            RunWorkload::MissingWorkload => "No workload with this name exists."@,
        }
    }

    /// Human readable description of the failure.
    pub fn message(&self) -> (r: String)
        ensures
            r@ == self.text(),
    {
        match self {
            RunWorkload::Borrow(Borrow::Unique) => String::from_str(
                "Cannot mutably borrow pipeline while it's already borrowed.",
            ),
            RunWorkload::Borrow(Borrow::Shared) => String::from_str(
                "Cannot mutably borrow pipeline while it's already borrowed.",
            ),
            RunWorkload::MissingWorkload => String::from_str("No workload with this name exists."),
        }
    }
}

/// Failure to sort a storage.
///
/// `MissingPackStorage`: the storage is packed and its whole pack must be sorted together.
///
/// `TooManyStorages`: storages that are not packed together were passed.
#[derive(Clone, Copy, Debug, PartialEq, Eq, Structural)]
pub enum Sort {
    MissingPackStorage,
    TooManyStorages,
}

impl Sort {
    pub open spec fn text(self) -> Seq<char> {
        match self {
            Sort::MissingPackStorage =>
                "The storage you want to sort is packed, you may be able to sort the whole pack by passing all storages packed with it to the function. Some packs can't be sorted."@,
            Sort::TooManyStorages =>
                "You provided too many storages non packed together. Only single storage and storages packed together can be sorted."@,
        }
    }

    /// Human readable description of the failure.
    pub fn message(&self) -> (r: String)
        ensures
            r@ == self.text(),
    {
        match self {
            Sort::MissingPackStorage => String::from_str(
                "The storage you want to sort is packed, you may be able to sort the whole pack by passing all storages packed with it to the function. Some packs can't be sorted.",
            ),
            Sort::TooManyStorages => String::from_str(
                "You provided too many storages non packed together. Only single storage and storages packed together can be sorted.",
            ),
        }
    }
}

} // verus!
