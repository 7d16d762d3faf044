//! Source adapters: pluggable key/value backends exposing get and set of
//! string values.
//!
//! Three adapters exist: an in-memory durable store, the no-op adapter
//! (always absent on read, always succeeds and discards on write) used to
//! bootstrap configurations that must not touch durable storage, and a
//! faulty adapter on which every operation fails, standing for a backend
//! that cannot be reached.

use vstd::prelude::*;

use crate::errors::SourceFault;
use crate::table::KvTable;

verus! {

/// The spec-level state of a source adapter: whether operations succeed,
/// whether writes are kept, and the visible key/value contents.
pub struct SourceModel {
    pub ok: bool,
    pub keeps: bool,
    pub contents: Map<Seq<char>, Seq<char>>,
}

/// What a get returns on a source in the given state.
pub open spec fn model_get(m: SourceModel, k: Seq<char>) -> Result<Option<Seq<char>>, ()> {
    if !m.ok {
        Err(())
    } else if m.contents.dom().contains(k) {
        Ok(Some(m.contents[k]))
    } else {
        Ok(None)
    }
}

/// The source state after a set: an upsert where writes are kept, a
/// discarded write where they are not, a fault where operations fail.
pub open spec fn model_set(m: SourceModel, k: Seq<char>, v: Seq<char>) -> Result<SourceModel, ()> {
    if !m.ok {
        Err(())
    } else if m.keeps {
        Ok(SourceModel { contents: m.contents.insert(k, v), ..m })
    } else {
        Ok(m)
    }
}

/// A key/value backend for configuration values.
pub enum DataSource {
    /// A durable in-memory store.
    Memory(KvTable<String>),
    /// Absent on every read; accepts and discards every write.
    Nop,
    /// Every operation fails.
    Faulty,
}

impl View for DataSource {
    type V = SourceModel;

    open spec fn view(&self) -> SourceModel {
        match self {
            DataSource::Memory(t) => SourceModel { ok: true, keeps: true, contents: t@ },
            DataSource::Nop => SourceModel {
                ok: true,
                keeps: false,
                contents: Map::empty(),
            },
            DataSource::Faulty => SourceModel {
                ok: false,
                keeps: false,
                contents: Map::empty(),
            },
        }
    }
}

impl DataSource {
    /// An empty in-memory store.
    pub fn memory() -> (r: DataSource)
        ensures
            r@.ok,
            r@.keeps,
            r@.contents == Map::<Seq<char>, Seq<char>>::empty(),
    {
        DataSource::Memory(KvTable::new())
    }

    /// The no-op adapter.
    pub fn nop() -> (r: DataSource)
        ensures
            r@.ok,
            !r@.keeps,
            r@.contents == Map::<Seq<char>, Seq<char>>::empty(),
    {
        DataSource::Nop
    }

    /// An adapter on which every operation fails.
    pub fn faulty() -> (r: DataSource)
        ensures
            !r@.ok,
    {
        DataSource::Faulty
    }

    /// Read the value stored under a key.
    pub fn get(&self, key: &str) -> (r: Result<Option<String>, SourceFault>)
        ensures
            match r {
                Ok(Some(v)) => model_get(self@, key@) == Ok::<Option<Seq<char>>, ()>(
                    Some(v@),
                ),
                Ok(None) => model_get(self@, key@) == Ok::<Option<Seq<char>>, ()>(
                    None::<Seq<char>>,
                ),
                Err(_) => model_get(self@, key@) == Err::<Option<Seq<char>>, ()>(()),
            },
    {
        match self {
            DataSource::Memory(t) => match t.get(key) {
                Some(v) => Ok(Some(v.clone())),
                None => Ok(None),
            },
            DataSource::Nop => Ok(None),
            DataSource::Faulty => Err(SourceFault),
        }
    }

    /// Write a value under a key.
    pub fn set(&mut self, key: &str, value: String) -> (r: Result<(), SourceFault>)
        ensures
            match r {
                Ok(_) => model_set(old(self)@, key@, value@) == Ok::<SourceModel, ()>(
                    final(self)@,
                ),
                Err(_) => model_set(old(self)@, key@, value@) == Err::<SourceModel, ()>(())
                    && final(self)@ == old(self)@,
            },
    {
        match self {
            DataSource::Memory(t) => {
                t.set(key, value);
                Ok(())
            },
            DataSource::Nop => Ok(()),
            DataSource::Faulty => Err(SourceFault),
        }
    }
}

} // verus!
