//! The in-memory index of the data set: parts keyed by manufacturer and MPN,
//! devices and packages keyed by id, and the ids of the known sources.
//! Every query of the API only reads it.

use vstd::prelude::*;
use crate::error::ApiError;
use crate::keyed::{
    has_key, keyed_map, keys_unique, lemma_keyed_map_at, lemma_keyed_map_len, lemma_keyed_map_push,
    lemma_keyed_map_update,
};

verus! {

/// A part as the index holds it: what the queries read of it, and the
/// part's full record (`data`), carried for the caller.
#[derive(Debug)]
pub struct PartEntry<P> {
    pub manufacturer: String,
    pub mpn: String,
    /// Id of the device this part is an instance of.
    pub device: String,
    /// Id of the package this part comes in.
    pub package: String,
    pub data: P,
}

/// A silicon revision that a device declares.
#[derive(Debug)]
pub struct Revision {
    pub id: String,
    pub manufacturer_revision: String,
}

/// A device as the index holds it.
#[derive(Debug)]
pub struct DeviceEntry<D> {
    pub id: String,
    pub revisions: Vec<Revision>,
    pub data: D,
}

/// A package as the index holds it.
#[derive(Debug)]
pub struct PackageEntry<K> {
    pub id: String,
    pub data: K,
}

/// The key a part is found by: (manufacturer, MPN).
pub open spec fn part_key<P>(e: PartEntry<P>) -> (Seq<char>, Seq<char>) {
    (e.manufacturer@, e.mpn@)
}

pub open spec fn part_key_fn<P>() -> spec_fn(PartEntry<P>) -> (Seq<char>, Seq<char>) {
    |e: PartEntry<P>| part_key(e)
}

pub open spec fn device_key_fn<D>() -> spec_fn(DeviceEntry<D>) -> Seq<char> {
    |e: DeviceEntry<D>| e.id@
}

pub open spec fn package_key_fn<K>() -> spec_fn(PackageEntry<K>) -> Seq<char> {
    |e: PackageEntry<K>| e.id@
}

pub open spec fn source_key_fn() -> spec_fn(String) -> Seq<char> {
    |s: String| s@
}

/// The index.
pub struct Store<P, D, K> {
    parts: Vec<PartEntry<P>>,
    devices: Vec<DeviceEntry<D>>,
    packages: Vec<PackageEntry<K>>,
    sources: Vec<String>,
}

/// What the index holds: a map for each kind of entity, and the set of
/// known source ids.
pub struct StoreView<P, D, K> {
    pub parts: Map<(Seq<char>, Seq<char>), PartEntry<P>>,
    pub devices: Map<Seq<char>, DeviceEntry<D>>,
    pub packages: Map<Seq<char>, PackageEntry<K>>,
    pub sources: Set<Seq<char>>,
}

impl<P, D, K> View for Store<P, D, K> {
    type V = StoreView<P, D, K>;

    closed spec fn view(&self) -> StoreView<P, D, K> {
        StoreView {
            parts: keyed_map(self.parts@, part_key_fn()),
            devices: keyed_map(self.devices@, device_key_fn()),
            packages: keyed_map(self.packages@, package_key_fn()),
            sources: keyed_map(self.sources@, source_key_fn()).dom(),
        }
    }
}

/// The error for a part that is not in the index.
pub open spec fn part_not_found(e: ApiError, manufacturer: Seq<char>, mpn: Seq<char>) -> bool {
    e matches ApiError::NotFound(msg) && msg@ == "no part "@ + manufacturer + "/"@ + mpn
}

/// The error for a device that is not in the index.
pub open spec fn device_not_found(e: ApiError, id: Seq<char>) -> bool {
    e matches ApiError::NotFound(msg) && msg@ == "no device "@ + id
}

/// The error for a package that is not in the index.
pub open spec fn package_not_found(e: ApiError, id: Seq<char>) -> bool {
    e matches ApiError::NotFound(msg) && msg@ == "no package "@ + id
}

fn not_found_part(manufacturer: &str, mpn: &str) -> (e: ApiError)
    ensures
        part_not_found(e, manufacturer@, mpn@),
{
    let mut msg = String::from_str("no part ");
    msg.append(manufacturer);
    msg.append("/");
    msg.append(mpn);
    ApiError::NotFound(msg)
}

fn not_found_device(id: &str) -> (e: ApiError)
    ensures
        device_not_found(e, id@),
{
    let mut msg = String::from_str("no device ");
    msg.append(id);
    ApiError::NotFound(msg)
}

fn not_found_package(id: &str) -> (e: ApiError)
    ensures
        package_not_found(e, id@),
{
    let mut msg = String::from_str("no package ");
    msg.append(id);
    ApiError::NotFound(msg)
}

impl<P, D, K> Store<P, D, K> {
    /// The index is well formed: no two entries of a kind share a key.
    #[verifier::type_invariant]
    spec fn wf(&self) -> bool {
        &&& keys_unique(self.parts@, part_key_fn())
        &&& keys_unique(self.devices@, device_key_fn())
        &&& keys_unique(self.packages@, package_key_fn())
        &&& keys_unique(self.sources@, source_key_fn())
    }

    /// An empty index.
    pub fn new() -> (s: Self)
        ensures
            s@.parts == Map::<(Seq<char>, Seq<char>), PartEntry<P>>::empty(),
            s@.devices == Map::<Seq<char>, DeviceEntry<D>>::empty(),
            s@.packages == Map::<Seq<char>, PackageEntry<K>>::empty(),
            s@.sources == Set::<Seq<char>>::empty(),
    {
        let s = Store {
            parts: Vec::new(),
            devices: Vec::new(),
            packages: Vec::new(),
            sources: Vec::new(),
        };
        proof {
            assert(s@.parts =~= Map::empty());
            assert(s@.devices =~= Map::empty());
            assert(s@.packages =~= Map::empty());
            assert(s@.sources =~= Set::empty());
        }
        s
    }

    /// Position of the part with the given key, if any.
    fn find_part(parts: &Vec<PartEntry<P>>, manufacturer: &str, mpn: &str) -> (r: Option<usize>)
        ensures
            match r {
                Some(i) => i < parts@.len() && part_key(parts@[i as int]) == (manufacturer@, mpn@),
                None => !has_key(parts@, part_key_fn(), (manufacturer@, mpn@)),
            },
    {
        let m = String::from_str(manufacturer);
        let n = String::from_str(mpn);
        let mut i: usize = 0;
        while i < parts.len()
            invariant
                i <= parts@.len(),
                m@ == manufacturer@,
                n@ == mpn@,
                forall|j: int| 0 <= j < i ==> part_key(#[trigger] parts@[j]) != (manufacturer@, mpn@),
            decreases parts.len() - i,
        {
            if parts[i].manufacturer == m && parts[i].mpn == n {
                return Some(i);
            }
            i = i + 1;
        }
        None
    }

    /// Position of the device with the given id, if any.
    fn find_device(devices: &Vec<DeviceEntry<D>>, id: &str) -> (r: Option<usize>)
        ensures
            match r {
                Some(i) => i < devices@.len() && devices@[i as int].id@ == id@,
                None => !has_key(devices@, device_key_fn(), id@),
            },
    {
        let key = String::from_str(id);
        let mut i: usize = 0;
        while i < devices.len()
            invariant
                i <= devices@.len(),
                key@ == id@,
                forall|j: int| 0 <= j < i ==> (#[trigger] devices@[j]).id@ != id@,
            decreases devices.len() - i,
        {
            if devices[i].id == key {
                return Some(i);
            }
            i = i + 1;
        }
        None
    }

    /// Position of the package with the given id, if any.
    fn find_package(packages: &Vec<PackageEntry<K>>, id: &str) -> (r: Option<usize>)
        ensures
            match r {
                Some(i) => i < packages@.len() && packages@[i as int].id@ == id@,
                None => !has_key(packages@, package_key_fn(), id@),
            },
    {
        let key = String::from_str(id);
        let mut i: usize = 0;
        while i < packages.len()
            invariant
                i <= packages@.len(),
                key@ == id@,
                forall|j: int| 0 <= j < i ==> (#[trigger] packages@[j]).id@ != id@,
            decreases packages.len() - i,
        {
            if packages[i].id == key {
                return Some(i);
            }
            i = i + 1;
        }
        None
    }

    /// Position of the given source id, if any.
    fn find_source(sources: &Vec<String>, id: &String) -> (r: Option<usize>)
        ensures
            match r {
                Some(i) => i < sources@.len() && sources@[i as int]@ == id@,
                None => !has_key(sources@, source_key_fn(), id@),
            },
    {
        let mut i: usize = 0;
        while i < sources.len()
            invariant
                i <= sources@.len(),
                forall|j: int| 0 <= j < i ==> (#[trigger] sources@[j])@ != id@,
            decreases sources.len() - i,
        {
            if sources[i] == *id {
                return Some(i);
            }
            i = i + 1;
        }
        None
    }

    /// Adds a part, replacing the one with the same (manufacturer, MPN) key.
    pub fn insert_part(&mut self, entry: PartEntry<P>)
        ensures
            final(self)@.parts == old(self)@.parts.insert(part_key(entry), entry),
            final(self)@.devices == old(self)@.devices,
            final(self)@.packages == old(self)@.packages,
            final(self)@.sources == old(self)@.sources,
    {
        proof {
            use_type_invariant(&*self);
        }
        let mut parts: Vec<PartEntry<P>> = Vec::new();
        std::mem::swap(&mut parts, &mut self.parts);
        match Self::find_part(&parts, entry.manufacturer.as_str(), entry.mpn.as_str()) {
            Some(i) => {
                proof {
                    lemma_keyed_map_update(parts@, part_key_fn(), i as int, entry);
                }
                parts.set(i, entry);
            },
            None => {
                proof {
                    lemma_keyed_map_push(parts@, part_key_fn(), entry);
                }
                parts.push(entry);
            },
        }
        self.parts = parts;
    }

    /// Adds a device, replacing the one with the same id.
    pub fn insert_device(&mut self, entry: DeviceEntry<D>)
        ensures
            final(self)@.devices == old(self)@.devices.insert(entry.id@, entry),
            final(self)@.parts == old(self)@.parts,
            final(self)@.packages == old(self)@.packages,
            final(self)@.sources == old(self)@.sources,
    {
        proof {
            use_type_invariant(&*self);
        }
        let mut devices: Vec<DeviceEntry<D>> = Vec::new();
        std::mem::swap(&mut devices, &mut self.devices);
        match Self::find_device(&devices, entry.id.as_str()) {
            Some(i) => {
                proof {
                    lemma_keyed_map_update(devices@, device_key_fn(), i as int, entry);
                }
                devices.set(i, entry);
            },
            None => {
                proof {
                    lemma_keyed_map_push(devices@, device_key_fn(), entry);
                }
                devices.push(entry);
            },
        }
        self.devices = devices;
    }

    /// Adds a package, replacing the one with the same id.
    pub fn insert_package(&mut self, entry: PackageEntry<K>)
        ensures
            final(self)@.packages == old(self)@.packages.insert(entry.id@, entry),
            final(self)@.parts == old(self)@.parts,
            final(self)@.devices == old(self)@.devices,
            final(self)@.sources == old(self)@.sources,
    {
        proof {
            use_type_invariant(&*self);
        }
        let mut packages: Vec<PackageEntry<K>> = Vec::new();
        std::mem::swap(&mut packages, &mut self.packages);
        match Self::find_package(&packages, entry.id.as_str()) {
            Some(i) => {
                proof {
                    lemma_keyed_map_update(packages@, package_key_fn(), i as int, entry);
                }
                packages.set(i, entry);
            },
            None => {
                proof {
                    lemma_keyed_map_push(packages@, package_key_fn(), entry);
                }
                packages.push(entry);
            },
        }
        self.packages = packages;
    }

    /// Records a known source id.
    pub fn insert_source(&mut self, id: String)
        ensures
            final(self)@.sources == old(self)@.sources.insert(id@),
            final(self)@.parts == old(self)@.parts,
            final(self)@.devices == old(self)@.devices,
            final(self)@.packages == old(self)@.packages,
    {
        proof {
            use_type_invariant(&*self);
        }
        let mut sources: Vec<String> = Vec::new();
        std::mem::swap(&mut sources, &mut self.sources);
        match Self::find_source(&sources, &id) {
            Some(i) => {
                proof {
                    lemma_keyed_map_update(sources@, source_key_fn(), i as int, id);
                }
                sources.set(i, id);
            },
            None => {
                proof {
                    lemma_keyed_map_push(sources@, source_key_fn(), id);
                }
                sources.push(id);
            },
        }
        self.sources = sources;
    }

    /// Every part in the index, in no particular order.
    pub fn part_list(&self) -> (r: &Vec<PartEntry<P>>)
        ensures
            keys_unique(r@, part_key_fn()),
            keyed_map(r@, part_key_fn()) == self@.parts,
    {
        proof {
            use_type_invariant(&*self);
        }
        &self.parts
    }

    /// The ids of the known sources, each once, in no particular order.
    pub fn source_ids(&self) -> (r: Vec<String>)
        ensures
            keys_unique(r@, source_key_fn()),
            keyed_map(r@, source_key_fn()).dom() == self@.sources,
    {
        proof {
            use_type_invariant(&*self);
        }
        let mut out: Vec<String> = Vec::new();
        let n = self.sources.len();
        for i in 0..n
            invariant
                n == self.sources@.len(),
                out@ == self.sources@.take(i as int),
        {
            out.push(self.sources[i].clone());
            assert(out@ =~= self.sources@.take(i + 1));
        }
        assert(out@ =~= self.sources@);
        out
    }

    /// Looks up a part by manufacturer and MPN.
    pub fn resolve_part(&self, manufacturer: &str, mpn: &str) -> (r: Result<&PartEntry<P>, ApiError>)
        ensures
            match r {
                Ok(e) => self@.parts.contains_key((manufacturer@, mpn@)) && *e == self@.parts[(
                    manufacturer@,
                    mpn@,
                )] && part_key(*e) == (manufacturer@, mpn@),
                Err(e) => !self@.parts.contains_key((manufacturer@, mpn@)) && part_not_found(
                    e,
                    manufacturer@,
                    mpn@,
                ),
            },
    {
        proof {
            use_type_invariant(&*self);
        }
        match Self::find_part(&self.parts, manufacturer, mpn) {
            Some(i) => {
                proof {
                    lemma_keyed_map_at(self.parts@, part_key_fn(), i as int);
                }
                Ok(&self.parts[i])
            },
            None => Err(not_found_part(manufacturer, mpn)),
        }
    }

    /// Looks up a device by id (an id may itself contain `/`).
    pub fn resolve_device(&self, id: &str) -> (r: Result<&DeviceEntry<D>, ApiError>)
        ensures
            match r {
                Ok(e) => self@.devices.contains_key(id@) && *e == self@.devices[id@] && e.id@ == id@,
                Err(e) => !self@.devices.contains_key(id@) && device_not_found(e, id@),
            },
    {
        proof {
            use_type_invariant(&*self);
        }
        match Self::find_device(&self.devices, id) {
            Some(i) => {
                proof {
                    lemma_keyed_map_at(self.devices@, device_key_fn(), i as int);
                }
                Ok(&self.devices[i])
            },
            None => Err(not_found_device(id)),
        }
    }

    /// Looks up a package by id.
    pub fn resolve_package(&self, id: &str) -> (r: Result<&PackageEntry<K>, ApiError>)
        ensures
            match r {
                Ok(e) => self@.packages.contains_key(id@) && *e == self@.packages[id@] && e.id@
                    == id@,
                Err(e) => !self@.packages.contains_key(id@) && package_not_found(e, id@),
            },
    {
        proof {
            use_type_invariant(&*self);
        }
        match Self::find_package(&self.packages, id) {
            Some(i) => {
                proof {
                    lemma_keyed_map_at(self.packages@, package_key_fn(), i as int);
                }
                Ok(&self.packages[i])
            },
            None => Err(not_found_package(id)),
        }
    }
}

impl<P, D, K> Store<P, D, K> {
    /// How many parts the index holds.
    pub fn part_count(&self) -> (r: usize)
        ensures
            r == self@.parts.len(),
    {
        proof {
            use_type_invariant(&*self);
            lemma_keyed_map_len(self.parts@, part_key_fn());
        }
        self.parts.len()
    }

    /// How many devices the index holds.
    pub fn device_count(&self) -> (r: usize)
        ensures
            r == self@.devices.len(),
    {
        proof {
            use_type_invariant(&*self);
            lemma_keyed_map_len(self.devices@, device_key_fn());
        }
        self.devices.len()
    }

    /// How many packages the index holds.
    pub fn package_count(&self) -> (r: usize)
        ensures
            r == self@.packages.len(),
    {
        proof {
            use_type_invariant(&*self);
            lemma_keyed_map_len(self.packages@, package_key_fn());
        }
        self.packages.len()
    }

    /// How many source ids the index knows.
    pub fn source_count(&self) -> (r: usize)
        ensures
            r == self@.sources.len(),
    {
        proof {
            use_type_invariant(&*self);
            lemma_keyed_map_len(self.sources@, source_key_fn());
        }
        self.sources.len()
    }
}

} // verus!
