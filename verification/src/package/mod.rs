//! Package records and the index that holds them.

pub mod downloader;
pub mod laws;
pub mod package_info;

use vstd::hash_map::StringHashMap;
use vstd::prelude::*;

verus! {

/// What a package record says, as plain values.
pub struct PackageRecord {
    pub package: Seq<char>,
    pub version: Seq<char>,
    pub architecture: Seq<char>,
    pub filename: Seq<char>,
    pub size: u64,
    pub md5sum: Seq<char>,
    pub sha256: Seq<char>,
}

/// One package of an index.
#[derive(Debug, Clone)]
pub struct PackageInfo {
    /// Name of the package.
    pub package: String,
    /// Version, taken as it stands.
    pub version: String,
    /// Architecture the package was built for.
    pub architecture: String,
    /// Path of the artifact below the mirror's base URL.
    pub filename: String,
    /// Declared size of the artifact in bytes.
    pub size: u64,
    /// MD5 digest of the artifact, in hexadecimal.
    pub md5sum: String,
    /// SHA-256 digest of the artifact, in hexadecimal.
    pub sha256: String,
}

impl View for PackageInfo {
    type V = PackageRecord;

    open spec fn view(&self) -> PackageRecord {
        PackageRecord {
            package: self.package@,
            version: self.version@,
            architecture: self.architecture@,
            filename: self.filename@,
            size: self.size,
            md5sum: self.md5sum@,
            sha256: self.sha256@,
        }
    }
}

impl PackageInfo {
    /// A record with the given fields.
    pub fn new(
        package: String,
        version: String,
        architecture: String,
        filename: String,
        size: u64,
        md5sum: String,
        sha256: String,
    ) -> (info: Self)
        ensures
            info.package == package,
            info.version == version,
            info.architecture == architecture,
            info.filename == filename,
            info.size == size,
            info.md5sum == md5sum,
            info.sha256 == sha256,
    {
        Self { package, version, architecture, filename, size, md5sum, sha256 }
    }
}

/// The packages of an index, each under its name.
pub struct PackageIndex {
    entries: StringHashMap<PackageInfo>,
}

impl View for PackageIndex {
    type V = Map<Seq<char>, PackageRecord>;

    closed spec fn view(&self) -> Map<Seq<char>, PackageRecord> {
        Map::new(
            |name: Seq<char>| self.entries@.contains_key(name),
            |name: Seq<char>| self.entries@[name]@,
        )
    }
}

impl PackageIndex {
    /// Every record stands under its own name, and no name is empty.
    #[verifier::type_invariant]
    spec fn well_formed(self) -> bool {
        forall|name: Seq<char>| #[trigger]
            self.entries@.contains_key(name) ==> name.len() > 0 && self.entries@[name].package@
                == name
    }

    /// An index without packages.
    pub fn new() -> (index: Self)
        ensures
            index@ == Map::<Seq<char>, PackageRecord>::empty(),
    {
        let index = PackageIndex { entries: StringHashMap::new() };
        assert(index@ =~= Map::<Seq<char>, PackageRecord>::empty());
        index
    }

    /// Puts `info` under its name and says that it did. A record that was
    /// there under that name is replaced. A record with an empty name has no
    /// place in an index: it is not put in, and the index stays as it is.
    pub fn insert(&mut self, info: PackageInfo) -> (inserted: bool)
        ensures
            inserted == (info@.package.len() > 0),
            final(self)@ == if inserted {
                old(self)@.insert(info@.package, info@)
            } else {
                old(self)@
            },
    {
        proof {
            use_type_invariant(&*self);
        }
        if info.package.as_str().is_empty() {
            return false;
        }
        let name = info.package.clone();
        let mut entries: StringHashMap<PackageInfo> = StringHashMap::new();
        std::mem::swap(&mut self.entries, &mut entries);
        entries.insert(name, info);
        std::mem::swap(&mut self.entries, &mut entries);
        assert(self@ =~= old(self)@.insert(info@.package, info@));
        true
    }

    /// The record under `name`, if there is one. A record that is found
    /// bears the name it was asked for under, and that name is not empty.
    pub fn get(&self, name: &str) -> (found: Option<&PackageInfo>)
        ensures
            match found {
                Some(info) => self@.contains_key(name@) && info@ == self@[name@]
                    && info@.package == name@ && name@.len() > 0,
                None => !self@.contains_key(name@),
            },
    {
        proof {
            use_type_invariant(self);
        }
        self.entries.get(name)
    }

    /// Whether a record stands under `name`.
    pub fn contains(&self, name: &str) -> (present: bool)
        ensures
            present == self@.contains_key(name@),
    {
        self.entries.contains_key(name)
    }

    /// The number of records.
    pub fn len(&self) -> (count: usize)
        ensures
            count == self@.len(),
    {
        assert(self@.dom() =~= self.entries@.dom());
        self.entries.len()
    }

    /// Whether the index holds no record.
    pub fn is_empty(&self) -> (empty: bool)
        ensures
            empty == (self@ == Map::<Seq<char>, PackageRecord>::empty()),
    {
        let empty = self.entries.is_empty();
        proof {
            if empty {
                assert(self@ =~= Map::<Seq<char>, PackageRecord>::empty());
            }
            if self@ == Map::<Seq<char>, PackageRecord>::empty() {
                assert(self.entries@.dom() =~= self@.dom());
            }
        }
        empty
    }
}

} // verus!
