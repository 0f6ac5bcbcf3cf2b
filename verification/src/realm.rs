//! The three partitions into which packages are installed.

use vstd::prelude::*;

verus! {

/// A deployment target. Each realm has a package tree and an index of its own.
#[derive(Clone, Copy, Debug, PartialEq, Eq, Structural)]
pub enum Realm {
    Shared,
    Server,
    Dev,
}

/// The name of a realm's package tree below the project root.
pub open spec fn realm_directory(realm: Realm) -> Seq<char> {
    match realm {
        Realm::Shared => "packages"@,
        Realm::Server => "ServerPackages"@,
        Realm::Dev => "DevPackages"@,
    }
}

/// The name of the index below a realm's package tree.
pub open spec fn index_directory() -> Seq<char> {
    "_index"@
}

impl Realm {
    /// The name of this realm's package tree below the project root.
    pub fn directory_name(self) -> (name: &'static str)
        ensures
            name@ == realm_directory(self),
    {
        match self {
            Realm::Shared => "packages",
            Realm::Server => "ServerPackages",
            Realm::Dev => "DevPackages",
        }
    }
}

/// No two realms have the same tree name.
pub proof fn lemma_realm_directories_distinct(a: Realm, b: Realm)
    requires
        a != b,
    ensures
        realm_directory(a) != realm_directory(b),
{
    reveal_strlit("packages");
    reveal_strlit("ServerPackages");
    reveal_strlit("DevPackages");
    assert("packages"@.len() == 8);
    assert("ServerPackages"@.len() == 14);
    assert("DevPackages"@.len() == 11);
}

} // verus!
