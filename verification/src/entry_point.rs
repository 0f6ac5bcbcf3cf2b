//! Which file of an unpacked package is the module that a link points at.

use vstd::prelude::*;
use vstd::string::StringExecFns;
use crate::tree_path::texts;

verus! {

/// Where the entry module of a package lies, as far as its file names tell.
#[derive(Clone, Copy, Debug, PartialEq, Eq, Structural)]
pub enum EntryPoint {
    /// No entry module was recognised.
    Absent,
    /// `init.lua` or `init.luau` at the top of the package.
    RootSuffix,
    /// `src/init.lua` or `src/init.luau`, and none at the top.
    SrcSuffix,
}

/// The entry point of a package that holds files of these names. An entry
/// module at the top wins over one under `src/`.
pub open spec fn entry_point_of(names: Set<Seq<char>>) -> EntryPoint {
    if names.contains("init.lua"@) || names.contains("init.luau"@) {
        EntryPoint::RootSuffix
    } else if names.contains("src/init.lua"@) || names.contains("src/init.luau"@) {
        EntryPoint::SrcSuffix
    } else {
        EntryPoint::Absent
    }
}

/// The text that an entry point adds behind a package's directory name.
pub open spec fn suffix_text(entry: EntryPoint) -> Seq<char> {
    match entry {
        EntryPoint::SrcSuffix => "/src"@,
        _ => Seq::<char>::empty(),
    }
}

impl EntryPoint {
    /// The suffix to put behind the package's directory name: none where no
    /// entry module was recognised, the empty one for a module at the top.
    pub fn suffix(self) -> (suffix: Option<&'static str>)
        ensures
            suffix is None <==> self == EntryPoint::Absent,
            suffix matches Some(text) ==> text@ == suffix_text(self),
    {
        proof {
            reveal_strlit("");
        }
        match self {
            EntryPoint::Absent => None,
            EntryPoint::RootSuffix => {
                assert(""@ =~= Seq::<char>::empty());
                Some("")
            },
            EntryPoint::SrcSuffix => Some("/src"),
        }
    }
}

/// Decides the entry point from the file names of a package, in whatever
/// order they are listed.
pub fn sniff_entry_point(listing: &Vec<String>) -> (entry: EntryPoint)
    ensures
        entry == entry_point_of(texts(listing@).to_set()),
{
    let root_lua = String::from_str("init.lua");
    let root_luau = String::from_str("init.luau");
    let src_lua = String::from_str("src/init.lua");
    let src_luau = String::from_str("src/init.luau");
    let ghost names = texts(listing@);
    let mut entry = EntryPoint::Absent;
    let mut i: usize = 0;
    while i < listing.len()
        invariant
            i <= listing.len(),
            names == texts(listing@),
            root_lua@ == "init.lua"@,
            root_luau@ == "init.luau"@,
            src_lua@ == "src/init.lua"@,
            src_luau@ == "src/init.luau"@,
            forall|j: int| 0 <= j < i ==> names[j] != "init.lua"@ && names[j] != "init.luau"@,
            entry == EntryPoint::Absent || entry == EntryPoint::SrcSuffix,
            entry == EntryPoint::SrcSuffix <==> exists|j: int|
                0 <= j < i && (names[j] == "src/init.lua"@ || names[j] == "src/init.luau"@),
        decreases listing.len() - i,
    {
        assert(names[i as int] == listing@[i as int]@);
        if listing[i] == root_lua || listing[i] == root_luau {
            assert(names.contains(names[i as int]));
            return EntryPoint::RootSuffix;
        } else if listing[i] == src_lua || listing[i] == src_luau {
            entry = EntryPoint::SrcSuffix;
        }
        i += 1;
    }
    proof {
        if entry == EntryPoint::SrcSuffix {
            let j = choose|j: int|
                0 <= j < i && (names[j] == "src/init.lua"@ || names[j] == "src/init.luau"@);
            assert(names.contains(names[j]));
        }
    }
    entry
}

/// Two listings that hold the same names, in any order and however often,
/// have the same entry point.
pub proof fn lemma_entry_point_ignores_order(first: Seq<Seq<char>>, second: Seq<Seq<char>>)
    requires
        forall|name: Seq<char>| first.contains(name) <==> second.contains(name),
    ensures
        entry_point_of(first.to_set()) == entry_point_of(second.to_set()),
{
    assert(first.to_set() =~= second.to_set());
}

/// An entry module at the top of the package decides the entry point,
/// wherever it stands in the listing and whatever else is listed.
pub proof fn lemma_root_entry_wins(listing: Seq<Seq<char>>, at: int)
    requires
        0 <= at < listing.len(),
        listing[at] == "init.lua"@ || listing[at] == "init.luau"@,
    ensures
        entry_point_of(listing.to_set()) == EntryPoint::RootSuffix,
{
    assert(listing.contains(listing[at]));
}

} // verus!
