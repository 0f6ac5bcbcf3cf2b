//! Package identities and the directory names derived from them.

use vstd::prelude::*;
use vstd::string::StringExecFns;
use crate::tree_path::{
    contains_char, has_no_separator, holds_separator, is_path_component, lemma_no_separator_add,
};

verus! {

/// What contracts say of a package identity: the three texts it is made of.
pub struct PackageIdView {
    pub scope: Seq<char>,
    pub name: Seq<char>,
    pub version: Seq<char>,
}

/// The identity of one package: scope, name and version.
#[derive(Debug, PartialEq, Eq)]
pub struct PackageId {
    scope: String,
    name: String,
    version: String,
}

impl View for PackageId {
    type V = PackageIdView;

    closed spec fn view(&self) -> PackageIdView {
        PackageIdView { scope: self.scope@, name: self.name@, version: self.version@ }
    }
}

/// The parts of which an identity can be made: a scope without `_` and a
/// name without `@`, so that the directory name can be read back, and no
/// separator of path components in any part, so that the directory name is
/// one level of a path.
pub open spec fn well_formed_parts(scope: Seq<char>, name: Seq<char>, version: Seq<char>) -> bool {
    &&& !scope.contains('_')
    &&& !name.contains('@')
    &&& has_no_separator(scope)
    &&& has_no_separator(name)
    &&& has_no_separator(version)
}

impl PackageIdView {
    /// What holds of the view of every `PackageId`.
    pub open spec fn well_formed(self) -> bool {
        well_formed_parts(self.scope, self.name, self.version)
    }
}

/// The directory name of a package: `{scope}_{name}@{version}`.
pub open spec fn canonical_name(id: PackageIdView) -> Seq<char> {
    id.scope + seq!['_'] + id.name + seq!['@'] + id.version
}

impl PackageId {
    /// Every identity is well formed.
    #[verifier::type_invariant]
    pub open spec fn valid(self) -> bool {
        self@.well_formed()
    }

    /// Builds an identity from its three texts. A scope that holds `_`, a
    /// name that holds `@` and a part that holds `/` or `\` are refused.
    pub fn new(scope: &str, name: &str, version: &str) -> (id: Option<PackageId>)
        ensures
            id is Some <==> well_formed_parts(scope@, name@, version@),
            id matches Some(p) ==> p@ == (PackageIdView {
                scope: scope@,
                name: name@,
                version: version@,
            }),
    {
        if contains_char(scope, '_') || contains_char(name, '@') || holds_separator(scope)
            || holds_separator(name) || holds_separator(version) {
            None
        } else {
            Some(
                PackageId {
                    scope: String::from_str(scope),
                    name: String::from_str(name),
                    version: String::from_str(version),
                },
            )
        }
    }

    pub fn scope(&self) -> (text: &str)
        ensures
            text@ == self@.scope,
    {
        self.scope.as_str()
    }

    pub fn name(&self) -> (text: &str)
        ensures
            text@ == self@.name,
    {
        self.name.as_str()
    }

    pub fn version(&self) -> (text: &str)
        ensures
            text@ == self@.version,
    {
        self.version.as_str()
    }

    /// Whether two identities are the same package.
    pub fn same_as(&self, other: &PackageId) -> (same: bool)
        ensures
            same == (self@ == other@),
    {
        self.scope == other.scope && self.name == other.name && self.version == other.version
    }

    /// A copy of this identity.
    pub fn duplicate(&self) -> (copy: PackageId)
        ensures
            copy@ == self@,
    {
        proof {
            use_type_invariant(self);
        }
        PackageId {
            scope: self.scope.clone(),
            name: self.name.clone(),
            version: self.version.clone(),
        }
    }
}

impl Clone for PackageId {
    fn clone(&self) -> (copy: PackageId)
        ensures
            copy@ == self@,
    {
        self.duplicate()
    }
}

/// Creates a suitable name for use in file paths that refer to this package.
pub fn package_id_file_name(id: &PackageId) -> (file_name: String)
    ensures
        file_name@ == canonical_name(id@),
{
    proof {
        reveal_strlit("_");
        reveal_strlit("@");
    }
    let mut file_name = String::from_str(id.scope());
    file_name.append("_");
    file_name.append(id.name());
    file_name.append("@");
    file_name.append(id.version());
    assert("_"@ =~= seq!['_']);
    assert("@"@ =~= seq!['@']);
    file_name
}

/// In a directory name the scope ends at the first `_` and the name at the
/// first `@` after it, where neither text holds its own separator.
proof fn lemma_split_at_separator(a: Seq<char>, b: Seq<char>, c: char, ra: Seq<char>, rb: Seq<char>)
    requires
        !a.contains(c),
        !b.contains(c),
        a + seq![c] + ra == b + seq![c] + rb,
    ensures
        a == b,
        ra == rb,
{
    let left = a + seq![c] + ra;
    let right = b + seq![c] + rb;
    if a.len() < b.len() {
        assert(left[a.len() as int] == c);
        assert(right[a.len() as int] == b[a.len() as int]);
        assert(b.contains(c));
    }
    if b.len() < a.len() {
        assert(right[b.len() as int] == c);
        assert(left[b.len() as int] == a[b.len() as int]);
        assert(a.contains(c));
    }
    assert(a.len() == b.len());
    assert forall|i: int| 0 <= i < a.len() implies a[i] == b[i] by {
        assert(left[i] == a[i]);
        assert(right[i] == b[i]);
    }
    assert(a =~= b);
    assert(left.len() == a.len() + 1 + ra.len());
    assert(right.len() == b.len() + 1 + rb.len());
    assert(ra.len() == rb.len());
    assert forall|i: int| 0 <= i < ra.len() implies ra[i] == rb[i] by {
        assert(left[a.len() + 1 + i] == ra[i]);
        assert(right[b.len() + 1 + i] == rb[i]);
    }
    assert(ra =~= rb);
}

/// Two well-formed identities with the same directory name are the same
/// package: distinct packages never share a directory.
pub proof fn lemma_canonical_name_injective(a: PackageIdView, b: PackageIdView)
    requires
        a.well_formed(),
        b.well_formed(),
        canonical_name(a) == canonical_name(b),
    ensures
        a == b,
{
    let rest_a = a.name + seq!['@'] + a.version;
    let rest_b = b.name + seq!['@'] + b.version;
    assert(canonical_name(a) =~= a.scope + seq!['_'] + rest_a);
    assert(canonical_name(b) =~= b.scope + seq!['_'] + rest_b);
    lemma_split_at_separator(a.scope, b.scope, '_', rest_a, rest_b);
    lemma_split_at_separator(a.name, b.name, '@', a.version, b.version);
}

/// The directory name of a well-formed identity names one level of a path.
pub proof fn lemma_canonical_name_is_component(id: PackageIdView)
    requires
        id.well_formed(),
    ensures
        is_path_component(canonical_name(id)),
{
    let name = canonical_name(id);
    assert(has_no_separator(seq!['_']));
    assert(has_no_separator(seq!['@']));
    lemma_no_separator_add(id.scope, seq!['_']);
    lemma_no_separator_add(id.scope + seq!['_'], id.name);
    lemma_no_separator_add(id.scope + seq!['_'] + id.name, seq!['@']);
    lemma_no_separator_add(id.scope + seq!['_'] + id.name + seq!['@'], id.version);
    assert(name[id.scope.len() as int] == '_');
    assert(name.len() >= 2);
    if name == seq!['.', '.'] {
        assert(name[id.scope.len() as int] == '.');
    }
}

} // verus!
