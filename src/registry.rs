use vstd::prelude::*;

use crate::error::ModelError;
use crate::namespace::{
    is_selected, is_versioned_uri, placeholder, same_class, version_field,
    ModelClass, Namespace, UriMatch, opt_version_owned,
};
use crate::text::{str_eq, trim_spec};
use crate::version::{parse_version, VersionToken};

verus! {

/// The version that a document's binding `uri` names for a namespace with
/// pattern `pattern` and precision `p`; `None` where it names none.
pub open spec fn uri_version(pattern: Seq<char>, p: nat, uri: Seq<char>) -> Option<Seq<u64>> {
    if !is_versioned_uri(pattern) {
        None
    } else {
        match version_field(pattern, uri) {
            None => None,
            Some(v) => if v.contains('/') || v.len() == 0 || v == placeholder() {
                None
            } else {
                parse_version(trim_spec(v, p))
            },
        }
    }
}

/// The binding names a version field that is not a valid version.
pub open spec fn uri_version_invalid(pattern: Seq<char>, p: nat, uri: Seq<char>) -> bool {
    &&& is_versioned_uri(pattern)
    &&& version_field(pattern, uri) matches Some(v)
    &&& !(v.contains('/') || v.len() == 0 || v == placeholder())
    &&& parse_version(trim_spec(v, p)) is None
}

pub open spec fn binding_version(ns: Namespace, binding: Option<Seq<char>>) -> Option<Seq<u64>> {
    match binding {
        Some(u) => uri_version(ns.spec_uri(), ns.spec_precision(), u),
        None => None,
    }
}

pub open spec fn binding_invalid(ns: Namespace, binding: Option<Seq<char>>) -> bool {
    match binding {
        Some(u) => uri_version_invalid(ns.spec_uri(), ns.spec_precision(), u),
        None => false,
    }
}

/// The first namespace with this alias.
pub open spec fn find_spec(nss: Seq<Namespace>, alias: Seq<char>) -> Option<int>
    decreases nss.len(),
{
    if nss.len() == 0 {
        None
    } else {
        match find_spec(nss.drop_last(), alias) {
            Some(i) => Some(i),
            None => if nss.last().spec_alias() == alias {
                Some(nss.len() - 1)
            } else {
                None
            },
        }
    }
}

pub proof fn lemma_find_spec(nss: Seq<Namespace>, alias: Seq<char>)
    ensures
        find_spec(nss, alias) matches Some(i) ==> 0 <= i < nss.len() && nss[i].spec_alias() == alias,
        find_spec(nss, alias) is None ==> forall|k: int| 0 <= k < nss.len() ==> (#[trigger] nss[k]).spec_alias() != alias,
    decreases nss.len(),
{
    if nss.len() > 0 {
        lemma_find_spec(nss.drop_last(), alias);
        if find_spec(nss, alias) is None {
            assert forall|k: int| 0 <= k < nss.len() implies (#[trigger] nss[k]).spec_alias() != alias by {
                if k < nss.len() - 1 {
                    assert(nss.drop_last()[k] == nss[k]);
                }
            }
        }
    }
}

/// `c` is the class that a typed element gets: in the namespace of alias
/// `alias`, the class registered under `clsname` for the version that the
/// document's binding of that alias names.
pub open spec fn resolves_to(
    nss: Seq<Namespace>,
    alias: Seq<char>,
    clsname: Seq<char>,
    binding: Option<Seq<char>>,
    c: ModelClass,
) -> bool {
    &&& find_spec(nss, alias) matches Some(k)
    &&& exists|i: int|
        is_selected(nss[k].entries(), clsname, binding_version(nss[k], binding), i) && same_class(
            c,
            #[trigger] nss[k].entries()[i].class,
        )
}

/// Resolving `alias:clsname` with this binding succeeds: the alias is known,
/// the binding names no invalid version, a versioned namespace gets a
/// version, and a class of that name covers it.
pub open spec fn resolvable(
    nss: Seq<Namespace>,
    alias: Seq<char>,
    clsname: Seq<char>,
    binding: Option<Seq<char>>,
) -> bool {
    &&& find_spec(nss, alias) matches Some(k)
    &&& !binding_invalid(nss[k], binding)
    &&& !(is_versioned_uri(nss[k].spec_uri()) && binding_version(nss[k], binding) is None)
    &&& exists|i: int|
        0 <= i < nss[k].entries().len() && crate::namespace::is_candidate(
            #[trigger] nss[k].entries()[i],
            clsname,
            binding_version(nss[k], binding),
        )
}

/// The error that resolving `alias:clsname` with this binding reports: an
/// unknown alias; a binding whose version field is not a valid version; a
/// versioned namespace without a version; or no class of that name for the
/// version, with the namespace, the version and the name.
pub open spec fn resolve_error(
    nss: Seq<Namespace>,
    alias: Seq<char>,
    clsname: Seq<char>,
    binding: Option<Seq<char>>,
    e: ModelError,
) -> bool {
    match find_spec(nss, alias) {
        None => e matches ModelError::UnknownNamespace { alias: a } && a@ == alias,
        Some(k) => {
            let ns = nss[k];
            let ver = binding_version(ns, binding);
            if binding_invalid(ns, binding) {
                e matches ModelError::InvalidVersion { text } && text@ == trim_spec(
                    version_field(ns.spec_uri(), binding->0)->0,
                    ns.spec_precision(),
                )
            } else if is_versioned_uri(ns.spec_uri()) && ver is None {
                e matches ModelError::NoVersionRequested { namespace } && namespace@ == ns.spec_uri()
            } else {
                e matches ModelError::MissingClass { namespace, version, class_name } && namespace@
                    == ns.spec_uri() && class_name@ == clsname && opt_version_owned(version) == ver
            }
        },
    }
}

/// The namespaces that a load knows, looked up by alias.
#[derive(Debug)]
pub struct Registry {
    namespaces: Vec<Namespace>,
}

impl Registry {
    pub closed spec fn spec_namespaces(&self) -> Seq<Namespace> {
        self.namespaces@
    }

    pub closed spec fn wf(&self) -> bool {
        forall|i: int| 0 <= i < self.namespaces@.len() ==> (#[trigger] self.namespaces@[i]).wf()
    }

    pub fn new() -> (r: Registry)
        ensures
            r.wf(),
            r.spec_namespaces().len() == 0,
    {
        Registry { namespaces: Vec::new() }
    }

    /// Adds a namespace; where its alias is taken, the earlier one stays in use.
    pub fn add(&mut self, ns: Namespace)
        requires
            old(self).wf(),
            ns.wf(),
        ensures
            final(self).wf(),
            final(self).spec_namespaces() == old(self).spec_namespaces().push(ns),
    {
        self.namespaces.push(ns);
    }

    /// The namespace of this alias.
    pub fn find(&self, alias: &str) -> (r: Option<&Namespace>)
        requires
            self.wf(),
        ensures
            match find_spec(self.spec_namespaces(), alias@) {
                Some(k) => r == Some(&self.spec_namespaces()[k]),
                None => r is None,
            },
            r matches Some(ns) ==> ns.wf() && ns.spec_alias() == alias@,
    {
        let mut i: usize = 0;
        while i < self.namespaces.len()
            invariant
                self.wf(),
                i <= self.namespaces@.len(),
                find_spec(self.namespaces@.take(i as int), alias@) is None,
            decreases self.namespaces@.len() - i,
        {
            assert(self.namespaces@.take(i + 1).drop_last() == self.namespaces@.take(i as int));
            if str_eq(self.namespaces[i].alias(), alias) {
                proof {
                    lemma_find_prefix(self.namespaces@, alias@, i as int + 1);
                    assert(self.namespaces@[i as int].wf());
                }
                return Some(&self.namespaces[i]);
            }
            i += 1;
        }
        assert(self.namespaces@.take(i as int) == self.namespaces@);
        None
    }

    /// The class of a typed element whose type is `alias:clsname`, where the
    /// document binds `alias` to `binding`.
    pub fn resolve(&self, alias: &str, clsname: &str, binding: Option<&str>) -> (r: Result<ModelClass, ModelError>)
        requires
            self.wf(),
        ensures
            find_spec(self.spec_namespaces(), alias@) is None ==> (r matches Err(ModelError::UnknownNamespace { alias: a }) && a@ == alias@),
            r matches Err(e) ==> resolve_error(self.spec_namespaces(), alias@, clsname@, opt_ref_view(binding), e),
            r is Ok <==> resolvable(self.spec_namespaces(), alias@, clsname@, opt_ref_view(binding)),
            r matches Ok(c) ==> resolves_to(self.spec_namespaces(), alias@, clsname@, opt_ref_view(binding), c),
            find_spec(self.spec_namespaces(), alias@) matches Some(k) ==> {
                let ns = self.spec_namespaces()[k];
                let ver = binding_version(ns, opt_ref_view(binding));
                &&& binding_invalid(ns, opt_ref_view(binding)) ==> (r matches Err(ModelError::InvalidVersion { .. }))
                &&& !binding_invalid(ns, opt_ref_view(binding)) && is_versioned_uri(ns.spec_uri()) && ver is None ==> (r matches Err(ModelError::NoVersionRequested { .. }))
                &&& !binding_invalid(ns, opt_ref_view(binding)) && !(is_versioned_uri(ns.spec_uri()) && ver is None) ==> (
                    r is Ok <==> exists|i: int| 0 <= i < ns.entries().len() && crate::namespace::is_candidate(#[trigger] ns.entries()[i], clsname@, ver))
                &&& !binding_invalid(ns, opt_ref_view(binding)) && !(is_versioned_uri(ns.spec_uri()) && ver is None) && r is Err ==> (r matches Err(ModelError::MissingClass { .. }))
            },
    {
        let ns = match self.find(alias) {
            Some(ns) => ns,
            None => {
                return Err(ModelError::UnknownNamespace { alias: alias.to_owned() });
            },
        };
        proof {
            lemma_find_spec(self.namespaces@, alias@);
        }
        let version: Option<VersionToken> = match binding {
            None => None,
            Some(u) => match ns.match_uri(u) {
                Ok(UriMatch::MatchedVersion(t)) => Some(t),
                Ok(_) => None,
                Err(e) => {
                    return Err(e);
                },
            },
        };
        ns.get_class(clsname, version.as_ref())
    }
}

pub open spec fn opt_ref_view(o: Option<&str>) -> Option<Seq<char>> {
    match o {
        Some(s) => Some(s@),
        None => None,
    }
}

proof fn lemma_find_prefix(nss: Seq<Namespace>, alias: Seq<char>, k: int)
    requires
        0 < k <= nss.len(),
        find_spec(nss.take(k - 1), alias) is None,
        nss[k - 1].spec_alias() == alias,
    ensures
        find_spec(nss, alias) == Some(k - 1),
    decreases nss.len() - k,
{
    if k == nss.len() {
        assert(nss.take(k - 1) == nss.drop_last());
    } else {
        assert(nss.take(k).drop_last() == nss.take(k - 1));
        lemma_find_stays(nss, alias, k, k - 1);
    }
}

proof fn lemma_find_stays(nss: Seq<Namespace>, alias: Seq<char>, k: int, i: int)
    requires
        0 < k <= nss.len(),
        find_spec(nss.take(k), alias) == Some(i),
    ensures
        find_spec(nss, alias) == Some(i),
    decreases nss.len() - k,
{
    if k == nss.len() {
        assert(nss.take(k) == nss);
    } else {
        assert(nss.take(k + 1).drop_last() == nss.take(k));
        lemma_find_stays(nss, alias, k + 1, i);
    }
}

} // verus!
