use vstd::prelude::*;

use crate::error::ModelError;
use crate::text::{
    chars_eq, chars_of, occurs_at, contains_char, find_chars, first_occurrence, lemma_first_from_bounds,
    string_of, sub_chars, trim_chars, trim_spec, lemma_trim_idempotent,
};
use crate::version::{
    lemma_version_cmp_antisym, lemma_version_cmp_trans, parse_version, version_cmp, version_le,
    VersionToken,
};

verus! {

/// The marker that stands for the version in the URI of a versioned namespace.
pub open spec fn placeholder() -> Seq<char> {
    seq!['{', 'V', 'E', 'R', 'S', 'I', 'O', 'N', '}']
}

fn placeholder_chars() -> (r: Vec<char>)
    ensures
        r@ == placeholder(),
{
    let r = vec!['{', 'V', 'E', 'R', 'S', 'I', 'O', 'N', '}'];
    assert(r@ =~= placeholder());
    r
}

/// A URI pattern with a version placeholder.
pub open spec fn is_versioned_uri(pattern: Seq<char>) -> bool {
    first_occurrence(pattern, placeholder()) is Some
}

/// What precedes the first placeholder of a versioned pattern.
pub open spec fn uri_prefix(pattern: Seq<char>) -> Seq<char> {
    pattern.take(first_occurrence(pattern, placeholder())->0)
}

/// What follows the first placeholder of a versioned pattern.
pub open spec fn uri_suffix(pattern: Seq<char>) -> Seq<char> {
    pattern.skip(first_occurrence(pattern, placeholder())->0 + placeholder().len())
}

/// The text that stands where a versioned pattern has its placeholder, if
/// `uri` has the pattern's prefix and suffix.
pub open spec fn version_field(pattern: Seq<char>, uri: Seq<char>) -> Option<Seq<char>> {
    let p = uri_prefix(pattern);
    let s = uri_suffix(pattern);
    if uri.len() >= p.len() + s.len() && uri.take(p.len() as int) == p && uri.skip(
        uri.len() - s.len(),
    ) == s {
        Some(uri.subrange(p.len() as int, uri.len() - s.len()))
    } else {
        None
    }
}

pub open spec fn opt_view(o: Option<String>) -> Option<Seq<char>> {
    match o {
        Some(s) => Some(s@),
        None => None,
    }
}

/// A model class: the alias of the namespace that declares it, its name,
/// and a number that tells apart classes of one name (one per range of
/// versions, say).
#[derive(Debug)]
pub struct ModelClass {
    pub namespace: String,
    pub name: String,
    pub id: u64,
}

/// Two classes with the same namespace, name and number.
pub open spec fn same_class(a: ModelClass, b: ModelClass) -> bool {
    a.namespace@ == b.namespace@ && a.name@ == b.name@ && a.id == b.id
}

impl ModelClass {
    pub fn new(namespace: &str, name: &str, id: u64) -> (r: ModelClass)
        ensures
            r.namespace@ == namespace@,
            r.name@ == name@,
            r.id == id,
    {
        ModelClass { namespace: namespace.to_owned(), name: name.to_owned(), id }
    }

    /// An equal copy.
    pub fn duplicate(&self) -> (r: ModelClass)
        ensures
            same_class(r, *self),
    {
        ModelClass { namespace: self.namespace.clone(), name: self.name.clone(), id: self.id }
    }
}

/// One registration of a class: the versions from `min_version` up to
/// `max_version` (both included; no maximum means no bound).
#[derive(Debug)]
pub struct ClassEntry {
    pub class: ModelClass,
    pub min_version: VersionToken,
    pub max_version: Option<VersionToken>,
}

/// Two registrations of the same class for the same versions.
pub open spec fn same_entry(a: ClassEntry, b: ClassEntry) -> bool {
    &&& same_class(a.class, b.class)
    &&& a.min_version@ == b.min_version@
    &&& opt_version_owned(a.max_version) == opt_version_owned(b.max_version)
}

/// Entry `e` is registered under `name` and its range covers `version`
/// (any entry of that name, where no version is asked for).
pub open spec fn is_candidate(e: ClassEntry, name: Seq<char>, version: Option<Seq<u64>>) -> bool {
    &&& e.class.name@ == name
    &&& match version {
        None => true,
        Some(v) => version_le(e.min_version@, v) && match e.max_version {
            None => true,
            Some(m) => version_cmp(m@, v) >= 0,
        },
    }
}

/// Entry `i` is the one that a lookup of `name` at `version` picks: a
/// candidate with the greatest minimum version, the first such one where
/// several tie.
pub open spec fn is_selected(
    entries: Seq<ClassEntry>,
    name: Seq<char>,
    version: Option<Seq<u64>>,
    i: int,
) -> bool {
    &&& 0 <= i < entries.len()
    &&& is_candidate(entries[i], name, version)
    &&& forall|j: int|
        0 <= j < entries.len() && is_candidate(#[trigger] entries[j], name, version) ==> version_le(
            entries[j].min_version@,
            entries[i].min_version@,
        )
    &&& forall|j: int|
        0 <= j < i && is_candidate(#[trigger] entries[j], name, version) ==> version_cmp(
            entries[j].min_version@,
            entries[i].min_version@,
        ) < 0
}

/// The outcome of matching a URI against a namespace.
#[derive(Debug)]
pub enum UriMatch {
    /// The URI does not belong to the namespace.
    NoMatch,
    /// The URI belongs to the namespace and names no version.
    Matched,
    /// The URI belongs to the namespace and names this version.
    MatchedVersion(VersionToken),
}

/// `r` is what matching `uri` against a namespace with URI pattern `pattern`
/// and version precision `p` returns.
pub open spec fn uri_match_holds(
    pattern: Seq<char>,
    p: nat,
    uri: Seq<char>,
    r: Result<UriMatch, ModelError>,
) -> bool {
    if !is_versioned_uri(pattern) {
        r == Ok::<UriMatch, ModelError>(
            if uri == pattern {
                UriMatch::Matched
            } else {
                UriMatch::NoMatch
            },
        )
    } else {
        match version_field(pattern, uri) {
            None => r == Ok::<UriMatch, ModelError>(UriMatch::NoMatch),
            Some(v) => if v.contains('/') {
                r == Ok::<UriMatch, ModelError>(UriMatch::NoMatch)
            } else if v.len() == 0 || v == placeholder() {
                r == Ok::<UriMatch, ModelError>(UriMatch::Matched)
            } else {
                match parse_version(trim_spec(v, p)) {
                    Some(t) => r matches Ok(UriMatch::MatchedVersion(tok)) && tok@ == t,
                    None => r matches Err(ModelError::InvalidVersion { text }) && text@ == trim_spec(
                        v,
                        p,
                    ),
                }
            },
        }
    }
}

pub open spec fn opt_version(v: Option<&VersionToken>) -> Option<Seq<u64>> {
    match v {
        Some(t) => Some(t@),
        None => None,
    }
}

pub open spec fn opt_version_owned(v: Option<VersionToken>) -> Option<Seq<u64>> {
    match v {
        Some(t) => Some(t@),
        None => None,
    }
}

/// The version that an optional version string gives, `default` where there is none.
pub open spec fn version_or(s: Option<&str>, default: Seq<u64>) -> Option<Seq<u64>> {
    match s {
        Some(t) => parse_version(t@),
        None => Some(default),
    }
}

/// A schema namespace: its URI pattern, alias and the classes registered in it.
#[derive(Debug)]
pub struct Namespace {
    uri: String,
    alias: String,
    viewpoint: Option<String>,
    maxver: Option<String>,
    version_precision: usize,
    classes: Vec<ClassEntry>,
    version_slot: Option<(Vec<char>, Vec<char>)>,
}

impl Namespace {
    /// The cached placeholder split agrees with the URI, and the settings are valid.
    pub closed spec fn wf(&self) -> bool {
        &&& self.version_precision >= 1
        &&& is_versioned_uri(self.uri@) <==> self.maxver is Some
        &&& match self.version_slot {
            None => !is_versioned_uri(self.uri@),
            Some((p, s)) => {
                &&& is_versioned_uri(self.uri@)
                &&& p@ == uri_prefix(self.uri@)
                &&& s@ == uri_suffix(self.uri@)
            },
        }
    }

    pub closed spec fn spec_uri(&self) -> Seq<char> {
        self.uri@
    }

    pub closed spec fn spec_alias(&self) -> Seq<char> {
        self.alias@
    }

    pub closed spec fn spec_viewpoint(&self) -> Option<Seq<char>> {
        opt_view(self.viewpoint)
    }

    pub closed spec fn spec_maxver(&self) -> Option<Seq<char>> {
        opt_view(self.maxver)
    }

    pub closed spec fn spec_precision(&self) -> nat {
        self.version_precision as nat
    }

    /// The class registrations, oldest first.
    pub closed spec fn entries(&self) -> Seq<ClassEntry> {
        self.classes@
    }

    /// Declares a namespace. A URI with the placeholder `{VERSION}` makes it
    /// versioned, and then `maxver` is required; otherwise it is refused.
    pub fn new(
        uri: String,
        alias: String,
        viewpoint: Option<String>,
        maxver: Option<String>,
        version_precision: usize,
    ) -> (r: Result<Namespace, ModelError>)
        ensures
            version_precision == 0 ==> r == Err::<Namespace, ModelError>(ModelError::InvalidPrecision),
            version_precision >= 1 && is_versioned_uri(uri@) && maxver is None ==> r == Err::<
                Namespace,
                ModelError,
            >(ModelError::MissingMaxVersion),
            version_precision >= 1 && !is_versioned_uri(uri@) && maxver is Some ==> r == Err::<
                Namespace,
                ModelError,
            >(ModelError::UnexpectedMaxVersion),
            version_precision >= 1 && (is_versioned_uri(uri@) <==> maxver is Some) ==> (r matches Ok(
                ns,
            ) && ns.spec_uri() == uri@ && ns.spec_alias() == alias@ && ns.spec_viewpoint()
                == opt_view(viewpoint) && ns.spec_maxver() == opt_view(maxver)
                && ns.spec_precision() == version_precision && ns.entries().len() == 0 && ns.wf()),
    {
        if version_precision < 1 {
            return Err(ModelError::InvalidPrecision);
        }
        let chars = chars_of(uri.as_str());
        let ph = placeholder_chars();
        let found = find_chars(chars.as_slice(), ph.as_slice());
        let version_slot = match found {
            None => {
                if maxver.is_some() {
                    return Err(ModelError::UnexpectedMaxVersion);
                }
                None
            },
            Some(k) => {
                if maxver.is_none() {
                    return Err(ModelError::MissingMaxVersion);
                }
                proof {
                    lemma_first_from_bounds(chars@, ph@, 0);
                    assert(ph@.len() == 9);
                    assert(occurs_at(chars@, ph@, k as int));
                }
                let n = chars.len();
                let prefix = sub_chars(chars.as_slice(), 0, k);
                let suffix = sub_chars(chars.as_slice(), k + 9, n);
                assert(prefix@ =~= uri_prefix(uri@));
                assert(suffix@ =~= uri_suffix(uri@));
                Some((prefix, suffix))
            },
        };
        Ok(
            Namespace {
                uri,
                alias,
                viewpoint,
                maxver,
                version_precision,
                classes: Vec::new(),
                version_slot,
            },
        )
    }

    pub fn uri(&self) -> (r: &str)
        ensures
            r@ == self.spec_uri(),
    {
        self.uri.as_str()
    }

    pub fn alias(&self) -> (r: &str)
        ensures
            r@ == self.spec_alias(),
    {
        self.alias.as_str()
    }

    pub fn viewpoint(&self) -> (r: Option<String>)
        requires
            self.wf(),
        ensures
            opt_view(r) == self.spec_viewpoint(),
    {
        match &self.viewpoint {
            Some(v) => Some(v.clone()),
            None => None,
        }
    }

    pub fn version_precision(&self) -> (r: usize)
        requires
            self.wf(),
        ensures
            r == self.spec_precision(),
    {
        self.version_precision
    }

    /// The maximum supported version of a versioned namespace.
    pub fn get_maxver(&self) -> (r: Option<String>)
        requires
            self.wf(),
        ensures
            opt_view(r) == self.spec_maxver(),
    {
        match &self.maxver {
            Some(v) => Some(v.clone()),
            None => None,
        }
    }

    /// Sets every component from the version precision on to zero.
    pub fn trim_version(&self, version: &str) -> (r: String)
        requires
            self.wf(),
        ensures
            r@ == trim_spec(version@, self.spec_precision()),
    {
        let chars = chars_of(version);
        let trimmed = trim_chars(chars.as_slice(), self.version_precision);
        string_of(trimmed.as_slice())
    }

    /// A class of this name has been registered.
    pub fn contains(&self, clsname: &str) -> (r: bool)
        requires
            self.wf(),
        ensures
            r == exists|i: int| 0 <= i < self.entries().len() && (#[trigger] self.entries()[i]).class.name@ == clsname@,
    {
        let want = chars_of(clsname);
        let mut i: usize = 0;
        while i < self.classes.len()
            invariant
                i <= self.classes@.len(),
                want@ == clsname@,
                forall|k: int| 0 <= k < i ==> (#[trigger] self.classes@[k]).class.name@ != clsname@,
            decreases self.classes@.len() - i,
        {
            let name = chars_of(self.classes[i].class.name.as_str());
            if chars_eq(name.as_slice(), want.as_slice()) {
                return true;
            }
            i += 1;
        }
        false
    }

    /// A copy with the same settings and registrations.
    pub fn duplicate(&self) -> (r: Namespace)
        requires
            self.wf(),
        ensures
            r.wf(),
            r.spec_uri() == self.spec_uri(),
            r.spec_alias() == self.spec_alias(),
            r.spec_viewpoint() == self.spec_viewpoint(),
            r.spec_maxver() == self.spec_maxver(),
            r.spec_precision() == self.spec_precision(),
            r.entries().len() == self.entries().len(),
            forall|i: int| 0 <= i < self.entries().len() ==> same_entry(#[trigger] r.entries()[i], self.entries()[i]),
    {
        let mut classes: Vec<ClassEntry> = Vec::new();
        let mut i: usize = 0;
        while i < self.classes.len()
            invariant
                i <= self.classes@.len(),
                classes@.len() == i,
                forall|k: int| 0 <= k < i ==> same_entry(#[trigger] classes@[k], self.classes@[k]),
            decreases self.classes@.len() - i,
        {
            let e = &self.classes[i];
            let max_version = match &e.max_version {
                Some(m) => Some(m.duplicate()),
                None => None,
            };
            classes.push(ClassEntry { class: e.class.duplicate(), min_version: e.min_version.duplicate(), max_version });
            i += 1;
        }
        let version_slot = match &self.version_slot {
            Some((p, s)) => Some((p.clone(), s.clone())),
            None => None,
        };
        proof {
            if self.version_slot is Some {
                let (p, s) = self.version_slot->0;
                let (p2, s2) = version_slot->0;
                assert(p2@ =~= p@);
                assert(s2@ =~= s@);
            }
        }
        Namespace {
            uri: self.uri.clone(),
            alias: self.alias.clone(),
            viewpoint: match &self.viewpoint {
                Some(v) => Some(v.clone()),
                None => None,
            },
            maxver: match &self.maxver {
                Some(v) => Some(v.clone()),
                None => None,
            },
            version_precision: self.version_precision,
            classes,
            version_slot,
        }
    }

    /// Matches a URI against this namespace. An unversioned namespace matches
    /// its URI exactly. A versioned one matches the text around its
    /// placeholder, and the text in its place names the version: none where
    /// it is empty or the placeholder itself, no match where it holds a `/`;
    /// otherwise it is trimmed to the version precision and parsed.
    pub fn match_uri(&self, uri: &str) -> (r: Result<UriMatch, ModelError>)
        requires
            self.wf(),
        ensures
            uri_match_holds(self.spec_uri(), self.spec_precision(), uri@, r),
    {
        let u = chars_of(uri);
        match &self.version_slot {
            None => {
                let pattern = chars_of(self.uri.as_str());
                if chars_eq(u.as_slice(), pattern.as_slice()) {
                    Ok(UriMatch::Matched)
                } else {
                    Ok(UriMatch::NoMatch)
                }
            },
            Some((prefix, suffix)) => {
                let n = u.len();
                if n < prefix.len() || n - prefix.len() < suffix.len() {
                    return Ok(UriMatch::NoMatch);
                }
                let head = sub_chars(u.as_slice(), 0, prefix.len());
                let tail = sub_chars(u.as_slice(), n - suffix.len(), n);
                if !chars_eq(head.as_slice(), prefix.as_slice()) || !chars_eq(
                    tail.as_slice(),
                    suffix.as_slice(),
                ) {
                    return Ok(UriMatch::NoMatch);
                }
                let field = sub_chars(u.as_slice(), prefix.len(), n - suffix.len());
                assert(version_field(self.uri@, uri@) == Some(field@));
                if contains_char(field.as_slice(), '/') {
                    return Ok(UriMatch::NoMatch);
                }
                let ph = placeholder_chars();
                if field.len() == 0 || chars_eq(field.as_slice(), ph.as_slice()) {
                    return Ok(UriMatch::Matched);
                }
                let trimmed = trim_chars(field.as_slice(), self.version_precision);
                match VersionToken::parse_chars(trimmed.as_slice()) {
                    Some(t) => Ok(UriMatch::MatchedVersion(t)),
                    None => Err(ModelError::InvalidVersion { text: string_of(trimmed.as_slice()) }),
                }
            },
        }
    }

    /// Looks up the class registered under `clsname` for `version`: among the
    /// registrations whose range covers the version (all of them, where no
    /// version is given), the one with the greatest minimum version, the
    /// oldest registration where several tie. A versioned namespace needs a
    /// version.
    pub fn get_class(&self, clsname: &str, version: Option<&VersionToken>) -> (r: Result<
        ModelClass,
        ModelError,
    >)
        requires
            self.wf(),
        ensures
            is_versioned_uri(self.spec_uri()) && version is None ==> (r matches Err(
                ModelError::NoVersionRequested { namespace },
            ) && namespace@ == self.spec_uri()),
            !(is_versioned_uri(self.spec_uri()) && version is None) ==> (r is Ok <==> exists|i: int|
                0 <= i < self.entries().len() && is_candidate(
                    #[trigger] self.entries()[i],
                    clsname@,
                    opt_version(version),
                )),
            !(is_versioned_uri(self.spec_uri()) && version is None) ==> (r matches Ok(c) ==> exists|
                i: int,
            |
                is_selected(self.entries(), clsname@, opt_version(version), i) && same_class(
                    c,
                    #[trigger] self.entries()[i].class,
                )),
            !(is_versioned_uri(self.spec_uri()) && version is None) ==> (r is Err ==> (r matches Err(
                ModelError::MissingClass { namespace, version: v, class_name },
            ) && namespace@ == self.spec_uri() && class_name@ == clsname@ && opt_version_owned(v)
                == opt_version(version))),
    {
        if self.version_slot.is_some() && version.is_none() {
            return Err(ModelError::NoVersionRequested { namespace: self.uri.clone() });
        }
        let want = chars_of(clsname);
        let ghost entries = self.classes@;
        let ghost v = opt_version(version);
        let mut best: Option<usize> = None;
        let mut i: usize = 0;
        while i < self.classes.len()
            invariant
                entries == self.classes@,
                want@ == clsname@,
                v == opt_version(version),
                i <= entries.len(),
                best is None ==> forall|j: int|
                    0 <= j < i ==> !is_candidate(#[trigger] entries[j], clsname@, v),
                best matches Some(b) ==> {
                    &&& b < i
                    &&& is_candidate(entries[b as int], clsname@, v)
                    &&& forall|j: int|
                        0 <= j < i && is_candidate(#[trigger] entries[j], clsname@, v) ==> version_le(
                            entries[j].min_version@,
                            entries[b as int].min_version@,
                        )
                    &&& forall|j: int|
                        0 <= j < b && is_candidate(#[trigger] entries[j], clsname@, v) ==> version_cmp(
                            entries[j].min_version@,
                            entries[b as int].min_version@,
                        ) < 0
                },
            decreases entries.len() - i,
        {
            let entry = &self.classes[i];
            let name = chars_of(entry.class.name.as_str());
            let covers = match version {
                None => true,
                Some(ver) => entry.min_version.le(ver) && match &entry.max_version {
                    None => true,
                    Some(m) => m.ge(ver),
                },
            };
            if covers && chars_eq(name.as_slice(), want.as_slice()) {
                assert(is_candidate(entries[i as int], clsname@, v));
                match best {
                    None => {
                        proof {
                            lemma_version_cmp_antisym(entry.min_version@, entry.min_version@);
                        }
                        best = Some(i);
                    },
                    Some(b) => {
                        let newer = entry.min_version.compare(&self.classes[b].min_version);
                        proof {
                            lemma_version_cmp_antisym(entry.min_version@, entry.min_version@);
                            lemma_version_cmp_antisym(
                                entry.min_version@,
                                entries[b as int].min_version@,
                            );
                        }
                        if let std::cmp::Ordering::Greater = newer {
                            proof {
                                assert forall|j: int|
                                    0 <= j < i + 1 && is_candidate(
                                        #[trigger] entries[j],
                                        clsname@,
                                        v,
                                    ) implies version_le(
                                    entries[j].min_version@,
                                    entries[i as int].min_version@,
                                ) && (j < i ==> version_cmp(
                                    entries[j].min_version@,
                                    entries[i as int].min_version@,
                                ) < 0) by {
                                    if j < i {
                                        lemma_version_cmp_trans(
                                            entries[j].min_version@,
                                            entries[b as int].min_version@,
                                            entries[i as int].min_version@,
                                        );
                                    }
                                }
                            }
                            best = Some(i);
                        }
                    },
                }
            }
            i += 1;
        }
        match best {
            Some(b) => {
                let c = self.classes[b].class.duplicate();
                assert(self.entries() == entries);
                assert(is_selected(self.entries(), clsname@, v, b as int));
                assert(is_candidate(self.entries()[b as int], clsname@, v));
                assert(same_class(c, self.entries()[b as int].class));
                Ok(c)
            },
            None => {
                let ver = match version {
                    Some(t) => Some(t.duplicate()),
                    None => None,
                };
                Err(
                    ModelError::MissingClass {
                        namespace: self.uri.clone(),
                        version: ver,
                        class_name: clsname.to_owned(),
                    },
                )
            },
        }
    }

    /// Registers `cls` for the versions from `minver` (zero where absent) up
    /// to `maxver` (no bound where absent). The class must belong to this
    /// namespace.
    pub fn register(&mut self, cls: ModelClass, minver: Option<&str>, maxver: Option<&str>) -> (r:
        Result<(), ModelError>)
        requires
            old(self).wf(),
        ensures
            final(self).wf(),
            final(self).spec_uri() == old(self).spec_uri(),
            final(self).spec_alias() == old(self).spec_alias(),
            final(self).spec_viewpoint() == old(self).spec_viewpoint(),
            final(self).spec_maxver() == old(self).spec_maxver(),
            final(self).spec_precision() == old(self).spec_precision(),
            r is Err ==> final(self).entries() == old(self).entries(),
            cls.namespace@ != old(self).spec_alias() ==> (r matches Err(
                ModelError::ForeignClass { class_name, namespace, owner },
            ) && class_name@ == cls.name@ && namespace@ == old(self).spec_uri() && owner@
                == cls.namespace@),
            cls.namespace@ == old(self).spec_alias() && version_or(minver, seq![0u64]) is None ==> (
            r matches Err(ModelError::InvalidVersion { text }) && text@ == minver->0@),
            cls.namespace@ == old(self).spec_alias() && version_or(minver, seq![0u64]) is Some
                && maxver is Some && parse_version(maxver->0@) is None ==> (r matches Err(
                ModelError::InvalidVersion { text },
            ) && text@ == maxver->0@),
            r is Ok <==> cls.namespace@ == old(self).spec_alias() && version_or(
                minver,
                seq![0u64],
            ) is Some && (maxver is Some ==> parse_version(maxver->0@) is Some),
            r is Ok ==> {
                let e = final(self).entries().last();
                &&& final(self).entries().len() == old(self).entries().len() + 1
                &&& final(self).entries().drop_last() == old(self).entries()
                &&& same_class(e.class, cls)
                &&& Some(e.min_version@) == version_or(minver, seq![0u64])
                &&& opt_version_owned(e.max_version) == version_or(maxver, seq![0u64]) || (
                maxver is None && e.max_version is None)
                &&& maxver is None <==> e.max_version is None
            },
    {
        let own = chars_of(self.alias.as_str());
        let theirs = chars_of(cls.namespace.as_str());
        if !chars_eq(own.as_slice(), theirs.as_slice()) {
            return Err(
                ModelError::ForeignClass {
                    class_name: cls.name,
                    namespace: self.uri.clone(),
                    owner: cls.namespace,
                },
            );
        }
        let min_version = match minver {
            None => VersionToken::zero(),
            Some(m) => match VersionToken::parse(m) {
                Some(t) => t,
                None => {
                    return Err(ModelError::InvalidVersion { text: m.to_owned() });
                },
            },
        };
        let max_version = match maxver {
            None => None,
            Some(m) => match VersionToken::parse(m) {
                Some(t) => Some(t),
                None => {
                    return Err(ModelError::InvalidVersion { text: m.to_owned() });
                },
            },
        };
        let ghost before = self.classes@;
        self.classes.push(ClassEntry { class: cls, min_version, max_version });
        assert(self.classes@.drop_last() == before);
        Ok(())
    }
}

/// Trimming a version to a precision twice gives what trimming it once gives.
pub proof fn lemma_trim_version_idempotent(version: Seq<char>, precision: nat)
    ensures
        trim_spec(trim_spec(version, precision), precision) == trim_spec(version, precision),
{
    lemma_trim_idempotent(version, precision);
}

/// A versioned namespace matches its prefix, then a version field `v`, then
/// its suffix: where `v` holds no `/` and is neither empty nor the
/// placeholder, the match names the version that `v` trimmed to the
/// precision writes (where that is a valid version).
pub proof fn lemma_match_versioned_uri(
    pattern: Seq<char>,
    precision: nat,
    v: Seq<char>,
    r: Result<UriMatch, ModelError>,
)
    requires
        is_versioned_uri(pattern),
        !v.contains('/'),
        v.len() > 0,
        v != placeholder(),
        parse_version(trim_spec(v, precision)) is Some,
        uri_match_holds(pattern, precision, uri_prefix(pattern) + v + uri_suffix(pattern), r),
    ensures
        r matches Ok(UriMatch::MatchedVersion(t)) && t@ == parse_version(
            trim_spec(v, precision),
        )->0,
{
    let p = uri_prefix(pattern);
    let s = uri_suffix(pattern);
    let uri = p + v + s;
    assert(uri.take(p.len() as int) =~= p);
    assert(uri.skip(uri.len() - s.len()) =~= s);
    assert(uri.subrange(p.len() as int, uri.len() - s.len()) =~= v);
}

/// An unversioned namespace matches exactly its own URI, and nothing else.
pub proof fn lemma_match_unversioned_uri(
    pattern: Seq<char>,
    precision: nat,
    uri: Seq<char>,
    r: Result<UriMatch, ModelError>,
)
    requires
        !is_versioned_uri(pattern),
        uri_match_holds(pattern, precision, uri, r),
    ensures
        r == Ok::<UriMatch, ModelError>(UriMatch::Matched) <==> uri == pattern,
        r == Ok::<UriMatch, ModelError>(UriMatch::NoMatch) <==> uri != pattern,
{
}

/// The registration that a lookup at a version picks covers that version,
/// has a minimum version at least that of every other registration that
/// covers it, and is the only one that the lookup can pick.
pub proof fn lemma_get_class_prefers_newest(
    entries: Seq<ClassEntry>,
    name: Seq<char>,
    version: Seq<u64>,
    i: int,
    j: int,
)
    requires
        is_selected(entries, name, Some(version), i),
        0 <= j < entries.len(),
        is_candidate(entries[j], name, Some(version)),
    ensures
        version_le(entries[i].min_version@, version),
        version_le(entries[j].min_version@, entries[i].min_version@),
        is_selected(entries, name, Some(version), j) ==> i == j,
{
    lemma_selected_unique(entries, name, Some(version), i, j);
}

/// Without a version, a lookup picks the registration of that name with the
/// greatest minimum version.
pub proof fn lemma_get_class_unversioned(entries: Seq<ClassEntry>, name: Seq<char>, i: int, j: int)
    requires
        is_selected(entries, name, None, i),
        0 <= j < entries.len(),
        entries[j].class.name@ == name,
    ensures
        version_le(entries[j].min_version@, entries[i].min_version@),
        is_selected(entries, name, None, j) ==> i == j,
{
    assert(is_candidate(entries[j], name, None));
    lemma_selected_unique(entries, name, None, i, j);
}

proof fn lemma_selected_unique(
    entries: Seq<ClassEntry>,
    name: Seq<char>,
    version: Option<Seq<u64>>,
    i: int,
    j: int,
)
    requires
        is_selected(entries, name, version, i),
        0 <= j < entries.len(),
    ensures
        is_selected(entries, name, version, j) ==> i == j,
{
    if is_selected(entries, name, version, j) && i != j {
        lemma_version_cmp_antisym(entries[i].min_version@, entries[j].min_version@);
        if j < i {
            assert(version_cmp(entries[j].min_version@, entries[i].min_version@) < 0);
            assert(version_le(entries[i].min_version@, entries[j].min_version@));
        } else {
            assert(version_cmp(entries[i].min_version@, entries[j].min_version@) < 0);
            assert(version_le(entries[j].min_version@, entries[i].min_version@));
        }
    }
}

} // verus!
