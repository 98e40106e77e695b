use std::sync::Arc;
use vstd::prelude::*;

use crate::error::ModelError;
use crate::model::{
    arc_pairs_view, attr_lookup, lemma_attr_first, lemma_attr_lookup, ForeignElement, Node,
    StringCache, TypedElement,
};
use crate::relation::{after_access, key_view, Key, RelationStore};
use crate::registry::{opt_ref_view, resolvable, resolve_error, resolves_to, Registry};
use crate::scan::{
    xmlns,
    collect_bindings, frames_bindings, opt_str_view, own_bindings, pairs_view, qname_local,
    qname_prefix, scan_attributes, scan_error_matches, scan_spec, scope_lookup, scope_lookup_exec,
    split_qname, Frame, RawAttribute,
};
use crate::text::{blank, is_blank, str_eq};

verus! {

/// One event of an XML document, as the loader takes it.
#[derive(Debug)]
pub enum XmlEvent {
    /// A start tag whose end tag follows later.
    Start { name: String, attributes: Vec<RawAttribute> },
    /// A self-closing tag.
    Empty { name: String, attributes: Vec<RawAttribute> },
    /// An end tag.
    End,
    /// Character data.
    Text(String),
    /// A CDATA section.
    CData,
    /// A character or entity reference.
    Reference,
    /// A comment, processing instruction, declaration or document type.
    Other,
}

pub open spec fn uuid_name() -> Seq<char> {
    seq!['u', 'u', 'i', 'd']
}

pub open spec fn index_view(idx: Seq<(String, usize)>) -> Seq<(Seq<char>, usize)> {
    idx.map_values(|p: (String, usize)| (p.0@, p.1))
}

/// The index after a typed element with identifier `id` became node `n`:
/// an entry of that identifier now points to `n`; otherwise one is added.
pub open spec fn index_insert(iv: Seq<(Seq<char>, usize)>, id: Seq<char>, n: usize) -> Seq<(Seq<char>, usize)> {
    match attr_lookup(iv, id) {
        Some(p) => iv.update(p, (id, n)),
        None => iv.push((id, n)),
    }
}

/// The node of the element with identifier `id`, if any.
pub open spec fn index_get(iv: Seq<(Seq<char>, usize)>, id: Seq<char>) -> Option<usize> {
    match attr_lookup(iv, id) {
        Some(p) => Some(iv[p].1),
        None => None,
    }
}

/// Building the element of a start tag succeeds.
pub open spec fn build_ok(
    reg: Registry,
    outer: Seq<Seq<(Seq<char>, Seq<char>)>>,
    name: Seq<char>,
    attrs: Seq<RawAttribute>,
) -> bool {
    let own = own_bindings(attrs);
    match scan_spec(attrs, own, outer) {
        Err(_) => false,
        Ok((None, _)) => qname_prefix(name) is None,
        Ok((Some(t), plain)) => {
            &&& qname_prefix(t) matches Some(alias)
            &&& attr_lookup(plain, uuid_name()) is Some
            &&& resolvable(reg.spec_namespaces(), alias, qname_local(t), scope_lookup(own, outer, alias))
        },
    }
}

/// `node` is the element that a start tag with this name and these
/// attributes gives: a typed element where an attribute of the
/// schema-instance namespace names the type as `alias:Class`, a foreign
/// element otherwise.
pub open spec fn built_as(
    reg: Registry,
    outer: Seq<Seq<(Seq<char>, Seq<char>)>>,
    name: Seq<char>,
    attrs: Seq<RawAttribute>,
    node: Node,
) -> bool {
    let own = own_bindings(attrs);
    match scan_spec(attrs, own, outer) {
        Err(_) => false,
        Ok((None, plain)) => {
            &&& node matches Node::Foreign(f)
            &&& f.namespace is None
            &&& f.tag@ == name
            &&& f.text is None
            &&& arc_pairs_view(f.attributes@) == plain
            &&& f.children@.len() == 0
        },
        Ok((Some(t), plain)) => {
            &&& qname_prefix(t) matches Some(alias)
            &&& attr_lookup(plain, uuid_name()) matches Some(k)
            &&& node matches Node::Typed(e)
            &&& e.id@ == plain[k].1
            &&& pairs_view(e.attributes@) == plain
            &&& e.children@.len() == 0
            &&& resolves_to(reg.spec_namespaces(), alias, qname_local(t), scope_lookup(own, outer, alias), e.class)
        },
    }
}

/// `b` is `a` with child `c` added last.
pub open spec fn child_added(a: Node, b: Node, c: usize) -> bool {
    match (a, b) {
        (Node::Typed(x), Node::Typed(y)) => y.id == x.id && y.class == x.class && y.attributes
            == x.attributes && y.relations == x.relations && y.children@ == x.children@.push(c),
        (Node::Foreign(x), Node::Foreign(y)) => y.namespace == x.namespace && y.tag == x.tag
            && y.text == x.text && y.attributes == x.attributes && y.children@ == x.children@.push(c),
        _ => false,
    }
}

/// `b` is the foreign element `a` with text `t`.
pub open spec fn text_set(a: Node, b: Node, t: Seq<char>) -> bool {
    match (a, b) {
        (Node::Foreign(x), Node::Foreign(y)) => y.namespace == x.namespace && y.tag == x.tag
            && y.attributes == x.attributes && y.children == x.children && (y.text matches Some(s)
            && s@ == t),
        _ => false,
    }
}

/// Node `c` was finished: added last to the children of `parent`, or to the
/// top-level elements where there is no parent.
pub open spec fn attached(
    old_nodes: Seq<Node>,
    old_roots: Seq<usize>,
    nodes: Seq<Node>,
    roots: Seq<usize>,
    parent: Option<usize>,
    c: usize,
) -> bool {
    &&& nodes.len() == old_nodes.len()
    &&& match parent {
        None => roots == old_roots.push(c) && nodes == old_nodes,
        Some(p) => {
            &&& roots == old_roots
            &&& child_added(old_nodes[p as int], nodes[p as int], c)
            &&& forall|i: int| 0 <= i < nodes.len() && i != p ==> nodes[i] == old_nodes[i]
        },
    }
}

pub open spec fn top(stack: Seq<Frame>) -> Option<usize> {
    if stack.len() == 0 {
        None
    } else {
        Some(stack.last().node)
    }
}

/// A loaded model: its nodes, the index of typed elements by identifier, the
/// top-level elements and whether a duplicate identifier was met.
#[derive(Debug)]
pub struct NativeLoader {
    nodes: Vec<Node>,
    index: Vec<(String, usize)>,
    roots: Vec<usize>,
    corrupt: bool,
}

impl NativeLoader {
    pub closed spec fn spec_nodes(&self) -> Seq<Node> {
        self.nodes@
    }

    pub closed spec fn spec_index(&self) -> Seq<(Seq<char>, usize)> {
        index_view(self.index@)
    }

    pub closed spec fn spec_roots(&self) -> Seq<usize> {
        self.roots@
    }

    pub closed spec fn spec_corrupt(&self) -> bool {
        self.corrupt
    }

    /// Identifiers are unique in the index, and each entry names a typed
    /// element with that identifier.
    pub closed spec fn wf(&self) -> bool {
        let iv = index_view(self.index@);
        &&& forall|i: int, j: int| 0 <= i < j < iv.len() ==> (#[trigger] iv[i]).0 != (#[trigger] iv[j]).0
        &&& forall|i: int| 0 <= i < iv.len() ==> {
            let (k, n) = #[trigger] iv[i];
            &&& n < self.nodes@.len()
            &&& self.nodes@[n as int] matches Node::Typed(e)
            &&& e.id@ == k
        }
    }

    pub fn new() -> (r: NativeLoader)
        ensures
            r.wf(),
            r.spec_nodes().len() == 0,
            r.spec_index().len() == 0,
            r.spec_roots().len() == 0,
            !r.spec_corrupt(),
    {
        let r = NativeLoader { nodes: Vec::new(), index: Vec::new(), roots: Vec::new(), corrupt: false };
        assert(index_view(r.index@) =~= Seq::<(Seq<char>, usize)>::empty());
        r
    }

    /// A duplicate identifier was met while loading.
    pub fn is_corrupt(&self) -> (r: bool)
        ensures
            r == self.spec_corrupt(),
    {
        self.corrupt
    }

    /// Flags the model as degraded; the flag stays.
    pub fn mark_corrupt(&mut self)
        requires
            old(self).wf(),
        ensures
            final(self).wf(),
            final(self).spec_corrupt(),
            final(self).spec_nodes() == old(self).spec_nodes(),
            final(self).spec_index() == old(self).spec_index(),
            final(self).spec_roots() == old(self).spec_roots(),
    {
        self.corrupt = true;
    }

    /// The number of nodes.
    pub fn len(&self) -> (r: usize)
        ensures
            r == self.spec_nodes().len(),
    {
        self.nodes.len()
    }

    /// Node `i`.
    pub fn node(&self, i: usize) -> (r: Option<&Node>)
        ensures
            i < self.spec_nodes().len() ==> r == Some(&self.spec_nodes()[i as int]),
            i >= self.spec_nodes().len() ==> r is None,
    {
        if i < self.nodes.len() {
            Some(&self.nodes[i])
        } else {
            None
        }
    }

    /// The top-level elements, in document order.
    pub fn roots(&self) -> (r: &Vec<usize>)
        ensures
            r@ == self.spec_roots(),
    {
        &self.roots
    }

    /// The schema extensions that the model refers to; none are tracked.
    pub fn referenced_viewpoints(&self) -> (r: Vec<(String, String)>)
        ensures
            r@.len() == 0,
    {
        Vec::new()
    }

    /// The typed element with identifier `id`.
    pub fn by_uuid(&self, id: &str) -> (r: Result<&TypedElement, ModelError>)
        requires
            self.wf(),
        ensures
            match index_get(self.spec_index(), id@) {
                Some(n) => (r matches Ok(e) && self.spec_nodes()[n as int] == Node::Typed(*e) && e.id@ == id@),
                None => (r matches Err(ModelError::NotFound { id: k }) && k@ == id@),
            },
    {
        match self.find_id(id) {
            Some(p) => {
                let n = self.index[p].1;
                proof {
                    let iv = index_view(self.index@);
                    lemma_attr_lookup(iv, id@);
                    assert(iv[p as int] == (self.index@[p as int].0@, n));
                    assert(iv[p as int].0 == id@);
                    assert(n < self.nodes@.len());
                }
                match &self.nodes[n] {
                    Node::Typed(e) => Ok(e),
                    Node::Foreign(_) => Err(ModelError::NotFound { id: id.to_owned() }),
                }
            },
            None => Err(ModelError::NotFound { id: id.to_owned() }),
        }
    }

    /// The slot of the storage of relation `key` on typed element `node`,
    /// created empty on first access.
    pub fn relation_data(&mut self, node: usize, key: &Key) -> (r: Result<usize, ModelError>)
        requires
            old(self).wf(),
        ensures
            final(self).wf(),
            final(self).spec_index() == old(self).spec_index(),
            final(self).spec_roots() == old(self).spec_roots(),
            final(self).spec_corrupt() == old(self).spec_corrupt(),
            final(self).spec_nodes().len() == old(self).spec_nodes().len(),
            forall|i: int| 0 <= i < old(self).spec_nodes().len() && i != node ==> final(self).spec_nodes()[i] == old(self).spec_nodes()[i],
            node >= old(self).spec_nodes().len() ==> r == Err::<usize, ModelError>(ModelError::IndexOutOfRange { index: node }),
            node < old(self).spec_nodes().len() ==> match old(self).spec_nodes()[node as int] {
                Node::Foreign(_) => r == Err::<usize, ModelError>(ModelError::NotTyped { node }) && final(self).spec_nodes() == old(self).spec_nodes(),
                Node::Typed(e) => r matches Ok(slot) && final(self).spec_nodes()[node as int] matches Node::Typed(e2) && e2.id == e.id && e2.class == e.class && e2.attributes == e.attributes && e2.children == e.children && (e2.relations.spec_keys(), slot as int) == after_access(e.relations.spec_keys(), key_view(*key)),
            },
    {
        if node >= self.nodes.len() {
            return Err(ModelError::IndexOutOfRange { index: node });
        }
        let ghost before = self.nodes@;
        let r = match &mut self.nodes[node] {
            Node::Typed(e) => Ok(e.relations.data(key)),
            Node::Foreign(_) => Err(ModelError::NotTyped { node }),
        };
        proof {
            let iv = index_view(self.index@);
            assert forall|i: int| 0 <= i < iv.len() implies ({
                let (k, m) = #[trigger] iv[i];
                &&& m < self.nodes@.len()
                &&& self.nodes@[m as int] matches Node::Typed(e)
                &&& e.id@ == k
            }) by {
                if iv[i].1 != node {
                    assert(self.nodes@[iv[i].1 as int] == before[iv[i].1 as int]);
                }
            }
        }
        r
    }

    /// The position in the index of identifier `id`.
    fn find_id(&self, id: &str) -> (r: Option<usize>)
        ensures
            r matches Some(p) ==> attr_lookup(self.spec_index(), id@) == Some(p as int) && p < self.index@.len(),
            r is None ==> attr_lookup(self.spec_index(), id@) is None,
    {
        let ghost iv = index_view(self.index@);
        let mut i: usize = 0;
        while i < self.index.len()
            invariant
                iv == index_view(self.index@),
                i <= iv.len(),
                forall|k: int| 0 <= k < i ==> (#[trigger] iv[k]).0 != id@,
            decreases iv.len() - i,
        {
            if str_eq(self.index[i].0.as_str(), id) {
                proof {
                    lemma_attr_first(iv, id@, i as int);
                }
                return Some(i);
            }
            i += 1;
        }
        proof {
            lemma_attr_lookup(iv, id@);
            if attr_lookup(iv, id@) is Some {
                let j = attr_lookup(iv, id@)->0;
                assert(iv[j].0 == id@);
            }
        }
        None
    }
}


/// The position of the first pair named `key`.
fn find_pair(ps: &Vec<(String, String)>, key: &str) -> (r: Option<usize>)
    ensures
        r matches Some(i) ==> attr_lookup(pairs_view(ps@), key@) == Some(i as int) && i < ps@.len() && ps@[i as int].0@ == key@,
        r is None ==> attr_lookup(pairs_view(ps@), key@) is None,
{
    let ghost v = pairs_view(ps@);
    let mut i: usize = 0;
    assert(v.len() == ps@.len());
    while i < ps.len()
        invariant
            v == pairs_view(ps@),
            i <= v.len(),
            forall|k: int| 0 <= k < i ==> (#[trigger] v[k]).0 != key@,
        decreases v.len() - i,
    {
        if str_eq(ps[i].0.as_str(), key) {
            proof {
                lemma_attr_first(v, key@, i as int);
            }
            return Some(i);
        }
        i += 1;
    }
    proof {
        lemma_attr_lookup(v, key@);
        if attr_lookup(v, key@) is Some {
            let j = attr_lookup(v, key@)->0;
            assert(v[j].0 == key@);
        }
    }
    None
}

/// A document being loaded: the model so far and the elements whose end
/// tag has not been read yet, innermost last.
#[derive(Debug)]
pub struct DocumentParser {
    model: NativeLoader,
    stack: Vec<Frame>,
    strings: StringCache,
}

impl DocumentParser {
    pub closed spec fn spec_model(&self) -> NativeLoader {
        self.model
    }

    pub closed spec fn spec_stack(&self) -> Seq<Frame> {
        self.stack@
    }

    pub closed spec fn wf(&self) -> bool {
        &&& self.model.wf()
        &&& self.strings.wf()
        &&& forall|i: int| 0 <= i < self.stack@.len() ==> (#[trigger] self.stack@[i]).node < self.model.nodes@.len()
    }

    pub fn new() -> (r: DocumentParser)
        ensures
            initial(r),
    {
        DocumentParser { model: NativeLoader::new(), stack: Vec::new(), strings: StringCache::new() }
    }

    /// Builds the element of a start tag as a new node, and indexes it where
    /// it is typed; hands back its number and the bindings that it declares.
    fn build(&mut self, registry: &Registry, name: &str, attrs: &Vec<RawAttribute>) -> (r: Result<
        (usize, Vec<(String, String)>),
        ModelError,
    >)
        requires
            old(self).wf(),
            registry.wf(),
        ensures
            final(self).wf(),
            final(self).spec_stack() == old(self).spec_stack(),
            r is Ok <==> build_ok(*registry, frames_bindings(old(self).spec_stack()), name@, attrs@),
            r is Err ==> final(self).spec_model() == old(self).spec_model(),
            r matches Ok((n, bs)) ==> build_done(old(self).spec_model(), final(self).spec_model(), *registry, frames_bindings(old(self).spec_stack()), name@, attrs@, n) && pairs_view(bs@) == own_bindings(attrs@),
            r matches Err(e) ==> build_error(*registry, frames_bindings(old(self).spec_stack()), name@, attrs@, e),
    {
        let ghost outer = frames_bindings(self.stack@);
        let own = collect_bindings(attrs);
        let (xtype, plain) = match scan_attributes(attrs, &own, &self.stack) {
            Ok(x) => x,
            Err(e) => {
                return Err(e);
            },
        };
        let n = self.model.nodes.len();
        match xtype {
            None => {
                let (prefix, _local) = split_qname(name);
                if prefix.is_some() {
                    return Err(ModelError::NamespacedTag { name: name.to_owned() });
                }
                let tag = self.strings.dedup(name.to_owned());
                let mut attributes: Vec<(Arc<String>, String)> = Vec::new();
                let mut i: usize = 0;
                while i < plain.len()
                    invariant
                        self.strings.wf(),
                        self.model == old(self).model,
                        self.stack == old(self).stack,
                        i <= plain@.len(),
                        attributes@.len() == i,
                        forall|k: int| 0 <= k < i ==> (#[trigger] attributes@[k]).0@ == plain@[k].0@ && attributes@[k].1@ == plain@[k].1@,
                    decreases plain@.len() - i,
                {
                    let key = self.strings.dedup(plain[i].0.clone());
                    attributes.push((key, plain[i].1.clone()));
                    i += 1;
                }
                assert(arc_pairs_view(attributes@) =~= pairs_view(plain@));
                let node = Node::Foreign(ForeignElement { namespace: None, tag, text: None, attributes, children: Vec::new() });
                let ghost before = self.model.nodes@;
                self.model.nodes.push(node);
                proof {
                    assert(self.model.nodes@ == before.push(node));
                    let iv = index_view(self.model.index@);
                    assert forall|i: int| 0 <= i < iv.len() implies ({
                        let (k, m) = #[trigger] iv[i];
                        &&& m < self.model.nodes@.len()
                        &&& self.model.nodes@[m as int] matches Node::Typed(e)
                        &&& e.id@ == k
                    }) by {
                        assert(self.model.nodes@[iv[i].1 as int] == before[iv[i].1 as int]);
                    }
                }
                Ok((n, own))
            },
            Some(t) => {
                let (prefix, clsname) = split_qname(t.as_str());
                let alias = match prefix {
                    Some(a) => a,
                    None => {
                        return Err(ModelError::UntypedDiscriminant { value: t });
                    },
                };
                let id = match find_pair(&plain, "uuid") {
                    Some(k) => plain[k].1.clone(),
                    None => {
                        proof {
                            reveal_strlit("uuid");
                            assert("uuid"@ =~= uuid_name());
                        }
                        return Err(ModelError::MissingId { tag: name.to_owned() });
                    },
                };
                proof {
                    reveal_strlit("uuid");
                    assert("uuid"@ =~= uuid_name());
                }
                let binding = scope_lookup_exec(&own, &self.stack, alias.as_str());
                let bref: Option<&str> = match &binding {
                    Some(b) => Some(b.as_str()),
                    None => None,
                };
                assert(opt_ref_view(bref) == opt_str_view(binding));
                let class = match registry.resolve(alias.as_str(), clsname.as_str(), bref) {
                    Ok(c) => c,
                    Err(e) => {
                        return Err(e);
                    },
                };
                let id_key = id.clone();
                let node = Node::Typed(
                    TypedElement {
                        id,
                        class,
                        attributes: plain,
                        children: Vec::new(),
                        relations: RelationStore::new(),
                    },
                );
                let ghost before = self.model.nodes@;
                let ghost iv0 = index_view(self.model.index@);
                self.model.nodes.push(node);
                let found = self.model.find_id(id_key.as_str());
                proof {
                    lemma_attr_lookup(iv0, id_key@);
                }
                match found {
                    Some(p) => {
                        self.model.index.set(p, (id_key, n));
                        self.model.corrupt = true;
                        assert(index_view(self.model.index@) =~= iv0.update(p as int, (id_key@, n)));
                    },
                    None => {
                        self.model.index.push((id_key, n));
                        assert(index_view(self.model.index@) =~= iv0.push((id_key@, n)));
                    },
                }
                proof {
                    let iv = index_view(self.model.index@);
                    assert(self.model.nodes@ == before.push(node));
                    assert forall|i: int| 0 <= i < iv.len() implies ({
                        let (k, m) = #[trigger] iv[i];
                        &&& m < self.model.nodes@.len()
                        &&& self.model.nodes@[m as int] matches Node::Typed(e)
                        &&& e.id@ == k
                    }) by {
                        if iv[i].1 != n {
                            assert(iv[i] == iv0[i]);
                            assert(self.model.nodes@[iv[i].1 as int] == before[iv[i].1 as int]);
                        }
                    }
                    assert forall|i: int, j: int| 0 <= i < j < iv.len() implies (#[trigger] iv[i]).0 != (#[trigger] iv[j]).0 by {
                        if i < iv0.len() && j < iv0.len() {
                            if iv[i] != iv0[i] {
                                assert(iv0[j].0 != id_key@);
                            }
                            if iv[j] != iv0[j] {
                                assert(iv0[i].0 != id_key@);
                            }
                        }
                    }
                }
                Ok((n, own))
            },
        }
    }

    /// Finishes node `c`: it goes last among the children of the innermost
    /// open element, or among the top-level elements where none is open.
    fn attach(&mut self, c: usize)
        requires
            old(self).wf(),
            c < old(self).spec_model().spec_nodes().len(),
        ensures
            final(self).wf(),
            final(self).spec_stack() == old(self).spec_stack(),
            attached(old(self).spec_model().spec_nodes(), old(self).spec_model().spec_roots(), final(self).spec_model().spec_nodes(), final(self).spec_model().spec_roots(), top(old(self).spec_stack()), c),
            final(self).spec_model().spec_index() == old(self).spec_model().spec_index(),
            final(self).spec_model().spec_corrupt() == old(self).spec_model().spec_corrupt(),
    {
        let depth = self.stack.len();
        if depth == 0 {
            self.model.roots.push(c);
            return;
        }
        let p = self.stack[depth - 1].node;
        assert(self.stack@[depth - 1].node < self.model.nodes@.len());
        let ghost before = self.model.nodes@;
        match &mut self.model.nodes[p] {
            Node::Typed(e) => {
                e.children.push(c);
            },
            Node::Foreign(f) => {
                f.children.push(c);
            },
        }
        proof {
            assert(child_added(before[p as int], self.model.nodes@[p as int], c));
            let iv = index_view(self.model.index@);
            assert forall|i: int| 0 <= i < iv.len() implies ({
                let (k, m) = #[trigger] iv[i];
                &&& m < self.model.nodes@.len()
                &&& self.model.nodes@[m as int] matches Node::Typed(e)
                &&& e.id@ == k
            }) by {
                if iv[i].1 != p {
                    assert(self.model.nodes@[iv[i].1 as int] == before[iv[i].1 as int]);
                }
            }
        }
    }

    /// Takes one event of the document.
    pub fn feed(&mut self, registry: &Registry, event: XmlEvent) -> (r: Result<(), ModelError>)
        requires
            old(self).wf(),
            registry.wf(),
        ensures
            final(self).wf(),
            feed_spec(*old(self), *final(self), *registry, event, r),
    {
        match event {
            XmlEvent::Start { name, attributes } => {
                let (n, bindings) = self.build(registry, name.as_str(), &attributes)?;
                let ghost before = self.stack@;
                self.stack.push(Frame { bindings, node: n });
                assert(self.stack@.drop_last() == before);
                Ok(())
            },
            XmlEvent::Empty { name, attributes } => {
                let (n, _bindings) = self.build(registry, name.as_str(), &attributes)?;
                self.attach(n);
                Ok(())
            },
            XmlEvent::End => {
                let depth = self.stack.len();
                if depth == 0 {
                    return Err(ModelError::UnbalancedEnd);
                }
                let ghost before = self.stack@;
                let frame = self.stack.pop().unwrap();
                assert(self.stack@ == before.drop_last());
                assert(frame.node < self.model.nodes@.len());
                self.attach(frame.node);
                Ok(())
            },
            XmlEvent::Text(t) => {
                if blank(t.as_str()) {
                    return Ok(());
                }
                let depth = self.stack.len();
                if depth == 0 {
                    return Err(ModelError::OrphanText);
                }
                let p = self.stack[depth - 1].node;
                assert(self.stack@[depth - 1].node < self.model.nodes@.len());
                let ghost before = self.model.nodes@;
                if let Node::Typed(e) = &self.model.nodes[p] {
                    return Err(ModelError::TextInTypedElement { id: e.id.clone() });
                }
                match &mut self.model.nodes[p] {
                    Node::Typed(_) => {},
                    Node::Foreign(f) => {
                        f.text = Some(t);
                    },
                }
                proof {
                    let iv = index_view(self.model.index@);
                    assert forall|i: int| 0 <= i < iv.len() implies ({
                        let (k, m) = #[trigger] iv[i];
                        &&& m < self.model.nodes@.len()
                        &&& self.model.nodes@[m as int] matches Node::Typed(e)
                        &&& e.id@ == k
                    }) by {
                        assert(self.model.nodes@[iv[i].1 as int] == before[iv[i].1 as int]);
                    }
                }
                Ok(())
            },
            XmlEvent::CData => Err(ModelError::CDataSection),
            XmlEvent::Reference => Err(ModelError::EntityReference),
            XmlEvent::Other => Ok(()),
        }
    }

    /// Ends the document: every element must have been closed.
    pub fn finish(self) -> (r: Result<NativeLoader, ModelError>)
        requires
            self.wf(),
        ensures
            self.spec_stack().len() > 0 ==> r == Err::<NativeLoader, ModelError>(ModelError::UnclosedElement { depth: self.spec_stack().len() as usize }),
            self.spec_stack().len() == 0 ==> r == Ok::<NativeLoader, ModelError>(self.spec_model()),
            r matches Ok(m) ==> m.wf(),
    {
        if self.stack.len() > 0 {
            return Err(ModelError::UnclosedElement { depth: self.stack.len() });
        }
        Ok(self.model)
    }
}

/// After building node `n` from a start tag, the model holds the old nodes
/// and the new one last; a typed element is indexed, and a duplicate
/// identifier points to the new node and flags the model.
pub open spec fn build_done(
    old_model: NativeLoader,
    model: NativeLoader,
    reg: Registry,
    outer: Seq<Seq<(Seq<char>, Seq<char>)>>,
    name: Seq<char>,
    attrs: Seq<RawAttribute>,
    n: usize,
) -> bool {
    &&& n == old_model.spec_nodes().len()
    &&& model.spec_nodes() == old_model.spec_nodes().push(model.spec_nodes()[n as int])
    &&& built_as(reg, outer, name, attrs, model.spec_nodes()[n as int])
    &&& model.spec_roots() == old_model.spec_roots()
    &&& indexed(old_model, model, model.spec_nodes()[n as int], n)
}

/// The index and the flag after node `n`, which is `x`, was added: a typed
/// element is indexed, and a duplicate identifier points to the new node
/// and flags the model.
pub open spec fn indexed(old_model: NativeLoader, model: NativeLoader, x: Node, n: usize) -> bool {
    match x {
        Node::Typed(e) => {
            &&& model.spec_index() == index_insert(old_model.spec_index(), e.id@, n)
            &&& model.spec_corrupt() == (old_model.spec_corrupt() || attr_lookup(
                old_model.spec_index(),
                e.id@,
            ) is Some)
        },
        Node::Foreign(_) => {
            &&& model.spec_index() == old_model.spec_index()
            &&& model.spec_corrupt() == old_model.spec_corrupt()
        },
    }
}

/// What one event does to a loader (`a` before, `b` after) and what it returns.
pub open spec fn feed_spec(a: DocumentParser, b: DocumentParser, reg: Registry, event: XmlEvent, r: Result<(), ModelError>) -> bool {
    let outer = frames_bindings(a.spec_stack());
    let am = a.spec_model();
    let bm = b.spec_model();
    let n = am.spec_nodes().len() as usize;
    &&& r is Err ==> bm == am && b.spec_stack() == a.spec_stack()
    &&& match event {
        XmlEvent::Start { name, attributes } => {
            &&& r is Ok <==> build_ok(reg, outer, name@, attributes@)
            &&& r matches Err(e) ==> build_error(reg, outer, name@, attributes@, e)
            &&& r is Ok ==> {
                &&& build_done(am, bm, reg, outer, name@, attributes@, n)
                &&& b.spec_stack().len() == a.spec_stack().len() + 1
                &&& b.spec_stack().drop_last() == a.spec_stack()
                &&& b.spec_stack().last().node == n
                &&& pairs_view(b.spec_stack().last().bindings@) == own_bindings(attributes@)
            }
        },
        XmlEvent::Empty { name, attributes } => {
            &&& r is Ok <==> build_ok(reg, outer, name@, attributes@)
            &&& r matches Err(e) ==> build_error(reg, outer, name@, attributes@, e)
            &&& r is Ok ==> {
                let x = bm.spec_nodes()[n as int];
                &&& built_as(reg, outer, name@, attributes@, x)
                &&& indexed(am, bm, x, n)
                &&& attached(am.spec_nodes().push(x), am.spec_roots(), bm.spec_nodes(), bm.spec_roots(), top(a.spec_stack()), n)
                &&& b.spec_stack() == a.spec_stack()
            }
        },
        XmlEvent::End => if a.spec_stack().len() == 0 {
            r == Err::<(), ModelError>(ModelError::UnbalancedEnd)
        } else {
            &&& r is Ok
            &&& b.spec_stack() == a.spec_stack().drop_last()
            &&& attached(am.spec_nodes(), am.spec_roots(), bm.spec_nodes(), bm.spec_roots(), top(a.spec_stack().drop_last()), a.spec_stack().last().node)
            &&& bm.spec_index() == am.spec_index()
            &&& bm.spec_corrupt() == am.spec_corrupt()
        },
        XmlEvent::Text(t) => if is_blank(t@) {
            r is Ok && b == a
        } else if a.spec_stack().len() == 0 {
            r == Err::<(), ModelError>(ModelError::OrphanText)
        } else {
            let p = a.spec_stack().last().node;
            match am.spec_nodes()[p as int] {
                Node::Typed(e) => r matches Err(ModelError::TextInTypedElement { id }) && id@ == e.id@,
                Node::Foreign(_) => {
                    &&& r is Ok
                    &&& b.spec_stack() == a.spec_stack()
                    &&& bm.spec_nodes().len() == am.spec_nodes().len()
                    &&& text_set(am.spec_nodes()[p as int], bm.spec_nodes()[p as int], t@)
                    &&& forall|i: int| 0 <= i < bm.spec_nodes().len() && i != p ==> bm.spec_nodes()[i] == am.spec_nodes()[i]
                    &&& bm.spec_roots() == am.spec_roots()
                    &&& bm.spec_index() == am.spec_index()
                    &&& bm.spec_corrupt() == am.spec_corrupt()
                },
            }
        },
        XmlEvent::CData => r == Err::<(), ModelError>(ModelError::CDataSection),
        XmlEvent::Reference => r == Err::<(), ModelError>(ModelError::EntityReference),
        XmlEvent::Other => r is Ok && b == a,
    }
}

/// The error that building the element of a start tag reports.
pub open spec fn build_error(
    reg: Registry,
    outer: Seq<Seq<(Seq<char>, Seq<char>)>>,
    name: Seq<char>,
    attrs: Seq<RawAttribute>,
    e: ModelError,
) -> bool {
    let own = own_bindings(attrs);
    match scan_spec(attrs, own, outer) {
        Err(p) => scan_error_matches(p, e),
        Ok((None, _)) => e matches ModelError::NamespacedTag { name: n } && n@ == name,
        Ok((Some(t), plain)) => if qname_prefix(t) is None {
            e matches ModelError::UntypedDiscriminant { value } && value@ == t
        } else if attr_lookup(plain, uuid_name()) is None {
            e matches ModelError::MissingId { tag } && tag@ == name
        } else {
            let alias = qname_prefix(t)->0;
            resolve_error(reg.spec_namespaces(), alias, qname_local(t), scope_lookup(own, outer, alias), e)
        },
    }
}


/// A second typed element with an identifier that the index already holds
/// takes over the index entry and flags the model, without adding an entry.
pub proof fn lemma_duplicate_id(am: NativeLoader, bm: NativeLoader, x: Node, n: usize)
    requires
        am.wf(),
        indexed(am, bm, x, n),
        x matches Node::Typed(e) && index_get(am.spec_index(), e.id@) is Some,
    ensures
        bm.spec_corrupt(),
        x matches Node::Typed(e) && index_get(bm.spec_index(), e.id@) == Some(n),
        bm.spec_index().len() == am.spec_index().len(),
{
    let e = x->Typed_0;
    let iv = am.spec_index();
    lemma_attr_lookup(iv, e.id@);
    let p = attr_lookup(iv, e.id@)->0;
    let jv = iv.update(p, (e.id@, n));
    assert forall|k: int| 0 <= k < p implies (#[trigger] jv[k]).0 != e.id@ by {
        assert(jv[k] == iv[k]);
    }
    lemma_attr_first(jv, e.id@, p);
}

/// The attributes without a prefix, as name and value, in order.
pub open spec fn plain_pairs(attrs: Seq<RawAttribute>) -> Seq<(Seq<char>, Seq<char>)>
    decreases attrs.len(),
{
    if attrs.len() == 0 {
        Seq::empty()
    } else if qname_prefix(attrs.last().name@) is None {
        plain_pairs(attrs.drop_last()).push((attrs.last().name@, attrs.last().value@))
    } else {
        plain_pairs(attrs.drop_last())
    }
}

/// A start tag whose attributes are unprefixed or `xmlns` bindings gives,
/// where it can be built, a foreign element with the tag as written, every
/// unprefixed attribute in document order, no text and no children.
pub proof fn lemma_foreign_keeps_attributes(
    reg: Registry,
    outer: Seq<Seq<(Seq<char>, Seq<char>)>>,
    name: Seq<char>,
    attrs: Seq<RawAttribute>,
    node: Node,
)
    requires
        forall|i: int| 0 <= i < attrs.len() ==> qname_prefix(#[trigger] attrs[i].name@) is None
            || qname_prefix(attrs[i].name@) == Some(xmlns()),
        built_as(reg, outer, name, attrs, node),
    ensures
        node matches Node::Foreign(f) && f.namespace is None && f.tag@ == name && f.text is None
            && arc_pairs_view(f.attributes@) == plain_pairs(attrs) && f.children@.len() == 0,
{
    lemma_scan_plain(attrs, own_bindings(attrs), outer);
}

/// Scanning attributes that are unprefixed or `xmlns` bindings finds no type
/// and keeps the unprefixed ones in order.
pub proof fn lemma_scan_plain(
    attrs: Seq<RawAttribute>,
    own: Seq<(Seq<char>, Seq<char>)>,
    outer: Seq<Seq<(Seq<char>, Seq<char>)>>,
)
    requires
        forall|i: int| 0 <= i < attrs.len() ==> qname_prefix(#[trigger] attrs[i].name@) is None
            || qname_prefix(attrs[i].name@) == Some(xmlns()),
    ensures
        scan_spec(attrs, own, outer) == Ok::<(Option<Seq<char>>, Seq<(Seq<char>, Seq<char>)>), crate::scan::ScanProblem>(
            (None, plain_pairs(attrs)),
        ),
    decreases attrs.len(),
{
    if attrs.len() > 0 {
        let init = attrs.drop_last();
        assert forall|i: int| 0 <= i < init.len() implies qname_prefix(#[trigger] init[i].name@) is None
            || qname_prefix(init[i].name@) == Some(xmlns()) by {
            assert(init[i] == attrs[i]);
        }
        lemma_scan_plain(init, own, outer);
        assert(qname_prefix(attrs[attrs.len() - 1].name@) is None || qname_prefix(attrs[attrs.len() - 1].name@) == Some(xmlns()));
    }
}

/// The parser's model is well formed whenever the parser is.
pub proof fn lemma_parser_model_wf(p: DocumentParser)
    requires
        p.wf(),
    ensures
        p.spec_model().wf(),
{
}

/// Feeding a start or empty tag that builds a typed element whose identifier
/// the index already holds succeeds, points the identifier to the new node,
/// flags the model and adds no index entry.
pub proof fn lemma_feed_duplicate_id(a: DocumentParser, b: DocumentParser, reg: Registry, ev: XmlEvent)
    requires
        a.wf(),
        ev is Start || ev is Empty,
        feed_spec(a, b, reg, ev, Ok(())),
        b.spec_model().spec_nodes()[a.spec_model().spec_nodes().len() as int] matches Node::Typed(e)
            && index_get(a.spec_model().spec_index(), e.id@) is Some,
    ensures
        b.spec_model().spec_corrupt(),
        b.spec_model().spec_nodes()[a.spec_model().spec_nodes().len() as int] matches Node::Typed(e)
            && index_get(b.spec_model().spec_index(), e.id@) == Some(a.spec_model().spec_nodes().len() as usize),
        b.spec_model().spec_index().len() == a.spec_model().spec_index().len(),
{
    let n = a.spec_model().spec_nodes().len() as usize;
    let x = b.spec_model().spec_nodes()[n as int];
    lemma_duplicate_id(a.spec_model(), b.spec_model(), x, n);
}

/// Children finished one after the other under the same element keep the
/// order in which they were finished.
pub proof fn lemma_children_in_order(
    n0: Seq<Node>,
    r0: Seq<usize>,
    n1: Seq<Node>,
    r1: Seq<usize>,
    n2: Seq<Node>,
    r2: Seq<usize>,
    p: usize,
    c1: usize,
    c2: usize,
)
    requires
        attached(n0, r0, n1, r1, Some(p), c1),
        attached(n1, r1, n2, r2, Some(p), c2),
        p < n0.len(),
    ensures
        node_children(n2[p as int]) == node_children(n0[p as int]).push(c1).push(c2),
{
}

/// The children of a node.
pub open spec fn node_children(n: Node) -> Seq<usize> {
    match n {
        Node::Typed(e) => e.children@,
        Node::Foreign(f) => f.children@,
    }
}


/// A parser before its first event.
pub open spec fn initial(p: DocumentParser) -> bool {
    &&& p.wf()
    &&& p.spec_stack().len() == 0
    &&& p.spec_model().spec_nodes().len() == 0
    &&& p.spec_model().spec_index().len() == 0
    &&& p.spec_model().spec_roots().len() == 0
    &&& !p.spec_model().spec_corrupt()
}

/// `states` are the parser before each event and after the last: the first
/// is fresh, and each event takes one state to the next without an error.
pub open spec fn trace_ok(reg: Registry, evs: Seq<XmlEvent>, states: Seq<DocumentParser>) -> bool {
    &&& states.len() == evs.len() + 1
    &&& initial(states[0])
    &&& forall|i: int| 0 <= i < states.len() ==> (#[trigger] states[i]).wf()
    &&& forall|i: int| 0 <= i < evs.len() ==> #[trigger] feed_spec(states[i], states[i + 1], reg, evs[i], Ok(()))
}

/// Feeding `evs` in order to a fresh parser accepts each of them and can
/// leave it as `p`.
pub open spec fn fed(reg: Registry, evs: Seq<XmlEvent>, p: DocumentParser) -> bool {
    exists|states: Seq<DocumentParser>| #[trigger] trace_ok(reg, evs, states) && states.last() == p
}

/// Feeding `evs` in order accepts all but the last, which fails with `e`.
pub open spec fn fed_fails(reg: Registry, evs: Seq<XmlEvent>, e: ModelError) -> bool {
    &&& evs.len() > 0
    &&& exists|states: Seq<DocumentParser>, p: DocumentParser|
        #![trigger trace_ok(reg, evs.drop_last(), states), feed_spec(states.last(), p, reg, evs.last(), Err(e))]
        trace_ok(reg, evs.drop_last(), states) && feed_spec(states.last(), p, reg, evs.last(), Err(e))
}

pub proof fn lemma_trace_push(reg: Registry, evs: Seq<XmlEvent>, states: Seq<DocumentParser>, e: XmlEvent, p: DocumentParser, r: Result<(), ModelError>)
    requires
        trace_ok(reg, evs, states),
        feed_spec(states.last(), p, reg, e, r),
        p.wf(),
    ensures
        r is Ok ==> trace_ok(reg, evs.push(e), states.push(p)),
        r matches Err(x) ==> fed_fails(reg, evs.push(e), x),
{
    assert(evs.push(e).drop_last() == evs);
    assert(evs.push(e).last() == e);
    if r is Ok {
        let u = r->Ok_0;
        assert(u == ());
        assert(r == Ok::<(), ModelError>(u));
        let ns = states.push(p);
        let ne = evs.push(e);
        assert forall|i: int| 0 <= i < ns.len() implies (#[trigger] ns[i]).wf() by {
            if i < states.len() {
                assert(ns[i] == states[i]);
            }
        }
        assert forall|i: int| 0 <= i < ne.len() implies #[trigger] feed_spec(ns[i], ns[i + 1], reg, ne[i], Ok(())) by {
            if i < evs.len() {
                assert(ns[i] == states[i] && ns[i + 1] == states[i + 1] && ne[i] == evs[i]);
            } else {
                assert(ns[i] == states.last() && ns[i + 1] == p && ne[i] == e);
            }
        }
    }
}

/// What loading a whole sequence of events gives: the model built by
/// feeding them all, where every element was closed; the error of the first
/// event that fails; or the count of elements left open.
pub open spec fn events_outcome(reg: Registry, evs: Seq<XmlEvent>, r: Result<NativeLoader, ModelError>) -> bool {
    match r {
        Ok(m) => exists|p: DocumentParser| #[trigger] fed(reg, evs, p) && p.spec_stack().len() == 0 && p.spec_model() == m,
        Err(e) => (exists|k: int| 0 < k <= evs.len() && #[trigger] fed_fails(reg, evs.take(k), e)) || (exists|
            p: DocumentParser,
        |
            #[trigger] fed(reg, evs, p) && p.spec_stack().len() > 0 && e == ModelError::UnclosedElement {
                depth: p.spec_stack().len() as usize,
            }),
    }
}

/// Loads a model from a sequence of XML events: each is fed in order, the
/// first failure ends the load, and at the end every element must be closed.
pub fn load_events(registry: &Registry, events: Vec<XmlEvent>) -> (r: Result<NativeLoader, ModelError>)
    requires
        registry.wf(),
    ensures
        events_outcome(*registry, events@, r),
        r matches Ok(m) ==> m.wf(),
{
    let ghost all = events@;
    let n = events.len();
    let mut parser = DocumentParser::new();
    let ghost mut states = seq![parser];
    let mut i: usize = 0;
    let mut source = events;
    let mut rest: Vec<XmlEvent> = Vec::new();
    while source.len() > 0
        invariant
            source@.len() + rest@.len() == all.len(),
            all == events@,
            forall|j: int| 0 <= j < source@.len() ==> source@[j] == all[j],
            forall|j: int| 0 <= j < rest@.len() ==> rest@[j] == all[all.len() - 1 - j],
        decreases source@.len(),
    {
        let e = source.pop().unwrap();
        rest.push(e);
    }
    proof {
        assert(all.take(0) =~= Seq::<XmlEvent>::empty());
    }
    while rest.len() > 0
        invariant
            registry.wf(),
            parser.wf(),
            i + rest@.len() == all.len(),
            all.len() == n,
            all == events@,
            forall|j: int| 0 <= j < rest@.len() ==> rest@[j] == all[all.len() - 1 - j],
            trace_ok(*registry, all.take(i as int), states),
            states.last() == parser,
        decreases rest@.len(),
    {
        let ghost done = all.take(i as int);
        let event = rest.pop().unwrap();
        assert(event == all[i as int]);
        let ghost ev = event;
        let r = parser.feed(registry, event);
        proof {
            lemma_trace_push(*registry, done, states, ev, parser, r);
            assert(done.push(ev) =~= all.take(i + 1));
            if r is Ok {
                states = states.push(parser);
            }
        }
        if let Err(e) = r {
            assert(fed_fails(*registry, all.take(i + 1), e));
            assert(0 < i + 1 <= all.len());
            assert(all == events@);
            assert(exists|k: int| 0 < k <= all.len() && #[trigger] fed_fails(*registry, all.take(k), e));
            return Err(e);
        }
        i += 1;
    }
    assert(all.take(i as int) =~= all);
    assert(trace_ok(*registry, all, states));
    let ghost last = parser;
    assert(fed(*registry, events@, last));
    parser.finish()
}


/// An event that is accepted never clears the corruption flag.
pub proof fn lemma_corrupt_stays(a: DocumentParser, b: DocumentParser, reg: Registry, ev: XmlEvent)
    requires
        feed_spec(a, b, reg, ev, Ok(())),
        a.spec_model().spec_corrupt(),
    ensures
        b.spec_model().spec_corrupt(),
{
    let n = a.spec_model().spec_nodes().len() as usize;
    match ev {
        XmlEvent::Start { .. } => {
            assert(indexed(a.spec_model(), b.spec_model(), b.spec_model().spec_nodes()[n as int], n));
        },
        XmlEvent::Empty { .. } => {
            assert(indexed(a.spec_model(), b.spec_model(), b.spec_model().spec_nodes()[n as int], n));
        },
        _ => {},
    }
}

/// In a load, an event that builds a typed element with an identifier that
/// the index already holds takes over the index entry and flags the model,
/// and the flag stays set for the rest of the load.
pub proof fn lemma_load_duplicate_id(reg: Registry, evs: Seq<XmlEvent>, states: Seq<DocumentParser>, i: int)
    requires
        trace_ok(reg, evs, states),
        0 <= i < evs.len(),
        evs[i] is Start || evs[i] is Empty,
        states[i + 1].spec_model().spec_nodes()[states[i].spec_model().spec_nodes().len() as int] matches Node::Typed(e)
            && index_get(states[i].spec_model().spec_index(), e.id@) is Some,
    ensures
        states[i + 1].spec_model().spec_nodes()[states[i].spec_model().spec_nodes().len() as int] matches Node::Typed(e)
            && index_get(states[i + 1].spec_model().spec_index(), e.id@) == Some(states[i].spec_model().spec_nodes().len() as usize),
        forall|j: int| i < j < states.len() ==> (#[trigger] states[j]).spec_model().spec_corrupt(),
{
    assert(states[i].wf());
    assert(feed_spec(states[i], states[i + 1], reg, evs[i], Ok(())));
    lemma_feed_duplicate_id(states[i], states[i + 1], reg, evs[i]);
    assert forall|j: int| i < j < states.len() implies (#[trigger] states[j]).spec_model().spec_corrupt() by {
        lemma_corrupt_from(reg, evs, states, i + 1, j);
    }
}

proof fn lemma_corrupt_from(reg: Registry, evs: Seq<XmlEvent>, states: Seq<DocumentParser>, i: int, j: int)
    requires
        trace_ok(reg, evs, states),
        0 <= i <= j < states.len(),
        states[i].spec_model().spec_corrupt(),
    ensures
        states[j].spec_model().spec_corrupt(),
    decreases j - i,
{
    if i < j {
        assert(feed_spec(states[i], states[i + 1], reg, evs[i], Ok(())));
        lemma_corrupt_stays(states[i], states[i + 1], reg, evs[i]);
        lemma_corrupt_from(reg, evs, states, i + 1, j);
    }
}

} // verus!
