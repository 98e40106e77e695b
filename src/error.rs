use vstd::prelude::*;

use crate::version::VersionToken;

verus! {

/// What can go wrong while setting up namespaces or loading a model.
#[derive(Debug)]
pub enum ModelError {
    /// A namespace was declared with a version precision of zero.
    InvalidPrecision,
    /// A versioned namespace was declared without its maximum supported version.
    MissingMaxVersion,
    /// An unversioned namespace was declared with a maximum supported version.
    UnexpectedMaxVersion,
    /// A class of a versioned namespace was looked up without a version.
    NoVersionRequested { namespace: String },
    /// A class was registered in a namespace other than its own.
    ForeignClass { class_name: String, namespace: String, owner: String },
    /// No registered class has this name and covers this version.
    MissingClass { namespace: String, version: Option<VersionToken>, class_name: String },
    /// A version is not a dotted sequence of decimal numbers.
    InvalidVersion { text: String },
    /// An attribute has a namespace prefix other than a binding or the type's.
    UnsupportedAttribute { name: String },
    /// An element without a type attribute has a namespaced tag.
    NamespacedTag { name: String },
    /// A type attribute's value has no `alias:` part.
    UntypedDiscriminant { value: String },
    /// A typed element has no `uuid` attribute.
    MissingId { tag: String },
    /// An end tag without an open element.
    UnbalancedEnd,
    /// The document ended with this many elements still open.
    UnclosedElement { depth: usize },
    /// Text outside of any element.
    OrphanText,
    /// Text directly inside a typed element.
    TextInTypedElement { id: String },
    /// A CDATA section, which is not supported.
    CDataSection,
    /// A character or entity reference, which is not supported.
    EntityReference,
    /// No typed element has this identifier.
    NotFound { id: String },
    /// A relation has no key of its own and inherits none.
    MissingRelationKey { owner: String, name: String },
    /// The document is not well-formed XML; the tokenizer's message.
    Xml { message: String },
    /// A resource provider returned more bytes than were asked for.
    ProviderOverread { requested: usize, returned: usize },
    /// The entry point is not a model descriptor file.
    InvalidEntrypoint,
    /// The tokenizer gave more events or attributes than the document has bytes.
    TokenizerOverrun,
    /// A name is not valid UTF-8.
    InvalidUtf8,
    /// The node is not a typed element.
    NotTyped { node: usize },
    /// The element is not in the list.
    NotInList,
    /// A back-reference was to be assigned or deleted.
    ReadOnlyRelation { owner: Option<String>, name: Option<String> },
    /// A position past the end of a list.
    IndexOutOfRange { index: usize },
    /// No namespace has this alias.
    UnknownNamespace { alias: String },
    /// A start tag has more than one type attribute.
    DuplicateTypeAttribute { name: String },
}

} // verus!
