//! A collection of root schemas, and the documents that they still lack.

use vstd::prelude::*;
use vstd::string::*;
use crate::errors::{ErrorView, JslError};
use crate::json::{find_key, is_first_at, lemma_position_has_key};
use crate::schema::{
    definitions_of, entries_view, has_name, name_taken, refs_of_root, Schema, SchemaView,
};
use crate::text::{clone_option, contains_string, option_view, strings_view};
use crate::uri::{absolute_url, join_url, joined_url, parse_url};

verus! {

/// The position of the first `#` at or after `from`.
pub open spec fn hash_from(text: Seq<char>, from: nat) -> Option<nat>
    decreases text.len() - from,
{
    if from >= text.len() {
        None
    } else if text[from as int] == '#' {
        Some(from)
    } else {
        hash_from(text, from + 1)
    }
}

/// What stands before the first `#` of a reference: the document.
pub open spec fn document_part(text: Seq<char>) -> Seq<char> {
    match hash_from(text, 0) {
        Some(i) => text.take(i as int),
        None => text,
    }
}

/// What stands after the first `#` of a reference: the definition. An
/// empty one is none.
pub open spec fn fragment_part(text: Seq<char>) -> Option<Seq<char>> {
    match hash_from(text, 0) {
        Some(i) => if i + 1 < text.len() {
            Some(text.skip((i + 1) as int))
        } else {
            None
        },
        None => None,
    }
}

/// Splits a reference at its first `#`.
pub fn split_fragment(text: &str) -> (parts: (String, Option<String>))
    ensures
        parts.0@ == document_part(text@),
        option_view(parts.1) == fragment_part(text@),
{
    let n = text.unicode_len();
    let mut i: usize = 0;
    while i < n
        invariant
            i <= n,
            n == text@.len(),
            hash_from(text@, 0) == hash_from(text@, i as nat),
        decreases n - i,
    {
        if text.get_char(i) == '#' {
            let document = text.substring_char(0, i).to_owned();
            assert(text@.subrange(0, i as int) =~= text@.take(i as int));
            let fragment = if i + 1 < n {
                assert(text@.subrange(i + 1, n as int) =~= text@.skip(i + 1));
                Some(text.substring_char(i + 1, n).to_owned())
            } else {
                None
            };
            return (document, fragment);
        }
        i += 1;
    }
    (text.to_owned(), None)
}

/// What a reference stands for: a document, by the text of its URL or
/// `None` for the document without identifier, and a definition in it or
/// `None` for its root schema.
#[derive(Debug, PartialEq, Eq)]
pub struct Link {
    pub document: Option<String>,
    pub definition: Option<String>,
}

/// The mathematical value of a [`Link`].
pub struct LinkView {
    pub document: Option<Seq<char>>,
    pub definition: Option<Seq<char>>,
}

impl View for Link {
    type V = LinkView;

    open spec fn view(&self) -> LinkView {
        LinkView { document: option_view(self.document), definition: option_view(self.definition) }
    }
}

/// What a reference stands for in a document with the identifier `base`
/// and the definitions `defs`, where `url` is the text of the URL that the
/// reference resolves to.
///
/// The name of a definition stands for that definition. A reference that
/// is empty or starts with `#` stays in the document. Any other is a URL:
/// its part before the first `#` names the document. Where it resolves to
/// no URL it is rejected, as a relative reference where the document has no
/// identifier.
pub open spec fn resolved_given(
    base: Option<Seq<char>>,
    defs: Seq<(Seq<char>, SchemaView)>,
    reference: Seq<char>,
    url: Option<Seq<char>>,
) -> Result<LinkView, ErrorView> {
    if has_name(defs, reference) {
        Ok(LinkView { document: base, definition: Some(reference) })
    } else if reference.len() == 0 || reference[0] == '#' {
        Ok(LinkView { document: base, definition: fragment_part(reference) })
    } else {
        match url {
            Some(u) => Ok(LinkView { document: Some(document_part(u)), definition: fragment_part(u) }),
            None => Err(
                if base.is_some() {
                    ErrorView::InvalidForm
                } else {
                    ErrorView::RelativeRefFromAnonymousSchema
                },
            ),
        }
    }
}

/// The text of the URL that a reference resolves to: against the
/// identifier of its document, or by itself where the document has none.
pub open spec fn url_of(base: Option<Seq<char>>, reference: Seq<char>) -> Option<Seq<char>> {
    match base {
        Some(b) => joined_url(b, reference),
        None => absolute_url(reference),
    }
}

/// What a reference stands for in a document with the identifier `base`
/// and the definitions `defs`.
pub open spec fn resolved(
    base: Option<Seq<char>>,
    defs: Seq<(Seq<char>, SchemaView)>,
    reference: Seq<char>,
) -> Result<LinkView, ErrorView> {
    resolved_given(base, defs, reference, url_of(base, reference))
}

/// Whether a reference stays in its document by its shape: it is empty or
/// starts with `#`.
pub fn stays_in_document(reference: &String) -> (stays: bool)
    ensures
        stays == (reference@.len() == 0 || reference@[0] == '#'),
{
    let text = reference.as_str();
    text.unicode_len() == 0 || text.get_char(0) == '#'
}

/// What a reference stands for, given the URL that it resolves to.
pub fn resolve_given(
    base: &Option<String>,
    defs: &Vec<(String, Schema)>,
    reference: &String,
    url: Option<String>,
) -> (r: Result<Link, JslError>)
    ensures
        match r {
            Ok(link) => resolved_given(
                option_view(*base),
                entries_view(*defs),
                reference@,
                option_view(url),
            ) == Ok::<LinkView, ErrorView>(link@),
            Err(e) => resolved_given(
                option_view(*base),
                entries_view(*defs),
                reference@,
                option_view(url),
            ) == Err::<LinkView, ErrorView>(e@),
        },
{
    if name_taken(defs, reference) {
        Ok(Link { document: clone_option(base), definition: Some(reference.clone()) })
    } else if stays_in_document(reference) {
        let (_, fragment) = split_fragment(reference.as_str());
        Ok(Link { document: clone_option(base), definition: fragment })
    } else {
        match url {
            Some(u) => {
                let (document, fragment) = split_fragment(u.as_str());
                Ok(Link { document: Some(document), definition: fragment })
            },
            None => {
                if base.is_some() {
                    Err(JslError::InvalidForm)
                } else {
                    Err(JslError::RelativeRefFromAnonymousSchema)
                }
            },
        }
    }
}

/// What a reference stands for in a document with the identifier `base`
/// and the definitions `defs`.
pub fn resolve(base: &Option<String>, defs: &Vec<(String, Schema)>, reference: &String) -> (r:
    Result<Link, JslError>)
    ensures
        match r {
            Ok(link) => resolved(option_view(*base), entries_view(*defs), reference@) == Ok::<
                LinkView,
                ErrorView,
            >(link@),
            Err(e) => resolved(option_view(*base), entries_view(*defs), reference@) == Err::<
                LinkView,
                ErrorView,
            >(e@),
        },
{
    let url = match base {
        Some(b) => join_url(b.as_str(), reference.as_str()),
        None => parse_url(reference.as_str()),
    };
    resolve_given(base, defs, reference, url)
}

/// `i` is the first position of `entries` whose name is `name`.
pub open spec fn is_first_name(entries: Seq<(Seq<char>, SchemaView)>, name: Seq<char>, i: int) -> bool {
    &&& 0 <= i < entries.len()
    &&& entries[i].0 == name
    &&& forall|j: int| 0 <= j < i ==> (#[trigger] entries[j]).0 != name
}

/// The first position of `entries` whose name is `name`, if there is one.
pub open spec fn name_position(entries: Seq<(Seq<char>, SchemaView)>, name: Seq<char>) -> Option<int> {
    if exists|i: int| is_first_name(entries, name, i) {
        Some(choose|i: int| is_first_name(entries, name, i))
    } else {
        None
    }
}

/// The first position of a name is the only one that `name_position` can
/// give.
pub proof fn lemma_name_position_first(
    entries: Seq<(Seq<char>, SchemaView)>,
    name: Seq<char>,
    i: int,
)
    requires
        is_first_name(entries, name, i),
    ensures
        name_position(entries, name) == Some(i),
{
    let j = choose|j: int| is_first_name(entries, name, j);
    assert(is_first_name(entries, name, j));
    if j < i {
        assert(entries[j].0 != name);
    }
    if i < j {
        assert(entries[i].0 != name);
    }
}

/// Finds the first of the named schemas with the given name.
pub fn find_name(entries: &Vec<(String, Schema)>, name: &String) -> (r: Option<usize>)
    ensures
        match r {
            Some(i) => name_position(entries_view(*entries), name@) == Some(i as int) && i
                < entries@.len(),
            None => name_position(entries_view(*entries), name@).is_none(),
        },
{
    let found = find_key(entries, name);
    proof {
        let view = entries_view(*entries);
        lemma_position_has_key(entries@, name@);
        match found {
            Some(i) => {
                assert(is_first_at(entries@, name@, i as int));
                assert forall|j: int| 0 <= j < i implies (#[trigger] view[j]).0 != name@ by {
                    assert(entries@[j].0@ != name@);
                }
                assert(is_first_name(view, name@, i as int));
                lemma_name_position_first(view, name@, i as int);
            },
            None => {
                if exists|i: int| is_first_name(view, name@, i) {
                    let i = choose|i: int| is_first_name(view, name@, i);
                    assert(entries@[i].0@ == name@);
                }
            },
        }
    }
    found
}

/// The documents of a registry: the one without identifier, if there is
/// one, and the others in the order in which they came, each under the text
/// of its URL.
pub struct Documents {
    pub anonymous: Option<SchemaView>,
    pub named: Seq<(Seq<char>, SchemaView)>,
}

/// The root schema of the document with that identifier.
pub open spec fn document(docs: Documents, id: Option<Seq<char>>) -> Option<SchemaView> {
    match id {
        None => docs.anonymous,
        Some(url) => match name_position(docs.named, url) {
            Some(i) => Some(docs.named[i].1),
            None => None,
        },
    }
}

/// The documents with one more root schema, which takes the place of the
/// one that had its identifier.
pub open spec fn with_document(docs: Documents, schema: SchemaView) -> Documents {
    match schema.id {
        None => Documents { anonymous: Some(schema), named: docs.named },
        Some(url) => match name_position(docs.named, url) {
            Some(i) => Documents {
                anonymous: docs.anonymous,
                named: docs.named.update(i, (url, schema)),
            },
            None => Documents { anonymous: docs.anonymous, named: docs.named.push((url, schema)) },
        },
    }
}

/// The list `missing` with the identifiers of the documents that the
/// references from position `from` on stand for and that are not there,
/// each once, in the order in which they are met; or the first reason why a
/// reference stands for nothing.
///
/// A reference to a definition of a document that is there, and that has no
/// definition of that name, is rejected.
pub open spec fn scan_refs(
    docs: Documents,
    base: Option<Seq<char>>,
    defs: Seq<(Seq<char>, SchemaView)>,
    refs: Seq<Seq<char>>,
    from: nat,
    missing: Seq<Seq<char>>,
) -> Result<Seq<Seq<char>>, ErrorView>
    decreases refs.len() - from,
{
    if from >= refs.len() {
        Ok(missing)
    } else {
        match resolved(base, defs, refs[from as int]) {
            Err(e) => Err(e),
            Ok(link) => match document(docs, link.document) {
                Some(target) => match link.definition {
                    Some(name) => if has_name(definitions_of(target), name) {
                        scan_refs(docs, base, defs, refs, from + 1, missing)
                    } else {
                        Err(ErrorView::NoSuchDefinition { definition: name })
                    },
                    None => scan_refs(docs, base, defs, refs, from + 1, missing),
                },
                None => scan_refs(
                    docs,
                    base,
                    defs,
                    refs,
                    from + 1,
                    match link.document {
                        Some(url) => if missing.contains(url) {
                            missing
                        } else {
                            missing.push(url)
                        },
                        None => missing,
                    },
                ),
            },
        }
    }
}

/// `scan_refs` for the references of one root schema.
pub open spec fn scan_schema(
    docs: Documents,
    base: Option<Seq<char>>,
    schema: SchemaView,
    missing: Seq<Seq<char>>,
) -> Result<Seq<Seq<char>>, ErrorView> {
    scan_refs(docs, base, definitions_of(schema), refs_of_root(schema), 0, missing)
}

/// `scan_schema` for the documents with an identifier from position `from`
/// on, in turn.
pub open spec fn scan_named(docs: Documents, from: nat, missing: Seq<Seq<char>>) -> Result<
    Seq<Seq<char>>,
    ErrorView,
>
    decreases docs.named.len() - from,
{
    if from >= docs.named.len() {
        Ok(missing)
    } else {
        match scan_schema(docs, Some(docs.named[from as int].0), docs.named[from as int].1, missing) {
            Err(e) => Err(e),
            Ok(more) => scan_named(docs, from + 1, more),
        }
    }
}

/// The identifiers of the documents that the documents refer to and that
/// are not among them, or the first reason why a reference stands for
/// nothing. The document without identifier is read first.
pub open spec fn missing_of(docs: Documents) -> Result<Seq<Seq<char>>, ErrorView> {
    let first = match docs.anonymous {
        Some(schema) => scan_schema(docs, None, schema, seq![]),
        None => Ok(seq![]),
    };
    match first {
        Err(e) => Err(e),
        Ok(missing) => scan_named(docs, 0, missing),
    }
}

/// None of the identifiers is that of a document that is there.
pub open spec fn all_absent(docs: Documents, ids: Seq<Seq<char>>) -> bool {
    forall|k: int| 0 <= k < ids.len() ==> document(docs, Some(#[trigger] ids[k])).is_none()
}

/// No identifier occurs twice.
pub open spec fn each_once(ids: Seq<Seq<char>>) -> bool {
    forall|i: int, j: int| 0 <= i < j < ids.len() ==> ids[i] != ids[j]
}

/// Scanning references adds only identifiers of documents that are not
/// there, and none twice.
pub proof fn lemma_scan_refs_absent(
    docs: Documents,
    base: Option<Seq<char>>,
    defs: Seq<(Seq<char>, SchemaView)>,
    refs: Seq<Seq<char>>,
    from: nat,
    missing: Seq<Seq<char>>,
)
    requires
        all_absent(docs, missing),
        each_once(missing),
    ensures
        scan_refs(docs, base, defs, refs, from, missing) matches Ok(more) ==> all_absent(docs, more)
            && each_once(more),
    decreases refs.len() - from,
{
    if from < refs.len() {
        match resolved(base, defs, refs[from as int]) {
            Err(_) => {},
            Ok(link) => match document(docs, link.document) {
                Some(target) => {
                    lemma_scan_refs_absent(docs, base, defs, refs, from + 1, missing);
                },
                None => {
                    let next = match link.document {
                        Some(url) => if missing.contains(url) {
                            missing
                        } else {
                            missing.push(url)
                        },
                        None => missing,
                    };
                    lemma_scan_refs_absent(docs, base, defs, refs, from + 1, next);
                },
            },
        }
    }
}

/// Scanning documents adds only identifiers of documents that are not
/// there, and none twice.
pub proof fn lemma_scan_named_absent(docs: Documents, from: nat, missing: Seq<Seq<char>>)
    requires
        all_absent(docs, missing),
        each_once(missing),
    ensures
        scan_named(docs, from, missing) matches Ok(more) ==> all_absent(docs, more) && each_once(
            more,
        ),
    decreases docs.named.len() - from,
{
    if from < docs.named.len() {
        let base = Some(docs.named[from as int].0);
        let schema = docs.named[from as int].1;
        lemma_scan_refs_absent(docs, base, definitions_of(schema), refs_of_root(schema), 0, missing);
        match scan_schema(docs, base, schema, missing) {
            Ok(more) => lemma_scan_named_absent(docs, from + 1, more),
            Err(_) => {},
        }
    }
}

/// No document that is there is reported as missing, and none is reported
/// twice.
pub proof fn lemma_missing_are_absent(docs: Documents)
    ensures
        missing_of(docs) matches Ok(missing) ==> all_absent(docs, missing) && each_once(missing),
{
    let none = Seq::<Seq<char>>::empty();
    match docs.anonymous {
        Some(schema) => {
            lemma_scan_refs_absent(docs, None, definitions_of(schema), refs_of_root(schema), 0, none);
        },
        None => {},
    }
    let first = match docs.anonymous {
        Some(schema) => scan_schema(docs, None, schema, none),
        None => Ok(none),
    };
    match first {
        Ok(missing) => lemma_scan_named_absent(docs, 0, missing),
        Err(_) => {},
    }
}

/// Adding a root schema that is there already, under its identifier,
/// changes nothing: the same documents are there, and the same are missing.
pub proof fn lemma_register_again(docs: Documents, schema: SchemaView)
    requires
        document(docs, schema.id) == Some(schema),
    ensures
        with_document(docs, schema) == docs,
        missing_of(with_document(docs, schema)) == missing_of(docs),
{
    match schema.id {
        None => {},
        Some(url) => {
            let i = name_position(docs.named, url)->Some_0;
            assert(is_first_name(docs.named, url, i));
            assert(docs.named.update(i, (url, schema)) =~= docs.named);
        },
    }
}

/// The value of a schema that may be absent.
pub open spec fn schema_option_view(schema: Option<Schema>) -> Option<SchemaView> {
    match schema {
        Some(s) => Some(s@),
        None => None,
    }
}

/// A collection of root schemas that may refer to one another.
pub struct Registry {
    anonymous: Option<Schema>,
    named: Vec<(String, Schema)>,
    missing_ids: Vec<String>,
}

impl Default for Registry {
    /// An empty registry.
    fn default() -> (r: Registry)
        ensures
            r.documents() == (Documents { anonymous: None, named: seq![] }),
            r.missing() == Seq::<Seq<char>>::empty(),
            r.wf(),
    {
        Registry::new()
    }
}

impl Registry {
    /// The documents of the registry.
    pub closed spec fn documents(&self) -> Documents {
        Documents { anonymous: schema_option_view(self.anonymous), named: entries_view(self.named) }
    }

    /// The identifiers that the registry reports as missing.
    pub closed spec fn missing(&self) -> Seq<Seq<char>> {
        strings_view(self.missing_ids@)
    }

    /// The identifiers reported as missing are those that the documents
    /// lack.
    pub open spec fn wf(&self) -> bool {
        missing_of(self.documents()) == Ok::<Seq<Seq<char>>, ErrorView>(self.missing())
    }

    /// An empty registry.
    pub fn new() -> (r: Registry)
        ensures
            r.documents() == (Documents { anonymous: None, named: seq![] }),
            r.missing() == Seq::<Seq<char>>::empty(),
            r.wf(),
    {
        let r = Registry { anonymous: None, named: Vec::new(), missing_ids: Vec::new() };
        assert(entries_view(r.named) =~= seq![]);
        assert(strings_view(r.missing_ids@) =~= seq![]);
        r
    }

    /// The root schema of the document with that identifier.
    pub fn get(&self, id: &Option<String>) -> (r: Option<&Schema>)
        ensures
            match r {
                Some(s) => document(self.documents(), option_view(*id)) == Some(s@),
                None => document(self.documents(), option_view(*id)).is_none(),
            },
    {
        match id {
            None => match &self.anonymous {
                Some(s) => Some(s),
                None => None,
            },
            Some(url) => match find_name(&self.named, url) {
                Some(i) => {
                    assert(entries_view(self.named)[i as int].1 == self.named[i as int].1@);
                    Some(&self.named[i].1)
                },
                None => None,
            },
        }
    }

    /// Whether no document is missing.
    pub fn is_sealed(&self) -> (r: bool)
        ensures
            r == (self.missing().len() == 0),
    {
        self.missing_ids.is_empty()
    }

    /// The identifiers of the documents that are referred to and missing.
    pub fn missing_ids(&self) -> (r: &Vec<String>)
        ensures
            strings_view(r@) == self.missing(),
    {
        &self.missing_ids
    }

    /// Adds a root schema to the registry, in place of the one that had
    /// its identifier, and returns the identifiers of the documents that are
    /// still missing.
    ///
    /// A schema that is no root is refused as `NonRoot`. Where a reference
    /// of one of the documents then stands for nothing, that reason is
    /// returned. Either way the registry stays as it was.
    pub fn register(&mut self, schema: Schema) -> (r: Result<&Vec<String>, JslError>)
        ensures
            schema.defs.is_none() ==> (r matches Err(e) && e@ == ErrorView::NonRoot),
            r.is_err() ==> final(self).documents() == old(self).documents() && final(self).missing()
                == old(self).missing(),
            schema.defs.is_some() ==> match missing_of(
                with_document(old(self).documents(), schema@),
            ) {
                Ok(missing) => (r matches Ok(list) && strings_view(list@) == missing)
                    && final(self).documents() == with_document(old(self).documents(), schema@)
                    && final(self).missing() == missing,
                Err(reason) => (r matches Err(e) && e@ == reason),
            },
            r.is_ok() ==> final(self).wf() && all_absent(final(self).documents(), final(self).missing()),
            old(self).wf() && schema.defs.is_some() && document(old(self).documents(), schema@.id)
                == Some(schema@) ==> r.is_ok() && final(self).missing() == old(self).missing(),
    {
        proof {
            lemma_missing_are_absent(with_document(self.documents(), schema@));
            if document(self.documents(), schema@.id) == Some(schema@) {
                lemma_register_again(self.documents(), schema@);
            }
        }
        if schema.defs.is_none() {
            return Err(JslError::NonRoot);
        }
        let ghost before = self.documents();
        proof {
            reveal_with_fuel(crate::schema::schema_view, 1);
        }
        match clone_option(&schema.id) {
            None => {
                let mut slot = Some(schema);
                core::mem::swap(&mut self.anonymous, &mut slot);
                assert(self.documents() == with_document(before, schema@));
                match self.compute_missing_ids() {
                    Ok(missing) => {
                        self.missing_ids = missing;
                        Ok(&self.missing_ids)
                    },
                    Err(e) => {
                        self.anonymous = slot;
                        Err(e)
                    },
                }
            },
            Some(url) => match find_name(&self.named, &url) {
                Some(i) => {
                    let ghost names = entries_view(self.named);
                    let (key, previous) = self.named.remove(i);
                    self.named.insert(i, (url, schema));
                    assert(entries_view(self.named) =~= names.update(i as int, (url@, schema@)));
                    assert(self.documents() == with_document(before, schema@));
                    match self.compute_missing_ids() {
                        Ok(missing) => {
                            self.missing_ids = missing;
                            Ok(&self.missing_ids)
                        },
                        Err(e) => {
                            self.named.remove(i);
                            self.named.insert(i, (key, previous));
                            assert(entries_view(self.named) =~= names);
                            Err(e)
                        },
                    }
                },
                None => {
                    let ghost names = entries_view(self.named);
                    self.named.push((url, schema));
                    assert(entries_view(self.named) =~= names.push((url@, schema@)));
                    assert(self.documents() == with_document(before, schema@));
                    match self.compute_missing_ids() {
                        Ok(missing) => {
                            self.missing_ids = missing;
                            Ok(&self.missing_ids)
                        },
                        Err(e) => {
                            self.named.pop();
                            assert(entries_view(self.named) =~= names);
                            Err(e)
                        },
                    }
                },
            },
        }
    }

    /// Adds to `missing` the documents that `schema` refers to and that
    /// are not in the registry.
    fn scan(&self, base: &Option<String>, schema: &Schema, missing: &mut Vec<String>) -> (r: Result<
        (),
        JslError,
    >)
        ensures
            match r {
                Ok(()) => scan_schema(
                    self.documents(),
                    option_view(*base),
                    schema@,
                    strings_view(old(missing)@),
                ) == Ok::<Seq<Seq<char>>, ErrorView>(strings_view(final(missing)@)),
                Err(e) => scan_schema(
                    self.documents(),
                    option_view(*base),
                    schema@,
                    strings_view(old(missing)@),
                ) == Err::<Seq<Seq<char>>, ErrorView>(e@),
            },
    {
        let refs = schema.refs();
        let none: Vec<(String, Schema)> = Vec::new();
        assert(entries_view(none) =~= seq![]);
        let defs = match &schema.defs {
            Some(list) => list,
            None => &none,
        };
        let ghost docs = self.documents();
        let ghost b = option_view(*base);
        let ghost d = definitions_of(schema@);
        let ghost texts = strings_view(refs@);
        let ghost total = scan_refs(docs, b, d, texts, 0, strings_view(missing@));
        assert(d == entries_view(*defs));
        let mut i: usize = 0;
        while i < refs.len()
            invariant
                i <= refs.len(),
                docs == self.documents(),
                b == option_view(*base),
                d == entries_view(*defs),
                texts == strings_view(refs@),
                texts == refs_of_root(schema@),
                d == definitions_of(schema@),
                entries_view(none) == Seq::<(Seq<char>, SchemaView)>::empty(),
                total == scan_refs(docs, b, d, texts, 0, strings_view(old(missing)@)),
                total == scan_refs(docs, b, d, texts, i as nat, strings_view(missing@)),
            decreases refs.len() - i,
        {
            let link = resolve(base, defs, &refs[i])?;
            match self.get(&link.document) {
                Some(target) => {
                    match &link.definition {
                        Some(name) => {
                            let target_defs = match &target.defs {
                                Some(list) => list,
                                None => &none,
                            };
                            assert(definitions_of(target@) == entries_view(*target_defs));
                            if !name_taken(target_defs, name) {
                                return Err(JslError::NoSuchDefinition { definition: name.clone() });
                            }
                        },
                        None => {},
                    }
                },
                None => {
                    match link.document {
                        Some(url) => {
                            let ghost before = strings_view(missing@);
                            let known = contains_string(missing, &url);
                            if !known {
                                missing.push(url);
                                assert(strings_view(missing@) =~= before.push(url@));
                            }
                        },
                        None => {},
                    }
                },
            }
            i += 1;
        }
        Ok(())
    }

    /// The identifiers of the documents that the registry lacks.
    fn compute_missing_ids(&self) -> (r: Result<Vec<String>, JslError>)
        ensures
            match r {
                Ok(missing) => missing_of(self.documents()) == Ok::<Seq<Seq<char>>, ErrorView>(
                    strings_view(missing@),
                ),
                Err(e) => missing_of(self.documents()) == Err::<Seq<Seq<char>>, ErrorView>(e@),
            },
    {
        let mut missing: Vec<String> = Vec::new();
        assert(strings_view(missing@) =~= seq![]);
        match &self.anonymous {
            Some(schema) => {
                self.scan(&None, schema, &mut missing)?;
            },
            None => {},
        }
        let ghost docs = self.documents();
        let ghost total = missing_of(docs);
        let mut i: usize = 0;
        while i < self.named.len()
            invariant
                i <= self.named.len(),
                docs == self.documents(),
                docs.named.len() == self.named@.len(),
                total == missing_of(docs),
                total == scan_named(docs, i as nat, strings_view(missing@)),
            decreases self.named.len() - i,
        {
            let base = Some(self.named[i].0.clone());
            assert(docs.named[i as int] == (self.named[i as int].0@, self.named[i as int].1@));
            self.scan(&base, &self.named[i].1, &mut missing)?;
            i += 1;
        }
        Ok(missing)
    }
}

} // verus!
