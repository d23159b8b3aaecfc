use vstd::prelude::*;

use std::sync::Arc;

verus! {

/// The kind of operation a fetch executes downstream.
#[derive(Clone, Copy, Debug, Default, Hash, PartialEq, Eq, Structural)]
pub enum OperationKind {
    #[default]
    Query,
    Mutation,
    Subscription,
}

impl OperationKind {
    /// The conventional name of the root type this kind of operation selects.
    pub fn default_type_name(&self) -> (r: &'static str)
        ensures
            *self == OperationKind::Query ==> r@ == "Query"@,
            *self == OperationKind::Mutation ==> r@ == "Mutation"@,
            *self == OperationKind::Subscription ==> r@ == "Subscription"@,
    {
        match self {
            OperationKind::Query => "Query",
            OperationKind::Mutation => "Mutation",
            OperationKind::Subscription => "Subscription",
        }
    }

    /// The lowercase keyword form of the kind.
    pub fn as_apollo_operation_type(&self) -> (r: &'static str)
        ensures
            *self == OperationKind::Query ==> r@ == "query"@,
            *self == OperationKind::Mutation ==> r@ == "mutation"@,
            *self == OperationKind::Subscription ==> r@ == "subscription"@,
    {
        match self {
            OperationKind::Query => "query",
            OperationKind::Mutation => "mutation",
            OperationKind::Subscription => "subscription",
        }
    }
}

// ---------------------------------------------------------------------------
// Content hash
// ---------------------------------------------------------------------------

pub open spec fn spec_hex_digit(n: int) -> char {
    if n == 0 {
        '0'
    } else if n == 1 {
        '1'
    } else if n == 2 {
        '2'
    } else if n == 3 {
        '3'
    } else if n == 4 {
        '4'
    } else if n == 5 {
        '5'
    } else if n == 6 {
        '6'
    } else if n == 7 {
        '7'
    } else if n == 8 {
        '8'
    } else if n == 9 {
        '9'
    } else if n == 10 {
        'a'
    } else if n == 11 {
        'b'
    } else if n == 12 {
        'c'
    } else if n == 13 {
        'd'
    } else if n == 14 {
        'e'
    } else {
        'f'
    }
}

/// Lowercase hexadecimal rendering of a byte sequence, high nibble first.
pub open spec fn spec_hex_of(bytes: Seq<u8>) -> Seq<char>
    decreases bytes.len(),
{
    if bytes.len() == 0 {
        Seq::empty()
    } else {
        seq![
            spec_hex_digit(bytes[0] as int / 16),
            spec_hex_digit(bytes[0] as int % 16),
        ] + spec_hex_of(bytes.drop_first())
    }
}

/// Relies on hex::encode: each input byte becomes two lowercase hexadecimal
/// digits, high nibble first, in input order.
#[verifier::external_body]
fn hex_encode(bytes: &Vec<u8>) -> (r: String)
    ensures
        r@ == spec_hex_of(bytes@),
{
    hex::encode(bytes)
}

/// A schema-and-query-aware content hash for the operation: an immutable
/// byte sequence, replaced whole when recomputed, never edited in place.
#[derive(Clone, Debug, Default, Hash, PartialEq, Eq)]
pub struct QueryHash(pub Vec<u8>);

impl QueryHash {
    /// The hash rendered as lowercase hexadecimal text.
    pub fn to_hex_string(&self) -> (r: String)
        ensures
            r@ == spec_hex_of(self.0@),
    {
        hex_encode(&self.0)
    }
}

// ---------------------------------------------------------------------------
// Operation representation
// ---------------------------------------------------------------------------

#[verifier::external_type_specification]
#[verifier::external_body]
pub struct ExSchema(apollo_compiler::Schema);

#[verifier::external_type_specification]
#[verifier::external_body]
pub struct ExExecutableDocument(apollo_compiler::ExecutableDocument);

#[verifier::external_type_specification]
#[verifier::external_body]
#[verifier::reject_recursive_types(T)]
pub struct ExValid<T>(apollo_compiler::validation::Valid<T>);

/// The structured form of an operation could not be obtained from its text.
#[derive(Debug)]
pub struct OperationParseError {
    pub message: String,
}

/// Relies on apollo_compiler::ExecutableDocument::parse_and_validate: parses
/// the operation text and validates it against the schema, yielding a
/// validated document or the validation errors rendered as text.
#[verifier::external_body]
fn parse_document(
    schema: &apollo_compiler::validation::Valid<apollo_compiler::Schema>,
    text: &str,
) -> (r: Result<
    Arc<apollo_compiler::validation::Valid<apollo_compiler::ExecutableDocument>>,
    OperationParseError,
>) {
    match apollo_compiler::ExecutableDocument::parse_and_validate(
        schema,
        text,
        "operation.graphql",
    ) {
        Ok(doc) => Ok(Arc::new(doc)),
        Err(e) => Err(OperationParseError { message: e.to_string() }),
    }
}

/// Relies on apollo_compiler::ExecutableDocument's Display impl (reached
/// through Valid and Arc): serialises the document back to operation text.
#[verifier::external_body]
fn document_text(
    doc: &Arc<apollo_compiler::validation::Valid<apollo_compiler::ExecutableDocument>>,
) -> (r: String) {
    doc.to_string()
}

/// What str::replace returns: the text with every non-overlapping occurrence
/// of `from`, scanned left to right, replaced by `to`.  The result depends on
/// the three texts alone.
pub uninterp spec fn spec_replaced(s: Seq<char>, from: Seq<char>, to: Seq<char>) -> Seq<char>;

/// Relies on str::replace: see `spec_replaced`.
#[verifier::external_body]
fn str_replace(s: &String, from: &str, to: &str) -> (r: String)
    ensures
        r@ == spec_replaced(s@, from@, to@),
{
    s.replace(from, to)
}

/// An operation held in two equivalent forms — printable text and validated
/// structured document — each computed from the other on first demand and
/// then kept; at least one form is always present.
#[derive(Debug)]
pub struct SubgraphOperation {
    serialized: Option<String>,
    parsed: Option<Arc<apollo_compiler::validation::Valid<apollo_compiler::ExecutableDocument>>>,
}

impl SubgraphOperation {
    /// At least one of the two forms is initialized.
    pub closed spec fn wf(self) -> bool {
        self.serialized is Some || self.parsed is Some
    }

    /// The text form, when present.
    pub closed spec fn spec_serialized(self) -> Option<Seq<char>> {
        match self.serialized {
            Some(s) => Some(s@),
            None => None,
        }
    }

    /// The structured form, when present.
    pub closed spec fn spec_parsed(self) -> Option<
        Arc<apollo_compiler::validation::Valid<apollo_compiler::ExecutableDocument>>,
    > {
        self.parsed
    }

    pub fn from_string(serialized: String) -> (r: Self)
        ensures
            r.wf(),
            r.spec_serialized() == Some(serialized@),
            r.spec_parsed() is None,
    {
        SubgraphOperation { serialized: Some(serialized), parsed: None }
    }

    pub fn from_parsed(
        parsed: Arc<apollo_compiler::validation::Valid<apollo_compiler::ExecutableDocument>>,
    ) -> (r: Self)
        ensures
            r.wf(),
            r.spec_serialized() is None,
            r.spec_parsed() == Some(parsed),
    {
        SubgraphOperation { serialized: None, parsed: Some(parsed) }
    }

    /// The printable text, computed from the structured form on first demand
    /// and cached; later calls return the cached text unchanged.
    pub fn as_serialized(&mut self) -> (r: String)
        requires
            old(self).wf(),
        ensures
            final(self).wf(),
            final(self).spec_serialized() is Some,
            final(self).spec_parsed() == old(self).spec_parsed(),
            r@ == final(self).spec_serialized()->0,
            old(self).spec_serialized() is Some ==> *final(self) == *old(self),
    {
        match &self.serialized {
            Some(s) => s.clone(),
            None => {
                let text = match &self.parsed {
                    Some(doc) => document_text(doc),
                    None => String::new(),  // unreachable under wf
                };
                self.serialized = Some(text.clone());
                text
            },
        }
    }

    /// The structured form, parsed from the text on first demand and cached;
    /// a text that does not validate against the schema is reported as an
    /// error rather than cached.
    pub fn ensure_parsed(
        &mut self,
        schema: &apollo_compiler::validation::Valid<apollo_compiler::Schema>,
    ) -> (r: Result<(), OperationParseError>)
        requires
            old(self).wf(),
        ensures
            final(self).wf(),
            final(self).spec_serialized() == old(self).spec_serialized(),
            r is Ok ==> final(self).spec_parsed() is Some,
            old(self).spec_parsed() is Some ==> r is Ok && *final(self) == *old(self),
            r is Err ==> *final(self) == *old(self),
    {
        if self.parsed.is_some() {
            return Ok(());
        }
        let text = match &self.serialized {
            Some(s) => s.clone(),
            None => String::new(),  // unreachable under wf
        };
        match parse_document(schema, text.as_str()) {
            Ok(doc) => {
                self.parsed = Some(doc);
                Ok(())
            },
            Err(e) => Err(e),
        }
    }

    /// The cached structured form, when present.
    pub fn parsed_doc(&self) -> (r: Option<
        &Arc<apollo_compiler::validation::Valid<apollo_compiler::ExecutableDocument>>,
    >)
        ensures
            r is Some <==> self.spec_parsed() is Some,
            (r matches Some(d) ==> Some(*d) == self.spec_parsed()),
    {
        self.parsed.as_ref()
    }

    /// A fresh operation whose text is this one's with every occurrence of
    /// `from` substituted by `to`; substitution happens on the printable form
    /// only, so any cached structured form is dropped, not carried over.
    /// An operation holding no text yet substitutes into the empty text.
    pub fn replace(&self, from: &str, to: &str) -> (r: Self)
        ensures
            r.wf(),
            r.spec_parsed() is None,
            self.spec_serialized() is Some ==> r.spec_serialized() == Some(
                spec_replaced(self.spec_serialized()->0, from@, to@),
            ),
            self.spec_serialized() is None ==> r.spec_serialized() == Some(Seq::<char>::empty()),
    {
        match &self.serialized {
            Some(s) => SubgraphOperation {
                serialized: Some(str_replace(s, from, to)),
                parsed: None,
            },
            None => SubgraphOperation { serialized: Some(String::new()), parsed: None },
        }
    }

    /// A copy sharing the structured form and duplicating the text.
    pub fn duplicate(&self) -> (r: Self)
        ensures
            r.spec_serialized() == self.spec_serialized(),
            r.spec_parsed() == self.spec_parsed(),
            r.wf() == self.wf(),
    {
        SubgraphOperation {
            serialized: match &self.serialized {
                Some(s) => Some(s.clone()),
                None => None,
            },
            parsed: match &self.parsed {
                Some(d) => Some(arc_clone(d)),
                None => None,
            },
        }
    }
}

/// Relies on Arc::clone: a second handle to the same shared document.
#[verifier::external_body]
fn arc_clone(
    d: &Arc<apollo_compiler::validation::Valid<apollo_compiler::ExecutableDocument>>,
) -> (r: Arc<apollo_compiler::validation::Valid<apollo_compiler::ExecutableDocument>>)
    ensures
        r == *d,
{
    Arc::clone(d)
}

} // verus!
