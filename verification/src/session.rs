//! The documents that an editor has open, and what it shows for each.
//!
//! A `Session` records the latest text of every document and the set of
//! diagnostics that was last published for it. A notification replaces the text
//! and hands out a `Reparse`: the order to run the front end on that text. When
//! the run has ended the order comes back with its outcome, and the session
//! decides whether the result is published. It is published only while the text
//! that was parsed is still the latest text of the document, so a result that a
//! later notification has overtaken never reaches the editor.

use crate::diagnostic::{record_views, DiagnosticRecord, DiagnosticView};
use crate::pipeline::{diagnostics_for, diagnostics_of, OutcomeView, ParseOutcome};
use vstd::prelude::*;
use vstd::utf8::encode_utf8;

verus! {

/// An order to run the front end on one revision of one document.
#[derive(Clone, Debug, PartialEq, Eq)]
pub struct Reparse {
    pub uri: String,
    pub text: String,
}

/// A set of diagnostics on its way to the editor. It replaces whatever the editor
/// shows for the document, so an empty set clears the display.
#[derive(Clone, Debug, PartialEq, Eq)]
pub struct Publication {
    pub uri: String,
    pub diagnostics: Vec<DiagnosticRecord>,
}

/// Mathematical value of a `Publication`.
pub struct PublicationView {
    pub uri: Seq<char>,
    pub diagnostics: Seq<DiagnosticView>,
}

impl View for Publication {
    type V = PublicationView;

    open spec fn view(&self) -> PublicationView {
        PublicationView { uri: self.uri@, diagnostics: record_views(self.diagnostics@) }
    }
}

/// What a session knows of one document.
pub struct DocumentView {
    /// The latest text.
    pub text: Seq<char>,
    /// The diagnostics that were last published, which the editor shows.
    pub shown: Seq<DiagnosticView>,
}

/// What a session knows of all documents, by URI.
pub type SessionView = Map<Seq<char>, DocumentView>;

/// The diagnostics that the editor shows for `uri`: those last published, or none
/// where nothing was published yet.
pub open spec fn shown_in(session: SessionView, uri: Seq<char>) -> Seq<DiagnosticView> {
    if session.dom().contains(uri) {
        session[uri].shown
    } else {
        Seq::empty()
    }
}

/// The session after a notification that `uri` now holds `text`. The text is
/// replaced as a whole; what the editor shows stays until the next publication.
pub open spec fn notified(session: SessionView, uri: Seq<char>, text: Seq<char>) -> SessionView {
    session.insert(uri, DocumentView { text, shown: shown_in(session, uri) })
}

/// `text` is the latest text of `uri`.
pub open spec fn is_latest(session: SessionView, uri: Seq<char>, text: Seq<char>) -> bool {
    session.dom().contains(uri) && session[uri].text == text
}

/// What is sent to the editor when the reparse of `text` for `uri` has ended in
/// `outcome`: the full set of diagnostics for that text if it is still the latest,
/// and nothing if it is not.
pub open spec fn publication_for(
    session: SessionView,
    uri: Seq<char>,
    text: Seq<char>,
    outcome: OutcomeView,
) -> Option<PublicationView> {
    if is_latest(session, uri, text) {
        Some(PublicationView { uri, diagnostics: diagnostics_of(outcome, encode_utf8(text)) })
    } else {
        None
    }
}

/// The session after the reparse of `text` for `uri` has ended in `outcome`: what
/// was published is what the editor now shows.
pub open spec fn finished(
    session: SessionView,
    uri: Seq<char>,
    text: Seq<char>,
    outcome: OutcomeView,
) -> SessionView {
    match publication_for(session, uri, text, outcome) {
        Some(publication) => session.insert(
            uri,
            DocumentView { text, shown: publication.diagnostics },
        ),
        None => session,
    }
}

/// A reparse that succeeds on the latest text of a document is published, and
/// what is published is the empty set: whatever the editor showed for the
/// document before, it shows nothing afterwards.
pub proof fn lemma_success_clears(session: SessionView, uri: Seq<char>, text: Seq<char>)
    requires
        is_latest(session, uri, text),
    ensures
        publication_for(session, uri, text, OutcomeView::Success) == Some(
            PublicationView { uri, diagnostics: Seq::empty() },
        ),
        shown_in(finished(session, uri, text, OutcomeView::Success), uri) == Seq::<
            DiagnosticView,
        >::empty(),
        is_latest(finished(session, uri, text, OutcomeView::Success), uri, text),
{
    assert(diagnostics_of(OutcomeView::Success, encode_utf8(text)) =~= Seq::<
        DiagnosticView,
    >::empty());
}

/// Of two notifications for one document, only the later one leads to a
/// publication. The reparse of the earlier text publishes nothing and leaves the
/// session as it is, whether it ends before or after the reparse of the later
/// text; the reparse of the later text is published in full, and is what the
/// editor shows in the end.
pub proof fn lemma_overtaken_reparse_is_dropped(
    session: SessionView,
    uri: Seq<char>,
    earlier: Seq<char>,
    later: Seq<char>,
    stale: OutcomeView,
    fresh: OutcomeView,
)
    requires
        earlier != later,
    ensures
        ({
            let both = notified(notified(session, uri, earlier), uri, later);
            let settled = finished(both, uri, later, fresh);
            &&& publication_for(both, uri, earlier, stale) is None
            &&& finished(both, uri, earlier, stale) == both
            &&& publication_for(settled, uri, earlier, stale) is None
            &&& finished(settled, uri, earlier, stale) == settled
            &&& publication_for(both, uri, later, fresh) == Some(
                PublicationView { uri, diagnostics: diagnostics_of(fresh, encode_utf8(later)) },
            )
            &&& shown_in(settled, uri) == diagnostics_of(fresh, encode_utf8(later))
        }),
{
}

/// A notification replaces the text of its document as a whole and touches no
/// other document; what the editor shows stays as it was.
pub proof fn lemma_notification_replaces_text(
    session: SessionView,
    uri: Seq<char>,
    text: Seq<char>,
    other: Seq<char>,
)
    ensures
        is_latest(notified(session, uri, text), uri, text),
        shown_in(notified(session, uri, text), uri) == shown_in(session, uri),
        other != uri ==> notified(session, uri, text).dom().contains(other)
            == session.dom().contains(other),
        other != uri && session.dom().contains(other) ==> notified(session, uri, text)[other]
            == session[other],
{
}

/// One entry of a session: a document, its latest text, and what was last
/// published for it.
struct Document {
    uri: String,
    text: String,
    shown: Vec<DiagnosticRecord>,
}

impl Document {
    /// What the entry says of its document.
    spec fn value(self) -> DocumentView {
        DocumentView { text: self.text@, shown: record_views(self.shown@) }
    }
}

/// Some entry of the list is for `uri`.
spec fn holds(documents: Seq<Document>, uri: Seq<char>) -> bool {
    exists|i: int| 0 <= i < documents.len() && (#[trigger] documents[i]).uri@ == uri
}

/// The index of the entry for `uri`.
spec fn slot(documents: Seq<Document>, uri: Seq<char>) -> int {
    choose|i: int| 0 <= i < documents.len() && (#[trigger] documents[i]).uri@ == uri
}

/// No two entries of the list are for the same document.
spec fn distinct(documents: Seq<Document>) -> bool {
    forall|i: int, j: int|
        0 <= i < j < documents.len() ==> (#[trigger] documents[i]).uri@ != (
        #[trigger] documents[j]).uri@
}

/// The list of entries, read as a map from URIs to documents.
spec fn model(documents: Seq<Document>) -> SessionView {
    Map::new(
        |uri: Seq<char>| holds(documents, uri),
        |uri: Seq<char>| documents[slot(documents, uri)].value(),
    )
}

/// Appending an entry for a document that the list does not hold adds that
/// document to the map.
proof fn lemma_model_push(documents: Seq<Document>, document: Document)
    requires
        distinct(documents),
        !holds(documents, document.uri@),
    ensures
        distinct(documents.push(document)),
        model(documents.push(document)) == model(documents).insert(
            document.uri@,
            document.value(),
        ),
{
    let longer = documents.push(document);
    assert forall|uri: Seq<char>| holds(longer, uri) <==> (holds(documents, uri) || uri
        == document.uri@) by {
        if holds(documents, uri) {
            let i = slot(documents, uri);
            assert(longer[i].uri@ == uri);
        }
        if uri == document.uri@ {
            assert(longer[documents.len() as int].uri@ == uri);
        }
        if holds(longer, uri) {
            let i = slot(longer, uri);
            if i < documents.len() {
                assert(documents[i].uri@ == uri);
            }
        }
    }
    assert forall|uri: Seq<char>| holds(longer, uri) implies #[trigger] model(longer)[uri]
        == model(documents).insert(document.uri@, document.value())[uri] by {
        let i = slot(longer, uri);
        if i < documents.len() {
            assert(documents[i].uri@ == uri);
            let k = slot(documents, uri);
            assert(longer[k].uri@ == uri);
        }
    }
    assert(model(longer) =~= model(documents).insert(document.uri@, document.value()));
}

/// Replacing an entry by another for the same document replaces that document in
/// the map.
proof fn lemma_model_update(documents: Seq<Document>, at: int, document: Document)
    requires
        distinct(documents),
        0 <= at < documents.len(),
        documents[at].uri@ == document.uri@,
    ensures
        distinct(documents.update(at, document)),
        model(documents.update(at, document)) == model(documents).insert(
            document.uri@,
            document.value(),
        ),
{
    let changed = documents.update(at, document);
    assert forall|i: int, j: int| 0 <= i < j < changed.len() implies (#[trigger] changed[i]).uri@
        != (#[trigger] changed[j]).uri@ by {
        assert(documents[i].uri@ != documents[j].uri@);
    }
    assert forall|uri: Seq<char>| holds(changed, uri) <==> holds(documents, uri) by {
        if holds(documents, uri) {
            let i = slot(documents, uri);
            assert(changed[i].uri@ == uri);
        }
        if holds(changed, uri) {
            let i = slot(changed, uri);
            assert(documents[i].uri@ == uri);
        }
    }
    assert(holds(documents, document.uri@)) by {
        assert(documents[at].uri@ == document.uri@);
    }
    assert forall|uri: Seq<char>| holds(changed, uri) implies #[trigger] model(changed)[uri]
        == model(documents).insert(document.uri@, document.value())[uri] by {
        let i = slot(changed, uri);
        let k = slot(documents, uri);
        assert(documents[i].uri@ == uri);
        if i != k {
            assert(documents[i].uri@ != documents[k].uri@);
        }
        if i != at {
            assert(documents[i].uri@ != documents[at].uri@);
        }
    }
    assert(model(changed) =~= model(documents).insert(document.uri@, document.value()));
}

/// The map holds every entry of the list under its URI.
proof fn lemma_model_lookup(documents: Seq<Document>, at: int)
    requires
        distinct(documents),
        0 <= at < documents.len(),
    ensures
        model(documents).dom().contains(documents[at].uri@),
        model(documents)[documents[at].uri@] == documents[at].value(),
{
    let uri = documents[at].uri@;
    assert(holds(documents, uri));
    let k = slot(documents, uri);
    if k != at {
        assert(documents[k].uri@ != documents[at].uri@);
    }
}

/// Copies a set of diagnostics.
fn duplicate(records: &Vec<DiagnosticRecord>) -> (copy: Vec<DiagnosticRecord>)
    ensures
        record_views(copy@) == record_views(records@),
{
    let mut copy: Vec<DiagnosticRecord> = Vec::new();
    let mut i: usize = 0;
    while i < records.len()
        invariant
            i <= records@.len(),
            copy@.len() == i,
            forall|k: int| 0 <= k < i ==> (#[trigger] copy@[k])@ == records@[k]@,
        decreases records@.len() - i,
    {
        let record = &records[i];
        copy.push(
            DiagnosticRecord {
                range: record.range,
                severity: record.severity,
                message: record.message.clone(),
            },
        );
        i = i + 1;
    }
    assert(record_views(copy@) =~= record_views(records@));
    copy
}

/// Looks for the entry of a document.
fn find(documents: &Vec<Document>, uri: &String) -> (found: Option<usize>)
    ensures
        match found {
            Some(at) => at < documents@.len() && documents@[at as int].uri@ == uri@,
            None => !holds(documents@, uri@),
        },
{
    let mut i: usize = 0;
    while i < documents.len()
        invariant
            i <= documents@.len(),
            forall|k: int| 0 <= k < i ==> (#[trigger] documents@[k]).uri@ != uri@,
        decreases documents@.len() - i,
    {
        if documents[i].uri == *uri {
            return Some(i);
        }
        i = i + 1;
    }
    None
}

/// Sets the latest text of a document, adding the document if it is new.
fn record(documents: &mut Vec<Document>, uri: String, text: String)
    requires
        distinct(old(documents)@),
    ensures
        distinct(final(documents)@),
        model(final(documents)@) == notified(model(old(documents)@), uri@, text@),
{
    match find(documents, &uri) {
        Some(at) => {
            let shown = duplicate(&documents[at].shown);
            let document = Document { uri, text, shown };
            proof {
                lemma_model_lookup(documents@, at as int);
                lemma_model_update(documents@, at as int, document);
            }
            documents.set(at, document);
        },
        None => {
            let document = Document { uri, text, shown: Vec::new() };
            proof {
                lemma_model_push(documents@, document);
                assert(record_views(document.shown@) =~= Seq::<DiagnosticView>::empty());
            }
            documents.push(document);
        },
    }
}

/// Publishes the diagnostics of a finished reparse if its text is still the
/// latest, and keeps them as what the editor shows.
fn settle(documents: &mut Vec<Document>, order: Reparse, outcome: &ParseOutcome) -> (publication:
    Option<Publication>)
    requires
        distinct(old(documents)@),
        outcome@.located_in(encode_utf8(order.text@)),
    ensures
        distinct(final(documents)@),
        model(final(documents)@) == finished(
            model(old(documents)@),
            order.uri@,
            order.text@,
            outcome@,
        ),
        match publication {
            Some(p) => publication_for(model(old(documents)@), order.uri@, order.text@, outcome@)
                == Some(p@),
            None => publication_for(model(old(documents)@), order.uri@, order.text@, outcome@)
                is None,
        },
{
    match find(documents, &order.uri) {
        Some(at) => {
            proof {
                lemma_model_lookup(documents@, at as int);
            }
            if documents[at].text == order.text {
                let diagnostics = diagnostics_for(outcome, order.text.as_str());
                let shown = duplicate(&diagnostics);
                let document = Document { uri: order.uri.clone(), text: order.text, shown };
                proof {
                    lemma_model_update(documents@, at as int, document);
                }
                documents.set(at, document);
                Some(Publication { uri: order.uri, diagnostics })
            } else {
                None
            }
        },
        None => None,
    }
}

/// The editor's open documents.
pub struct Session {
    documents: Vec<Document>,
}

impl View for Session {
    type V = SessionView;

    closed spec fn view(&self) -> SessionView {
        model(self.documents@)
    }
}

impl Session {
    #[verifier::type_invariant]
    spec fn well_formed(&self) -> bool {
        distinct(self.documents@)
    }

    /// A session in which no document is open.
    pub fn new() -> (session: Session)
        ensures
            session@ == Map::<Seq<char>, DocumentView>::empty(),
    {
        let session = Session { documents: Vec::new() };
        assert(session@ =~= Map::<Seq<char>, DocumentView>::empty());
        session
    }

    /// Takes in the notification that a document was opened with `text`.
    ///
    /// The text becomes the latest text of the document, and the order to reparse
    /// it is handed out.
    pub fn did_open(&mut self, uri: String, text: String) -> (order: Reparse)
        ensures
            final(self)@ == notified(old(self)@, uri@, text@),
            order.uri@ == uri@,
            order.text@ == text@,
    {
        proof {
            use_type_invariant(&*self);
        }
        let order = Reparse { uri: uri.clone(), text: text.clone() };
        let mut documents: Vec<Document> = Vec::new();
        core::mem::swap(&mut self.documents, &mut documents);
        record(&mut documents, uri, text);
        self.documents = documents;
        order
    }

    /// Takes in the notification that a document was changed.
    ///
    /// Each change carries a full replacement text. Only the last one counts: it
    /// becomes the latest text of the document, and the order to reparse it is
    /// handed out. A notification without any change does nothing.
    pub fn did_change(&mut self, uri: String, changes: Vec<String>) -> (order: Option<Reparse>)
        ensures
            match order {
                Some(o) => {
                    &&& changes@.len() > 0
                    &&& o.uri@ == uri@
                    &&& o.text@ == changes@.last()@
                    &&& final(self)@ == notified(old(self)@, uri@, changes@.last()@)
                },
                None => changes@.len() == 0 && final(self)@ == old(self)@,
            },
    {
        let mut changes = changes;
        match changes.pop() {
            Some(text) => Some(self.did_open(uri, text)),
            None => None,
        }
    }

    /// Takes back an order whose run of the front end has ended in `outcome`.
    ///
    /// Where the text of the order is still the latest text of its document, the
    /// full set of diagnostics for it is published, be it empty or not, and is
    /// from then on what the editor shows. Where a later notification has
    /// replaced the text, nothing is published and nothing changes.
    pub fn finish(&mut self, order: Reparse, outcome: &ParseOutcome) -> (publication: Option<
        Publication,
    >)
        requires
            outcome@.located_in(encode_utf8(order.text@)),
        ensures
            final(self)@ == finished(old(self)@, order.uri@, order.text@, outcome@),
            match publication {
                Some(p) => publication_for(old(self)@, order.uri@, order.text@, outcome@)
                    == Some(p@),
                None => publication_for(old(self)@, order.uri@, order.text@, outcome@) is None,
            },
    {
        proof {
            use_type_invariant(&*self);
        }
        let mut documents: Vec<Document> = Vec::new();
        core::mem::swap(&mut self.documents, &mut documents);
        let publication = settle(&mut documents, order, outcome);
        self.documents = documents;
        publication
    }

    /// Tells whether `text` is the latest text of the document `uri`.
    pub fn is_current(&self, uri: &String, text: &String) -> (current: bool)
        ensures
            current == is_latest(self@, uri@, text@),
    {
        proof {
            use_type_invariant(self);
        }
        match find(&self.documents, uri) {
            Some(at) => {
                proof {
                    lemma_model_lookup(self.documents@, at as int);
                }
                self.documents[at].text == *text
            },
            None => false,
        }
    }

    /// The latest text of the document `uri`, if the session knows the document.
    pub fn text_of(&self, uri: &String) -> (text: Option<&String>)
        ensures
            match text {
                Some(t) => self@.dom().contains(uri@) && t@ == self@[uri@].text,
                None => !self@.dom().contains(uri@),
            },
    {
        proof {
            use_type_invariant(self);
        }
        match find(&self.documents, uri) {
            Some(at) => {
                proof {
                    lemma_model_lookup(self.documents@, at as int);
                }
                Some(&self.documents[at].text)
            },
            None => None,
        }
    }

    /// The diagnostics that the editor shows for the document `uri`, if the
    /// session knows the document.
    pub fn shown_for(&self, uri: &String) -> (shown: Option<&Vec<DiagnosticRecord>>)
        ensures
            match shown {
                Some(records) => self@.dom().contains(uri@) && record_views(records@)
                    == self@[uri@].shown,
                None => !self@.dom().contains(uri@),
            },
    {
        proof {
            use_type_invariant(self);
        }
        match find(&self.documents, uri) {
            Some(at) => {
                proof {
                    lemma_model_lookup(self.documents@, at as int);
                }
                Some(&self.documents[at].shown)
            },
            None => None,
        }
    }
}

} // verus!
