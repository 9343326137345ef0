//! The lexicon: loading a document, linking the entries into a graph, and
//! read-only lookups.
use vstd::prelude::*;

use crate::keyed::Keyed;
use crate::lexicon_laws::{
    lemma_only_root_lacks_primary, lemma_primary_links_are_mutual,
    lemma_secondary_links_are_mutual, only_root_unlinked, primary_links_mutual,
    secondary_links_mutual,
};
use crate::parser_callback::{
    entry_map_views, initial_model, lemgram_id_map_views, lemgram_map_views, string_map_views,
    string_set_map_views, ParseModel, SaldoParserCallback,
};
use crate::saldo_entry::{EntryView, SaldoEntry, SaldoId};
use crate::saldo_lemgram::{LemgramView, SaldoLemgram, SaldoLemgramId};
use crate::text::{str_eq, strings_view};
use crate::xml_reader::{
    feed_events, handle_events, xml_events_of, ContentHandler, ReadError, XmlEvent, XmlReader,
};

verus! {

/// The reserved identifier of the root of the family hierarchy.
pub const PRIM: &'static str = "PRIM..1";

/// Why a lexicon could not be loaded.
#[derive(Debug, Clone)]
pub enum SaldoLexiconError {
    /// A record other than the root has no primary reference.
    NoMfidForEntry(SaldoId),
    /// A primary or secondary reference names no entry.
    NoSuchMfid(String),
    /// The input could not be opened.
    FailedToOpenFile { path: String },
    /// The input is marked compressed but does not decompress.
    FailedToDecompress,
    /// The markup is not well-formed, or an element is out of place.
    MalformedDocument,
    /// A record was closed without an identifier.
    MissingEntryId,
    /// A word form was closed without its identifier.
    MissingLemgramId,
    /// A word form was closed without its part of speech.
    MissingPartOfSpeech(SaldoLemgramId),
    /// A new word form was closed without its written form.
    MissingWrittenForm(SaldoLemgramId),
    /// A record declared a second identifier; the first one is given.
    DuplicateIdentity(SaldoId),
    /// A record declared a second primary reference.
    DuplicatePrimaryReference(SaldoId),
    /// A shared word form was declared again with another part of speech.
    IncompatiblePartOfSpeech(SaldoLemgramId),
}

/// A load error, with identifiers as character sequences.
pub enum LexiconFailure {
    NoMfidForEntry(Seq<char>),
    NoSuchMfid(Seq<char>),
    FailedToOpenFile(Seq<char>),
    FailedToDecompress,
    MalformedDocument,
    MissingEntryId,
    MissingLemgramId,
    MissingPartOfSpeech(Seq<char>),
    MissingWrittenForm(Seq<char>),
    DuplicateIdentity(Seq<char>),
    DuplicatePrimaryReference(Seq<char>),
    IncompatiblePartOfSpeech(Seq<char>),
}

impl View for SaldoLexiconError {
    type V = LexiconFailure;

    open spec fn view(&self) -> LexiconFailure {
        match self {
            SaldoLexiconError::NoMfidForEntry(i) => LexiconFailure::NoMfidForEntry(i@),
            SaldoLexiconError::NoSuchMfid(i) => LexiconFailure::NoSuchMfid(i@),
            SaldoLexiconError::FailedToOpenFile { path } => LexiconFailure::FailedToOpenFile(path@),
            SaldoLexiconError::FailedToDecompress => LexiconFailure::FailedToDecompress,
            SaldoLexiconError::MalformedDocument => LexiconFailure::MalformedDocument,
            SaldoLexiconError::MissingEntryId => LexiconFailure::MissingEntryId,
            SaldoLexiconError::MissingLemgramId => LexiconFailure::MissingLemgramId,
            SaldoLexiconError::MissingPartOfSpeech(i) => LexiconFailure::MissingPartOfSpeech(i@),
            SaldoLexiconError::MissingWrittenForm(i) => LexiconFailure::MissingWrittenForm(i@),
            SaldoLexiconError::DuplicateIdentity(i) => LexiconFailure::DuplicateIdentity(i@),
            SaldoLexiconError::DuplicatePrimaryReference(i) => LexiconFailure::DuplicatePrimaryReference(
                i@,
            ),
            SaldoLexiconError::IncompatiblePartOfSpeech(i) => LexiconFailure::IncompatiblePartOfSpeech(
                i@,
            ),
        }
    }
}

/// Step 1 of linking `id`: its primary reference must name an entry, which
/// records `id` as a reverse edge; only the root may have none.
pub open spec fn link_primary(m: Map<Seq<char>, EntryView>, id: Seq<char>, mfids: Map<
    Seq<char>,
    Seq<char>,
>) -> Result<Map<Seq<char>, EntryView>, LexiconFailure> {
    if mfids.contains_key(id) {
        let t = mfids[id];
        if !m.contains_key(t) {
            Err(LexiconFailure::NoSuchMfid(t))
        } else {
            let m1 = m.insert(t, EntryView { inv_mf: m[t].inv_mf.push(id), ..m[t] });
            Ok(
                if m1.contains_key(id) {
                    m1.insert(id, EntryView { mf: Some(t), ..m1[id] })
                } else {
                    m1
                },
            )
        }
    } else if id != PRIM@ {
        Err(LexiconFailure::NoMfidForEntry(id))
    } else {
        Ok(m)
    }
}

/// Step 2 of linking `id`: each secondary reference but the root must name
/// an entry; both ends record the edge.
pub open spec fn link_secondary(m: Map<Seq<char>, EntryView>, id: Seq<char>, targets: Seq<Seq<char>>) -> Result<
    Map<Seq<char>, EntryView>,
    LexiconFailure,
>
    decreases targets.len(),
{
    if targets.len() == 0 {
        Ok(m)
    } else {
        match link_secondary(m, id, targets.drop_last()) {
            Err(e) => Err(e),
            Ok(m1) => {
                let t = targets.last();
                if t == PRIM@ {
                    Ok(m1)
                } else if !m1.contains_key(t) {
                    Err(LexiconFailure::NoSuchMfid(t))
                } else {
                    let m2 = m1.insert(t, EntryView { inv_pf: m1[t].inv_pf.push(id), ..m1[t] });
                    Ok(
                        if m2.contains_key(id) {
                            m2.insert(id, EntryView { pf: m2[id].pf.push(t), ..m2[id] })
                        } else {
                            m2
                        },
                    )
                }
            },
        }
    }
}

/// Links one entry: its primary reference, then its secondary ones.
pub open spec fn link_one(
    m: Map<Seq<char>, EntryView>,
    id: Seq<char>,
    mfids: Map<Seq<char>, Seq<char>>,
    pfids: Map<Seq<char>, Seq<Seq<char>>>,
) -> Result<Map<Seq<char>, EntryView>, LexiconFailure> {
    match link_primary(m, id, mfids) {
        Err(e) => Err(e),
        Ok(m1) => if pfids.contains_key(id) {
            link_secondary(m1, id, pfids[id])
        } else {
            Ok(m1)
        },
    }
}

/// Links the entries `ids`, in order, stopping at the first error.
pub open spec fn link(
    m: Map<Seq<char>, EntryView>,
    ids: Seq<Seq<char>>,
    mfids: Map<Seq<char>, Seq<char>>,
    pfids: Map<Seq<char>, Seq<Seq<char>>>,
) -> Result<Map<Seq<char>, EntryView>, LexiconFailure>
    decreases ids.len(),
{
    if ids.len() == 0 {
        Ok(m)
    } else {
        match link(m, ids.drop_last(), mfids, pfids) {
            Err(e) => Err(e),
            Ok(m1) => link_one(m1, ids.last(), mfids, pfids),
        }
    }
}

/// What a lexicon holds, with strings as character sequences.
pub struct LexiconView {
    pub entries: Map<Seq<char>, EntryView>,
    pub lemgrams: Map<Seq<char>, LemgramView>,
    pub lemgrams_by_lemma: Map<Seq<char>, Seq<char>>,
}

/// The lexicon that a finished parse links into, or the linking error.
pub open spec fn assemble(p: ParseModel) -> Result<LexiconView, LexiconFailure> {
    match link(p.entries, p.all_entries, p.mfids, p.pfids) {
        Ok(entries) => Ok(
            LexiconView {
                entries,
                lemgrams: p.lemgrams,
                lemgrams_by_lemma: p.lemgrams_by_lemma,
            },
        ),
        Err(e) => Err(e),
    }
}

/// The lexicon that a sequence of element events describes, or the error.
pub open spec fn document_lexicon(events: Seq<XmlEvent>) -> Result<LexiconView, LexiconFailure> {
    match handle_events::<SaldoParserCallback>(initial_model(), events) {
        Ok(p) => assemble(p),
        Err(e) => Err(e),
    }
}


fn link_primary_exec(entries: &mut Keyed<SaldoEntry>, id: &SaldoId, mfids: &Keyed<String>) -> (r: Result<
    (),
    SaldoLexiconError,
>)
    requires
        old(entries).wf(),
        mfids.wf(),
    ensures
        match link_primary(entry_map_views(*old(entries)), id@, string_map_views(*mfids)) {
            Ok(m) => r is Ok && final(entries).wf() && entry_map_views(*final(entries)) == m,
            Err(e) => r is Err && r->Err_0@ == e,
        },
{
    let ghost m = entry_map_views(*entries);
    match mfids.get(id.as_str()) {
        Some(t) => {
            match entries.slot(t.as_str()) {
                None => {
                    return Err(SaldoLexiconError::NoSuchMfid(t.clone()));
                },
                Some(j) => {
                    let ghost before = *entries;
                    entries.slots[j].add_inv_mf(id.duplicate());
                    proof {
                        Keyed::lemma_slot_update(before, *entries, t@, entries.slots@[j as int]);
                        assert(entry_map_views(*entries) =~= m.insert(
                            t@,
                            EntryView { inv_mf: m[t@].inv_mf.push(id@), ..m[t@] },
                        ));
                    }
                },
            }
            let ghost m1 = entry_map_views(*entries);
            match entries.slot(id.as_str()) {
                Some(k) => {
                    let ghost before = *entries;
                    entries.slots[k].set_mf(SaldoId::new(t.clone()));
                    proof {
                        Keyed::lemma_slot_update(before, *entries, id@, entries.slots@[k as int]);
                        assert(entry_map_views(*entries) =~= m1.insert(
                            id@,
                            EntryView { mf: Some(t@), ..m1[id@] },
                        ));
                    }
                },
                None => {},
            }
            Ok(())
        },
        None => {
            if !str_eq(id.as_str(), PRIM) {
                return Err(SaldoLexiconError::NoMfidForEntry(id.duplicate()));
            }
            Ok(())
        },
    }
}

fn link_secondary_exec(entries: &mut Keyed<SaldoEntry>, id: &SaldoId, targets: &Vec<String>) -> (r: Result<
    (),
    SaldoLexiconError,
>)
    requires
        old(entries).wf(),
    ensures
        match link_secondary(entry_map_views(*old(entries)), id@, strings_view(targets@)) {
            Ok(m) => r is Ok && final(entries).wf() && entry_map_views(*final(entries)) == m,
            Err(e) => r is Err && r->Err_0@ == e,
        },
{
    let ghost m0 = entry_map_views(*entries);
    let mut i: usize = 0;
    while i < targets.len()
        invariant
            0 <= i <= targets@.len(),
            m0 == entry_map_views(*old(entries)),
            entries.wf(),
            link_secondary(m0, id@, strings_view(targets@).subrange(0, i as int)) == Ok::<
                Map<Seq<char>, EntryView>,
                LexiconFailure,
            >(entry_map_views(*entries)),
        decreases targets@.len() - i,
    {
        let ghost m1 = entry_map_views(*entries);
        assert(strings_view(targets@).subrange(0, i + 1).drop_last() == strings_view(targets@).subrange(0, i as int));
        let t = &targets[i];
        assert(strings_view(targets@).subrange(0, i + 1).last() == t@);
        if !str_eq(t.as_str(), PRIM) {
            match entries.slot(t.as_str()) {
                None => {
                    proof {
                        let sv = strings_view(targets@);
                        assert(sv.subrange(0, i + 1).last() == t@);
                        assert(link_secondary(m0, id@, sv.subrange(0, i + 1)) == Err::<
                            Map<Seq<char>, EntryView>,
                            LexiconFailure,
                        >(LexiconFailure::NoSuchMfid(t@)));
                        lemma_secondary_error_persists(m0, id@, sv, i + 1);
                    }
                    return Err(SaldoLexiconError::NoSuchMfid(t.clone()));
                },
                Some(j) => {
                    let ghost before = *entries;
                    entries.slots[j].add_inv_pf(id.duplicate());
                    proof {
                        Keyed::lemma_slot_update(before, *entries, t@, entries.slots@[j as int]);
                        assert(entry_map_views(*entries) =~= m1.insert(
                            t@,
                            EntryView { inv_pf: m1[t@].inv_pf.push(id@), ..m1[t@] },
                        ));
                    }
                },
            }
            let ghost m2 = entry_map_views(*entries);
            match entries.slot(id.as_str()) {
                Some(k) => {
                    let ghost before = *entries;
                    entries.slots[k].add_pf(SaldoId::new(t.clone()));
                    proof {
                        Keyed::lemma_slot_update(before, *entries, id@, entries.slots@[k as int]);
                        assert(entry_map_views(*entries) =~= m2.insert(
                            id@,
                            EntryView { pf: m2[id@].pf.push(t@), ..m2[id@] },
                        ));
                    }
                },
                None => {},
            }
        }
        i = i + 1;
    }
    assert(strings_view(targets@).subrange(0, targets@.len() as int) == strings_view(targets@));
    Ok(())
}

/// Once linking some of the secondary references fails, linking all of them
/// fails the same way.
proof fn lemma_secondary_error_persists(
    m: Map<Seq<char>, EntryView>,
    id: Seq<char>,
    targets: Seq<Seq<char>>,
    n: int,
)
    requires
        0 <= n <= targets.len(),
        link_secondary(m, id, targets.subrange(0, n)) is Err,
    ensures
        link_secondary(m, id, targets) == link_secondary(m, id, targets.subrange(0, n)),
    decreases targets.len(),
{
    if n < targets.len() {
        assert(targets.drop_last().subrange(0, n) == targets.subrange(0, n));
        lemma_secondary_error_persists(m, id, targets.drop_last(), n);
    } else {
        assert(targets.subrange(0, n) == targets);
    }
}

/// Once linking some of the entries fails, linking all of them fails the same way.
proof fn lemma_link_error_persists(
    m: Map<Seq<char>, EntryView>,
    ids: Seq<Seq<char>>,
    mfids: Map<Seq<char>, Seq<char>>,
    pfids: Map<Seq<char>, Seq<Seq<char>>>,
    n: int,
)
    requires
        0 <= n <= ids.len(),
        link(m, ids.subrange(0, n), mfids, pfids) is Err,
    ensures
        link(m, ids, mfids, pfids) == link(m, ids.subrange(0, n), mfids, pfids),
    decreases ids.len(),
{
    if n < ids.len() {
        assert(ids.drop_last().subrange(0, n) == ids.subrange(0, n));
        lemma_link_error_persists(m, ids.drop_last(), mfids, pfids, n);
    } else {
        assert(ids.subrange(0, n) == ids);
    }
}

/// What decompressing a gzip stream gives: its data, or `None` when the bytes
/// are not a valid stream.
pub uninterp spec fn gunzip_of(b: Seq<u8>) -> Option<Seq<u8>>;

/// Relies on flate2::read::GzDecoder, read to its end: the data of the gzip
/// stream in `bytes`, or `None` when it does not decode.
#[verifier::external_body]
fn gunzip(bytes: &[u8]) -> (r: Option<Vec<u8>>)
    ensures
        r is Some <==> gunzip_of(bytes@) is Some,
        r is Some ==> r->0@ == gunzip_of(bytes@)->0,
{
    let mut out = Vec::new();
    match std::io::Read::read_to_end(&mut flate2::read::GzDecoder::new(bytes), &mut out) {
        Ok(_) => Some(out),
        Err(_) => None,
    }
}

/// The lexicon of a document's bytes, or the error: `MalformedDocument`
/// when its markup is not well-formed.
pub open spec fn document_outcome(d: Seq<u8>) -> Result<LexiconView, LexiconFailure> {
    match xml_events_of(d) {
        None => Err(LexiconFailure::MalformedDocument),
        Some(evs) => document_lexicon(evs),
    }
}

/// The bytes of the document that a source holds: the source itself, or its
/// decompressed data when it is gzip-compressed.
pub open spec fn source_document(source: Seq<u8>, gzipped: bool) -> Option<Seq<u8>> {
    if gzipped {
        gunzip_of(source)
    } else {
        Some(source)
    }
}

/// The lexicon of a source, or the error.
pub open spec fn source_outcome(source: Seq<u8>, gzipped: bool) -> Result<LexiconView, LexiconFailure> {
    match source_document(source, gzipped) {
        None => Err(LexiconFailure::FailedToDecompress),
        Some(d) => document_outcome(d),
    }
}

/// The linked lexicon: entries by identifier, word forms by identifier, and
/// word forms by written form. It is never changed once built.
#[derive(Debug)]
pub struct SaldoLexicon {
    entries: Keyed<SaldoEntry>,
    lemgrams: Keyed<SaldoLemgram>,
    lemgrams_by_lemma: Keyed<SaldoLemgramId>,
}

impl View for SaldoLexicon {
    type V = LexiconView;

    closed spec fn view(&self) -> LexiconView {
        LexiconView {
            entries: entry_map_views(self.entries),
            lemgrams: lemgram_map_views(self.lemgrams),
            lemgrams_by_lemma: lemgram_id_map_views(self.lemgrams_by_lemma),
        }
    }
}

impl SaldoLexicon {
    /// The lexicon's internal invariant.
    pub closed spec fn wf(&self) -> bool {
        self.entries.wf() && self.lemgrams.wf() && self.lemgrams_by_lemma.wf()
    }

    /// The graph assembler: links the collections of a finished parse.
    fn assemble(callback: SaldoParserCallback) -> (r: Result<SaldoLexicon, SaldoLexiconError>)
        requires
            callback.inv(),
        ensures
            match assemble(callback.model()) {
                Ok(v) => r is Ok && r->Ok_0.wf() && r->Ok_0@ == v,
                Err(e) => r is Err && r->Err_0@ == e,
            },
    {
        proof {
            callback.reveal_model();
        }
        let ghost p = callback.model();
        let SaldoParserCallback { all_entries, mut entries, mfids, pfids, lemgrams, lemgrams_by_lemma, .. } =
            callback;
        let ghost ids = p.all_entries;
        let mut i: usize = 0;
        while i < all_entries.len()
            invariant
                0 <= i <= all_entries@.len(),
                ids == p.all_entries,
                p == callback.model(),
                ids == crate::saldo_entry::id_views(all_entries@),
                entries.wf(),
                mfids.wf(),
                pfids.wf(),
                p.mfids == string_map_views(mfids),
                p.pfids == string_set_map_views(pfids),
                link(p.entries, ids.subrange(0, i as int), p.mfids, p.pfids) == Ok::<
                    Map<Seq<char>, EntryView>,
                    LexiconFailure,
                >(entry_map_views(entries)),
            decreases all_entries@.len() - i,
        {
            let id = &all_entries[i];
            assert(ids.subrange(0, i + 1).drop_last() == ids.subrange(0, i as int));
            assert(ids.subrange(0, i + 1).last() == id@);
            let r1 = link_primary_exec(&mut entries, id, &mfids);
            match r1 {
                Err(e) => {
                    proof {
                        assert(link(p.entries, ids.subrange(0, i + 1), p.mfids, p.pfids) == Err::<
                            Map<Seq<char>, EntryView>,
                            LexiconFailure,
                        >(e@));
                        lemma_link_error_persists(p.entries, ids, p.mfids, p.pfids, i + 1);
                        assert(assemble(p) == Err::<LexiconView, LexiconFailure>(e@));
                    }
                    return Err(e);
                },
                Ok(()) => {},
            }
            match pfids.get(id.as_str()) {
                Some(targets) => {
                    let r2 = link_secondary_exec(&mut entries, id, targets);
                    match r2 {
                        Err(e) => {
                            proof {
                                assert(link(p.entries, ids.subrange(0, i + 1), p.mfids, p.pfids) == Err::<
                                    Map<Seq<char>, EntryView>,
                                    LexiconFailure,
                                >(e@));
                                lemma_link_error_persists(p.entries, ids, p.mfids, p.pfids, i + 1);
                                assert(assemble(p) == Err::<LexiconView, LexiconFailure>(e@));
                            }
                            return Err(e);
                        },
                        Ok(()) => {},
                    }
                },
                None => {},
            }
            i = i + 1;
        }
        assert(ids.subrange(0, all_entries@.len() as int) == ids);
        let r = SaldoLexicon { entries, lemgrams, lemgrams_by_lemma };
        Ok(r)
    }

    /// Loads the lexicon that a sequence of element events describes.
    pub fn from_events(events: &Vec<XmlEvent>) -> (r: Result<SaldoLexicon, SaldoLexiconError>)
        ensures
            match document_lexicon(events@) {
                Ok(v) => r is Ok && r->Ok_0.wf() && r->Ok_0@ == v,
                Err(e) => r is Err && r->Err_0@ == e,
            },
    {
        let mut callback = SaldoParserCallback::new();
        match feed_events(&mut callback, events) {
            Err(e) => Err(e),
            Ok(()) => SaldoLexicon::assemble(callback),
        }
    }

    /// Loads the lexicon of a markup document: the lexicon of its element
    /// events, or `MalformedDocument` when its markup is not well-formed.
    pub fn from_document(document: &[u8]) -> (r: Result<SaldoLexicon, SaldoLexiconError>)
        ensures
            match document_outcome(document@) {
                Ok(v) => r is Ok && r->Ok_0.wf() && r->Ok_0@ == v,
                Err(e) => r is Err && r->Err_0@ == e,
            },
            r is Ok ==> primary_links_mutual(r->Ok_0@.entries) && secondary_links_mutual(
                r->Ok_0@.entries,
            ) && only_root_unlinked(r->Ok_0@.entries),
    {
        let callback = SaldoParserCallback::new();
        let mut reader = XmlReader::new(document, callback);
        match reader.parse() {
            Err(ReadError::Markup) => Err(SaldoLexiconError::MalformedDocument),
            Err(ReadError::Handler(e)) => Err(e),
            Ok(()) => {
                let callback = reader.into_inner();
                let r = SaldoLexicon::assemble(callback);
                proof {
                    let evs = xml_events_of(document@)->0;
                    if r is Ok {
                        lemma_primary_links_are_mutual(evs);
                        lemma_secondary_links_are_mutual(evs);
                        lemma_only_root_lacks_primary(evs);
                    }
                }
                r
            },
        }
    }

    /// Loads the lexicon of a document, which is gzip-compressed when
    /// `gzipped`: `FailedToDecompress` when it does not decompress, else as
    /// `from_document` on the document's bytes.
    pub fn new(source: &[u8], gzipped: bool) -> (r: Result<SaldoLexicon, SaldoLexiconError>)
        ensures
            match source_outcome(source@, gzipped) {
                Ok(v) => r is Ok && r->Ok_0.wf() && r->Ok_0@ == v,
                Err(e) => r is Err && r->Err_0@ == e,
            },
            r is Ok ==> primary_links_mutual(r->Ok_0@.entries) && secondary_links_mutual(
                r->Ok_0@.entries,
            ) && only_root_unlinked(r->Ok_0@.entries),
    {
        if gzipped {
            match gunzip(source) {
                None => Err(SaldoLexiconError::FailedToDecompress),
                Some(document) => SaldoLexicon::from_document(document.as_slice()),
            }
        } else {
            SaldoLexicon::from_document(source)
        }
    }

    /// The entry `id`, if the lexicon holds it.
    pub fn get(&self, id: &str) -> (r: Option<&SaldoEntry>)
        requires
            self.wf(),
        ensures
            r is Some <==> self@.entries.contains_key(id@),
            r is Some ==> r->0@ == self@.entries[id@],
    {
        self.entries.get(id)
    }

    /// The word form `id`, if the lexicon holds it.
    pub fn get_lemgram(&self, id: &str) -> (r: Option<&SaldoLemgram>)
        requires
            self.wf(),
        ensures
            r is Some <==> self@.lemgrams.contains_key(id@),
            r is Some ==> r->0@ == self@.lemgrams[id@],
    {
        self.lemgrams.get(id)
    }

    /// The word form first registered under the written form `wf`, if any.
    pub fn lemgram_by_written_form(&self, wf: &str) -> (r: Option<&SaldoLemgramId>)
        requires
            self.wf(),
        ensures
            r is Some <==> self@.lemgrams_by_lemma.contains_key(wf@),
            r is Some ==> r->0@ == self@.lemgrams_by_lemma[wf@],
    {
        self.lemgrams_by_lemma.get(wf)
    }
}

} // verus!
