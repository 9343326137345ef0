//! The parse state machine: reads records, relations and word forms from the
//! element events of a lexicon document.
use vstd::prelude::*;
use vstd::string::StringSliceAdditionalSpecFns;

use crate::keyed::Keyed;
use crate::saldo_entry::{fresh_entry, id_views, BuilderView, EntryView, SaldoEntry, SaldoEntryBuilder, SaldoId};
use crate::saldo_lemgram::{LemgramView, SaldoLemgram, SaldoLemgramId};
use crate::saldo_lexicon::{LexiconFailure, SaldoLexiconError};
use crate::text::{str_eq, strings_view};
use crate::xml_reader::{bytes_eq, utf8_string, utf8_text, AttributeMap, ContentHandler};

verus! {

/// The state of a parse, with strings as character sequences.
pub struct ParseModel {
    /// The record being read, if one is open.
    pub curr_entry: Option<BuilderView>,
    pub curr_pos: Option<Seq<char>>,
    pub curr_lemgram_id: Option<Seq<char>>,
    pub curr_para: Option<Seq<char>>,
    pub curr_wf: Option<Seq<char>>,
    /// The target of the relation read last, until its label classifies it.
    pub curr_relation_target: Option<Seq<char>>,
    /// The identifiers of the records read, in document order.
    pub all_entries: Seq<Seq<char>>,
    pub entries: Map<Seq<char>, EntryView>,
    /// The primary reference declared by each record.
    pub mfids: Map<Seq<char>, Seq<char>>,
    /// The secondary references declared by each record, in order, each once.
    pub pfids: Map<Seq<char>, Seq<Seq<char>>>,
    pub lemgrams: Map<Seq<char>, LemgramView>,
    /// The word form of each written form.
    pub lemgrams_by_lemma: Map<Seq<char>, Seq<char>>,
}

/// The state before any event.
pub open spec fn initial_model() -> ParseModel {
    ParseModel {
        curr_entry: None,
        curr_pos: None,
        curr_lemgram_id: None,
        curr_para: None,
        curr_wf: None,
        curr_relation_target: None,
        all_entries: Seq::empty(),
        entries: Map::empty(),
        mfids: Map::empty(),
        pfids: Map::empty(),
        lemgrams: Map::empty(),
        lemgrams_by_lemma: Map::empty(),
    }
}

/// The text of attribute `key`: `None` when it is missing or not UTF-8.
pub open spec fn attr_text(attributes: Map<Seq<u8>, Seq<u8>>, key: Seq<u8>) -> Option<Seq<char>> {
    if attributes.contains_key(key) {
        utf8_text(attributes[key])
    } else {
        None
    }
}

/// `s` with `t` appended, unless it holds `t` already.
pub open spec fn add_unique(s: Seq<Seq<char>>, t: Seq<char>) -> Seq<Seq<char>> {
    if s.contains(t) {
        s
    } else {
        s.push(t)
    }
}

/// A relation's label attribute: a primary reference is recorded once per
/// record, a secondary one joins the record's set, another label drops it.
pub open spec fn label_step(m: ParseModel, attributes: Map<Seq<u8>, Seq<u8>>) -> Result<
    ParseModel,
    LexiconFailure,
> {
    match m.curr_entry {
        None => Err(LexiconFailure::MalformedDocument),
        Some(b) => match b.id {
            None => Err(LexiconFailure::MalformedDocument),
            Some(id) => match m.curr_relation_target {
                None => Err(LexiconFailure::MalformedDocument),
                Some(t) => if !attributes.contains_key("val".spec_bytes()) {
                    Err(LexiconFailure::MalformedDocument)
                } else {
                    let val = attributes["val".spec_bytes()];
                    let m1 = ParseModel { curr_relation_target: None, ..m };
                    if val == "primary".spec_bytes() {
                        if m.mfids.contains_key(id) {
                            Err(LexiconFailure::DuplicatePrimaryReference(id))
                        } else {
                            Ok(ParseModel { mfids: m.mfids.insert(id, t), ..m1 })
                        }
                    } else if val == "secondary".spec_bytes() {
                        let old_set = if m.pfids.contains_key(id) {
                            m.pfids[id]
                        } else {
                            Seq::empty()
                        };
                        Ok(ParseModel { pfids: m.pfids.insert(id, add_unique(old_set, t)), ..m1 })
                    } else {
                        Ok(m1)
                    }
                },
            },
        },
    }
}

/// A `feat` element: the `att` attribute names the field that `val` sets.
pub open spec fn feat_step(m: ParseModel, attributes: Map<Seq<u8>, Seq<u8>>) -> Result<
    ParseModel,
    LexiconFailure,
> {
    if !attributes.contains_key("att".spec_bytes()) {
        Err(LexiconFailure::MalformedDocument)
    } else {
        let att = attributes["att".spec_bytes()];
        let val = attr_text(attributes, "val".spec_bytes());
        if att == "label".spec_bytes() {
            label_step(m, attributes)
        } else if att == "language".spec_bytes() || att == "languageCoding".spec_bytes() {
            Ok(m)
        } else if att == "lemgram".spec_bytes() || att == "paradigm".spec_bytes() || att
            == "partOfSpeech".spec_bytes() || att == "writtenForm".spec_bytes() {
            match val {
                None => Err(LexiconFailure::MalformedDocument),
                Some(v) => if att == "lemgram".spec_bytes() {
                    Ok(ParseModel { curr_lemgram_id: Some(v), ..m })
                } else if att == "paradigm".spec_bytes() {
                    Ok(ParseModel { curr_para: Some(v), ..m })
                } else if att == "partOfSpeech".spec_bytes() {
                    Ok(ParseModel { curr_pos: Some(v), ..m })
                } else {
                    Ok(ParseModel { curr_wf: Some(v), ..m })
                },
            }
        } else {
            Err(LexiconFailure::MalformedDocument)
        }
    }
}

/// A `Sense` element sets the identifier of the open record, once.
pub open spec fn sense_step(m: ParseModel, attributes: Map<Seq<u8>, Seq<u8>>) -> Result<
    ParseModel,
    LexiconFailure,
> {
    match m.curr_entry {
        None => Err(LexiconFailure::MalformedDocument),
        Some(b) => match attr_text(attributes, "id".spec_bytes()) {
            None => Err(LexiconFailure::MalformedDocument),
            Some(id) => match b.id {
                Some(first) => Err(LexiconFailure::DuplicateIdentity(first)),
                None => Ok(ParseModel { curr_entry: Some(BuilderView { id: Some(id), ..b }), ..m }),
            },
        },
    }
}

/// The state after an element opens.
pub open spec fn open_step(m: ParseModel, name: Seq<u8>, attributes: Map<Seq<u8>, Seq<u8>>) -> Result<
    ParseModel,
    LexiconFailure,
> {
    if name == "LexicalEntry".spec_bytes() {
        Ok(ParseModel { curr_entry: Some(BuilderView { id: None, lemgrams: Seq::empty() }), ..m })
    } else if name == "Sense".spec_bytes() {
        sense_step(m, attributes)
    } else if name == "SenseRelation".spec_bytes() {
        match attr_text(attributes, "targets".spec_bytes()) {
            None => Err(LexiconFailure::MalformedDocument),
            Some(t) => Ok(ParseModel { curr_relation_target: Some(t), ..m }),
        }
    } else if name == "feat".spec_bytes() {
        feat_step(m, attributes)
    } else {
        Ok(m)
    }
}

/// A word form closes, in the record `b`: a known one must agree on the part
/// of speech and gains the record as owner; a new one needs its written form.
pub open spec fn form_step(m: ParseModel, b: BuilderView, lid: Seq<char>, pos: Seq<char>) -> Result<
    ParseModel,
    LexiconFailure,
> {
    let b1 = BuilderView { lemgrams: b.lemgrams.push(lid), ..b };
    if m.lemgrams.contains_key(lid) {
        let l = m.lemgrams[lid];
        if l.pos != pos {
            Err(LexiconFailure::IncompatiblePartOfSpeech(lid))
        } else {
            let lemgrams = match b.id {
                Some(id) => m.lemgrams.insert(lid, LemgramView { entries: l.entries.push(id), ..l }),
                None => m.lemgrams,
            };
            Ok(ParseModel { curr_entry: Some(b1), lemgrams, ..m })
        }
    } else {
        match m.curr_wf {
            None => Err(LexiconFailure::MissingWrittenForm(lid)),
            Some(wf) => {
                let owners = match b.id {
                    Some(id) => seq![id],
                    None => Seq::empty(),
                };
                let l = LemgramView { id: lid, pos, para: m.curr_para, wf, entries: owners };
                Ok(
                    ParseModel {
                        curr_entry: Some(b1),
                        curr_wf: None,
                        curr_para: None,
                        lemgrams: m.lemgrams.insert(lid, l),
                        lemgrams_by_lemma: m.lemgrams_by_lemma.insert(wf, lid),
                        ..m
                    },
                )
            },
        }
    }
}

/// A `FormRepresentation` element closes: its identifier and part of speech
/// are required.
pub open spec fn form_close_step(m: ParseModel) -> Result<ParseModel, LexiconFailure> {
    match m.curr_lemgram_id {
        None => Err(LexiconFailure::MissingLemgramId),
        Some(lid) => match m.curr_pos {
            None => Err(LexiconFailure::MissingPartOfSpeech(lid)),
            Some(pos) => {
                let m1 = ParseModel { curr_lemgram_id: None, curr_pos: None, ..m };
                match m1.curr_entry {
                    None => Ok(m1),
                    Some(b) => form_step(m1, b, lid, pos),
                }
            },
        },
    }
}

/// The state after an element closes.
pub open spec fn close_step(m: ParseModel, name: Seq<u8>) -> Result<ParseModel, LexiconFailure> {
    if name == "LexicalEntry".spec_bytes() {
        match m.curr_entry {
            None => Ok(m),
            Some(b) => match b.id {
                None => Err(LexiconFailure::MissingEntryId),
                Some(id) => Ok(
                    ParseModel {
                        curr_entry: None,
                        all_entries: m.all_entries.push(id),
                        entries: m.entries.insert(id, fresh_entry(id, b.lemgrams)),
                        ..m
                    },
                ),
            },
        }
    } else if name == "FormRepresentation".spec_bytes() {
        form_close_step(m)
    } else {
        Ok(m)
    }
}

pub(crate) open spec fn entry_map_views(k: Keyed<SaldoEntry>) -> Map<Seq<char>, EntryView> {
    k@.map_values(|e: SaldoEntry| e@)
}

pub(crate) open spec fn string_map_views(k: Keyed<String>) -> Map<Seq<char>, Seq<char>> {
    k@.map_values(|s: String| s@)
}

pub(crate) open spec fn string_set_map_views(k: Keyed<Vec<String>>) -> Map<Seq<char>, Seq<Seq<char>>> {
    k@.map_values(|v: Vec<String>| strings_view(v@))
}

pub(crate) open spec fn lemgram_map_views(k: Keyed<SaldoLemgram>) -> Map<Seq<char>, LemgramView> {
    k@.map_values(|l: SaldoLemgram| l@)
}

pub(crate) open spec fn lemgram_id_map_views(k: Keyed<SaldoLemgramId>) -> Map<Seq<char>, Seq<char>> {
    k@.map_values(|i: SaldoLemgramId| i@)
}

pub open spec fn opt_chars(o: Option<String>) -> Option<Seq<char>> {
    match o {
        Some(s) => Some(s@),
        None => None,
    }
}

/// The parse state machine over a lexicon document.
#[derive(Debug)]
pub struct SaldoParserCallback {
    pub(crate) curr_entry: Option<SaldoEntryBuilder>,
    pub(crate) curr_pos: Option<String>,
    pub(crate) curr_lemgram_id: Option<String>,
    pub(crate) curr_para: Option<String>,
    pub(crate) curr_wf: Option<String>,
    pub(crate) curr_relation_target: Option<String>,
    pub(crate) all_entries: Vec<SaldoId>,
    pub(crate) entries: Keyed<SaldoEntry>,
    pub(crate) mfids: Keyed<String>,
    pub(crate) pfids: Keyed<Vec<String>>,
    pub(crate) lemgrams: Keyed<SaldoLemgram>,
    pub(crate) lemgrams_by_lemma: Keyed<SaldoLemgramId>,
}

/// Whether `r` and the state `after` are what `step` says.
pub open spec fn step_outcome(
    step: Result<ParseModel, LexiconFailure>,
    r: Result<(), SaldoLexiconError>,
    after: SaldoParserCallback,
) -> bool {
    match step {
        Ok(m) => r is Ok && after.inv() && after.model() == m,
        Err(e) => r is Err && r->Err_0@ == e,
    }
}

/// The text of attribute `key`, if it is there and is UTF-8.
fn attribute_text(attributes: &AttributeMap, key: &str) -> (r: Option<String>)
    ensures
        r is Some <==> attr_text(attributes@, key.spec_bytes()) is Some,
        r is Some ==> r->0@ == attr_text(attributes@, key.spec_bytes())->0,
{
    match attributes.get(key.as_bytes()) {
        None => None,
        Some(v) => {
            let c = v.clone();
            assert(c@ =~= v@);
            utf8_string(c)
        },
    }
}

/// Whether `v` holds a string equal to `s`.
fn contains_string(v: &Vec<String>, s: &String) -> (r: bool)
    ensures
        r == strings_view(v@).contains(s@),
{
    let mut i: usize = 0;
    while i < v.len()
        invariant
            0 <= i <= v@.len(),
            forall|j: int| 0 <= j < i ==> v@[j]@ != s@,
        decreases v@.len() - i,
    {
        if v[i] == *s {
            assert(strings_view(v@)[i as int] == s@);
            return true;
        }
        i = i + 1;
    }
    assert forall|j: int| 0 <= j < strings_view(v@).len() implies strings_view(v@)[j] != s@ by {
        assert(strings_view(v@)[j] == v@[j]@);
    }
    false
}

impl SaldoParserCallback {
    pub fn new() -> (r: SaldoParserCallback)
        ensures
            r.inv(),
            r.model() == initial_model(),
    {
        let r = SaldoParserCallback {
            curr_entry: None,
            curr_pos: None,
            curr_lemgram_id: None,
            curr_para: None,
            curr_wf: None,
            curr_relation_target: None,
            all_entries: Vec::new(),
            entries: Keyed::new(),
            mfids: Keyed::new(),
            pfids: Keyed::new(),
            lemgrams: Keyed::new(),
            lemgrams_by_lemma: Keyed::new(),
        };
        assert(r.model().all_entries =~= Seq::empty());
        assert(r.model().entries =~= Map::empty());
        assert(r.model().mfids =~= Map::empty());
        assert(r.model().pfids =~= Map::empty());
        assert(r.model().lemgrams =~= Map::empty());
        assert(r.model().lemgrams_by_lemma =~= Map::empty());
        r
    }

    fn open_sense(&mut self, attributes: &AttributeMap) -> (r: Result<(), SaldoLexiconError>)
        requires
            old(self).inv(),
        ensures
            step_outcome(sense_step(old(self).model(), attributes@), r, *final(self)),
    {
        match self.curr_entry.take() {
            None => Err(SaldoLexiconError::MalformedDocument),
            Some(mut b) => match attribute_text(attributes, "id") {
                None => Err(SaldoLexiconError::MalformedDocument),
                Some(id) => match b.get_id() {
                    Some(first) => Err(SaldoLexiconError::DuplicateIdentity(first.duplicate())),
                    None => {
                        b.set_id(SaldoId::new(id));
                        self.curr_entry = Some(b);
                        Ok(())
                    },
                },
            },
        }
    }

    fn open_label(&mut self, attributes: &AttributeMap) -> (r: Result<(), SaldoLexiconError>)
        requires
            old(self).inv(),
        ensures
            step_outcome(label_step(old(self).model(), attributes@), r, *final(self)),
    {
        let id = match &self.curr_entry {
            None => {
                return Err(SaldoLexiconError::MalformedDocument);
            },
            Some(b) => match b.get_id() {
                None => {
                    return Err(SaldoLexiconError::MalformedDocument);
                },
                Some(i) => i.duplicate(),
            },
        };
        let t = match self.curr_relation_target.take() {
            None => {
                return Err(SaldoLexiconError::MalformedDocument);
            },
            Some(t) => t,
        };
        let val = match attributes.get("val".as_bytes()) {
            None => {
                return Err(SaldoLexiconError::MalformedDocument);
            },
            Some(v) => v,
        };
        if bytes_eq(val.as_slice(), "primary".as_bytes()) {
            if self.mfids.slot(id.as_str()).is_some() {
                return Err(SaldoLexiconError::DuplicatePrimaryReference(id));
            }
            self.mfids.insert(id.to_owned_string(), t);
            assert(self.model().mfids =~= old(self).model().mfids.insert(id@, t@));
            Ok(())
        } else if bytes_eq(val.as_slice(), "secondary".as_bytes()) {
            match self.pfids.slot(id.as_str()) {
                Some(i) => {
                    if !contains_string(&self.pfids.slots[i], &t) {
                        let ghost old_pfids = self.pfids;
                        self.pfids.slots[i].push(t);
                        proof {
                            Keyed::lemma_slot_update(old_pfids, self.pfids, id@, self.pfids.slots@[i as int]);
                            assert(strings_view(self.pfids.slots@[i as int]@) =~= strings_view(old_pfids.slots@[i as int]@).push(t@));
                        }
                    }
                    assert(self.model().pfids =~= old(self).model().pfids.insert(id@, add_unique(old(self).model().pfids[id@], t@)));
                },
                None => {
                    let v = vec![t];
                    assert(strings_view(v@) =~= add_unique(Seq::empty(), t@));
                    self.pfids.insert(id.to_owned_string(), v);
                    assert(self.model().pfids =~= old(self).model().pfids.insert(id@, add_unique(Seq::empty(), t@)));
                },
            }
            Ok(())
        } else {
            Ok(())
        }
    }

    fn open_feat(&mut self, attributes: &AttributeMap) -> (r: Result<(), SaldoLexiconError>)
        requires
            old(self).inv(),
        ensures
            step_outcome(feat_step(old(self).model(), attributes@), r, *final(self)),
    {
        let att = match attributes.get("att".as_bytes()) {
            None => {
                return Err(SaldoLexiconError::MalformedDocument);
            },
            Some(a) => a.as_slice(),
        };
        if bytes_eq(att, "label".as_bytes()) {
            self.open_label(attributes)
        } else if bytes_eq(att, "language".as_bytes()) || bytes_eq(att, "languageCoding".as_bytes()) {
            Ok(())
        } else if bytes_eq(att, "lemgram".as_bytes()) || bytes_eq(att, "paradigm".as_bytes())
            || bytes_eq(att, "partOfSpeech".as_bytes()) || bytes_eq(att, "writtenForm".as_bytes()) {
            let v = match attribute_text(attributes, "val") {
                None => {
                    return Err(SaldoLexiconError::MalformedDocument);
                },
                Some(v) => v,
            };
            if bytes_eq(att, "lemgram".as_bytes()) {
                self.curr_lemgram_id = Some(v);
            } else if bytes_eq(att, "paradigm".as_bytes()) {
                self.curr_para = Some(v);
            } else if bytes_eq(att, "partOfSpeech".as_bytes()) {
                self.curr_pos = Some(v);
            } else {
                self.curr_wf = Some(v);
            }
            Ok(())
        } else {
            Err(SaldoLexiconError::MalformedDocument)
        }
    }

    fn close_entry(&mut self) -> (r: Result<(), SaldoLexiconError>)
        requires
            old(self).inv(),
        ensures
            step_outcome(close_step(old(self).model(), "LexicalEntry".spec_bytes()), r, *final(self)),
    {
        match self.curr_entry.take() {
            None => Ok(()),
            Some(b) => match b.build() {
                Err(_) => Err(SaldoLexiconError::MissingEntryId),
                Ok(entry) => {
                    let id = entry.get_id().duplicate();
                    let key = id.to_owned_string();
                    self.all_entries.push(id);
                    self.entries.insert(key, entry);
                    let ghost m = old(self).model();
                    assert(self.model().all_entries =~= m.all_entries.push(b@.id->0));
                    assert(self.model().entries =~= m.entries.insert(
                        b@.id->0,
                        fresh_entry(b@.id->0, b@.lemgrams),
                    ));
                    Ok(())
                },
            },
        }
    }

    fn close_form(&mut self) -> (r: Result<(), SaldoLexiconError>)
        requires
            old(self).inv(),
        ensures
            step_outcome(form_close_step(old(self).model()), r, *final(self)),
    {
        let lid = match self.curr_lemgram_id.take() {
            None => {
                return Err(SaldoLexiconError::MissingLemgramId);
            },
            Some(l) => l,
        };
        let lemgram_id = SaldoLemgramId::new(lid);
        let pos = match self.curr_pos.take() {
            None => {
                return Err(SaldoLexiconError::MissingPartOfSpeech(lemgram_id));
            },
            Some(p) => p,
        };
        let mut b = match self.curr_entry.take() {
            None => {
                return Ok(());
            },
            Some(b) => b,
        };
        let ghost m = old(self).model();
        match self.lemgrams.slot(lemgram_id.as_str()) {
            Some(i) => {
                if !str_eq(self.lemgrams.slots[i].pos(), pos.as_str()) {
                    return Err(SaldoLexiconError::IncompatiblePartOfSpeech(lemgram_id));
                }
                b.add_lemgram(&lemgram_id);
                match b.get_id() {
                    Some(eid) => {
                        let ghost old_lemgrams = self.lemgrams;
                        self.lemgrams.slots[i].add_entry(eid);
                        proof {
                            Keyed::lemma_slot_update(old_lemgrams, self.lemgrams, lemgram_id@, self.lemgrams.slots@[i as int]);
                        }
                        assert(self.model().lemgrams =~= m.lemgrams.insert(
                            lemgram_id@,
                            LemgramView { entries: m.lemgrams[lemgram_id@].entries.push(eid@), ..m.lemgrams[lemgram_id@] },
                        ));
                    },
                    None => {},
                }
                self.curr_entry = Some(b);
                Ok(())
            },
            None => {
                let wf = match self.curr_wf.take() {
                    None => {
                        return Err(SaldoLexiconError::MissingWrittenForm(lemgram_id));
                    },
                    Some(w) => w,
                };
                let para = self.curr_para.take();
                let mut sl = SaldoLemgram::new(lemgram_id.duplicate(), pos, para, wf.clone());
                match b.get_id() {
                    Some(eid) => {
                        sl.add_entry(eid);
                        assert(sl@.entries =~= seq![eid@]);
                    },
                    None => {
                        assert(sl@.entries =~= Seq::empty());
                    },
                }
                self.lemgrams.insert(lemgram_id.as_str().to_owned(), sl);
                b.add_lemgram(&lemgram_id);
                self.lemgrams_by_lemma.insert(wf, lemgram_id);
                self.curr_entry = Some(b);
                assert(self.model().lemgrams =~= m.lemgrams.insert(lemgram_id@, sl@));
                assert(self.model().lemgrams_by_lemma =~= m.lemgrams_by_lemma.insert(wf@, lemgram_id@));
                Ok(())
            },
        }
    }
}

impl SaldoParserCallback {
    /// The model and invariant of the handler, spelled out over its fields.
    pub(crate) proof fn reveal_model(&self)
        ensures
            self.model() == (ParseModel {
                curr_entry: match self.curr_entry {
                    Some(b) => Some(b@),
                    None => None,
                },
                curr_pos: opt_chars(self.curr_pos),
                curr_lemgram_id: opt_chars(self.curr_lemgram_id),
                curr_para: opt_chars(self.curr_para),
                curr_wf: opt_chars(self.curr_wf),
                curr_relation_target: opt_chars(self.curr_relation_target),
                all_entries: id_views(self.all_entries@),
                entries: entry_map_views(self.entries),
                mfids: string_map_views(self.mfids),
                pfids: string_set_map_views(self.pfids),
                lemgrams: lemgram_map_views(self.lemgrams),
                lemgrams_by_lemma: lemgram_id_map_views(self.lemgrams_by_lemma),
            }),
            self.inv() == (self.entries.wf() && self.mfids.wf() && self.pfids.wf()
                && self.lemgrams.wf() && self.lemgrams_by_lemma.wf()),
    {
    }
}

impl ContentHandler for SaldoParserCallback {
    type Model = ParseModel;

    type Error = SaldoLexiconError;

    closed spec fn model(&self) -> ParseModel {
        ParseModel {
            curr_entry: match self.curr_entry {
                Some(b) => Some(b@),
                None => None,
            },
            curr_pos: opt_chars(self.curr_pos),
            curr_lemgram_id: opt_chars(self.curr_lemgram_id),
            curr_para: opt_chars(self.curr_para),
            curr_wf: opt_chars(self.curr_wf),
            curr_relation_target: opt_chars(self.curr_relation_target),
            all_entries: id_views(self.all_entries@),
            entries: entry_map_views(self.entries),
            mfids: string_map_views(self.mfids),
            pfids: string_set_map_views(self.pfids),
            lemgrams: lemgram_map_views(self.lemgrams),
            lemgrams_by_lemma: lemgram_id_map_views(self.lemgrams_by_lemma),
        }
    }

    closed spec fn inv(&self) -> bool {
        &&& self.entries.wf()
        &&& self.mfids.wf()
        &&& self.pfids.wf()
        &&& self.lemgrams.wf()
        &&& self.lemgrams_by_lemma.wf()
    }

    open spec fn after_open(m: ParseModel, name: Seq<u8>, attributes: Map<Seq<u8>, Seq<u8>>) -> Result<
        ParseModel,
        LexiconFailure,
    > {
        open_step(m, name, attributes)
    }

    open spec fn after_close(m: ParseModel, name: Seq<u8>) -> Result<ParseModel, LexiconFailure> {
        close_step(m, name)
    }

    fn start_element(&mut self, name: &[u8], attributes: &AttributeMap) -> (r: Result<(), SaldoLexiconError>) {
        if bytes_eq(name, "LexicalEntry".as_bytes()) {
            let b = SaldoEntryBuilder::default();
            self.curr_entry = Some(b);
            Ok(())
        } else if bytes_eq(name, "Sense".as_bytes()) {
            self.open_sense(attributes)
        } else if bytes_eq(name, "SenseRelation".as_bytes()) {
            match attribute_text(attributes, "targets") {
                None => Err(SaldoLexiconError::MalformedDocument),
                Some(t) => {
                    self.curr_relation_target = Some(t);
                    Ok(())
                },
            }
        } else if bytes_eq(name, "feat".as_bytes()) {
            self.open_feat(attributes)
        } else {
            Ok(())
        }
    }

    fn end_element(&mut self, name: &[u8]) -> (r: Result<(), SaldoLexiconError>) {
        if bytes_eq(name, "LexicalEntry".as_bytes()) {
            self.close_entry()
        } else if bytes_eq(name, "FormRepresentation".as_bytes()) {
            self.close_form()
        } else {
            Ok(())
        }
    }
}

} // verus!
