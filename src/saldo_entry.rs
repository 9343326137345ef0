//! Lexical entries, their identifiers, and the builder that assembles one.
use vstd::prelude::*;

use crate::saldo_lemgram::SaldoLemgramId;

verus! {

/// The identifier of a lexical entry.
#[derive(Debug, Clone, Hash, PartialEq, Eq, PartialOrd, Ord)]
pub struct SaldoId(String);

impl View for SaldoId {
    type V = Seq<char>;

    closed spec fn view(&self) -> Seq<char> {
        self.0@
    }
}

impl SaldoId {
    pub fn new(s: String) -> (r: SaldoId)
        ensures
            r@ == s@,
    {
        SaldoId(s)
    }

    pub fn as_str(&self) -> (r: &str)
        ensures
            r@ == self@,
    {
        self.0.as_str()
    }

    /// A copy of the identifier.
    pub fn duplicate(&self) -> (r: SaldoId)
        ensures
            r@ == self@,
    {
        SaldoId(self.0.clone())
    }

    /// The identifier as an owned string.
    pub fn to_owned_string(&self) -> (r: String)
        ensures
            r@ == self@,
    {
        self.0.clone()
    }
}

/// The identifiers of a sequence, by their characters.
pub open spec fn id_views(ids: Seq<SaldoId>) -> Seq<Seq<char>> {
    ids.map_values(|i: SaldoId| i@)
}

/// The identifiers of a sequence of word-form ids, by their characters.
pub open spec fn lemgram_id_views(ids: Seq<SaldoLemgramId>) -> Seq<Seq<char>> {
    ids.map_values(|i: SaldoLemgramId| i@)
}

/// What an entry holds, with identifiers as character sequences.
pub struct EntryView {
    pub id: Seq<char>,
    pub mf: Option<Seq<char>>,
    pub pf: Seq<Seq<char>>,
    pub inv_pf: Seq<Seq<char>>,
    pub inv_mf: Seq<Seq<char>>,
    pub lemgrams: Seq<Seq<char>>,
}

/// A lexical entry: its primary link `mf`, its secondary links `pf`, the
/// reverse edges of both, and the word forms it owns.
#[derive(Debug, Clone)]
pub struct SaldoEntry {
    id: SaldoId,
    mf: Option<SaldoId>,
    pf: Vec<SaldoId>,
    inv_pf: Vec<SaldoId>,
    inv_mf: Vec<SaldoId>,
    lemgrams: Vec<SaldoLemgramId>,
}

/// A fresh entry: no links yet.
pub open spec fn fresh_entry(id: Seq<char>, lemgrams: Seq<Seq<char>>) -> EntryView {
    EntryView {
        id,
        mf: None,
        pf: Seq::empty(),
        inv_pf: Seq::empty(),
        inv_mf: Seq::empty(),
        lemgrams,
    }
}

impl View for SaldoEntry {
    type V = EntryView;

    closed spec fn view(&self) -> EntryView {
        EntryView {
            id: self.id@,
            mf: match self.mf {
                Some(m) => Some(m@),
                None => None,
            },
            pf: id_views(self.pf@),
            inv_pf: id_views(self.inv_pf@),
            inv_mf: id_views(self.inv_mf@),
            lemgrams: lemgram_id_views(self.lemgrams@),
        }
    }
}

impl SaldoEntry {
    pub fn new(id: SaldoId, lemgrams: Vec<SaldoLemgramId>) -> (r: SaldoEntry)
        ensures
            r@ == fresh_entry(id@, lemgram_id_views(lemgrams@)),
    {
        let r = SaldoEntry {
            id,
            mf: None,
            pf: Vec::new(),
            inv_pf: Vec::new(),
            inv_mf: Vec::new(),
            lemgrams,
        };
        assert(id_views(r.pf@) =~= Seq::empty());
        assert(id_views(r.inv_pf@) =~= Seq::empty());
        assert(id_views(r.inv_mf@) =~= Seq::empty());
        r
    }

    pub fn get_id(&self) -> (r: &SaldoId)
        ensures
            r@ == self@.id,
    {
        &self.id
    }

    pub fn mf(&self) -> (r: Option<&SaldoId>)
        ensures
            r is Some <==> self@.mf is Some,
            r is Some ==> r->0@ == self@.mf->0,
    {
        self.mf.as_ref()
    }

    pub fn pf(&self) -> (r: &[SaldoId])
        ensures
            id_views(r@) == self@.pf,
    {
        self.pf.as_slice()
    }

    pub fn inv_pf(&self) -> (r: &[SaldoId])
        ensures
            id_views(r@) == self@.inv_pf,
    {
        self.inv_pf.as_slice()
    }

    pub fn inv_mf(&self) -> (r: &[SaldoId])
        ensures
            id_views(r@) == self@.inv_mf,
    {
        self.inv_mf.as_slice()
    }

    pub fn lemgrams(&self) -> (r: &[SaldoLemgramId])
        ensures
            lemgram_id_views(r@) == self@.lemgrams,
    {
        self.lemgrams.as_slice()
    }

    pub fn set_mf(&mut self, mf: SaldoId)
        ensures
            final(self)@ == (EntryView { mf: Some(mf@), ..old(self)@ }),
    {
        self.mf = Some(mf);
    }

    pub fn add_inv_mf(&mut self, inv_mf: SaldoId)
        ensures
            final(self)@ == (EntryView { inv_mf: old(self)@.inv_mf.push(inv_mf@), ..old(self)@ }),
    {
        self.inv_mf.push(inv_mf);
        assert(id_views(self.inv_mf@) =~= id_views(old(self).inv_mf@).push(inv_mf@));
    }

    pub fn add_pf(&mut self, pf: SaldoId)
        ensures
            final(self)@ == (EntryView { pf: old(self)@.pf.push(pf@), ..old(self)@ }),
    {
        self.pf.push(pf);
        assert(id_views(self.pf@) =~= id_views(old(self).pf@).push(pf@));
    }

    pub fn add_inv_pf(&mut self, inv_pf: SaldoId)
        ensures
            final(self)@ == (EntryView { inv_pf: old(self)@.inv_pf.push(inv_pf@), ..old(self)@ }),
    {
        self.inv_pf.push(inv_pf);
        assert(id_views(self.inv_pf@) =~= id_views(old(self).inv_pf@).push(inv_pf@));
    }
}

/// What a builder holds: the identifier, once set, and the word forms so far.
pub struct BuilderView {
    pub id: Option<Seq<char>>,
    pub lemgrams: Seq<Seq<char>>,
}

/// Why an entry could not be built.
#[derive(Debug, Clone, Copy, PartialEq, Eq)]
pub enum BuildError {
    /// The record never declared its identifier.
    MissingId,
}

/// Accumulates the parts of an entry while its record is read.
#[derive(Debug, Clone)]
pub struct SaldoEntryBuilder {
    id: Option<SaldoId>,
    lemgrams: Vec<SaldoLemgramId>,
}

impl View for SaldoEntryBuilder {
    type V = BuilderView;

    closed spec fn view(&self) -> BuilderView {
        BuilderView {
            id: match self.id {
                Some(i) => Some(i@),
                None => None,
            },
            lemgrams: lemgram_id_views(self.lemgrams@),
        }
    }
}

impl Default for SaldoEntryBuilder {
    fn default() -> (r: SaldoEntryBuilder)
        ensures
            r@ == (BuilderView { id: None, lemgrams: Seq::empty() }),
    {
        let r = SaldoEntryBuilder { id: None, lemgrams: Vec::new() };
        assert(lemgram_id_views(r.lemgrams@) =~= Seq::empty());
        r
    }
}

impl SaldoEntryBuilder {
    pub fn get_id(&self) -> (r: Option<&SaldoId>)
        ensures
            r is Some <==> self@.id is Some,
            r is Some ==> r->0@ == self@.id->0,
    {
        self.id.as_ref()
    }

    pub fn set_id(&mut self, id: SaldoId)
        ensures
            final(self)@ == (BuilderView { id: Some(id@), ..old(self)@ }),
    {
        self.id = Some(id);
    }

    pub fn add_lemgram(&mut self, lemgram_id: &SaldoLemgramId)
        ensures
            final(self)@ == (BuilderView {
                lemgrams: old(self)@.lemgrams.push(lemgram_id@),
                ..old(self)@
            }),
    {
        self.lemgrams.push(lemgram_id.duplicate());
        assert(lemgram_id_views(self.lemgrams@) =~= lemgram_id_views(old(self).lemgrams@).push(
            lemgram_id@,
        ));
    }

    /// The entry, or `MissingId` when no identifier was ever set.
    pub fn build(self) -> (r: Result<SaldoEntry, BuildError>)
        ensures
            self@.id is None ==> r == Err::<SaldoEntry, BuildError>(BuildError::MissingId),
            self@.id is Some ==> r is Ok && r->Ok_0@ == fresh_entry(self@.id->0, self@.lemgrams),
    {
        let SaldoEntryBuilder { id, lemgrams } = self;
        match id {
            Some(id) => Ok(SaldoEntry::new(id, lemgrams)),
            None => Err(BuildError::MissingId),
        }
    }
}

} // verus!
