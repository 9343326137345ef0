//! Word-form records ("lemgrams") and their identifiers.
use vstd::prelude::*;

use crate::saldo_entry::{id_views, SaldoId};

verus! {

/// The identifier of a word-form record.
#[derive(Debug, Clone, Hash, PartialEq, Eq, PartialOrd, Ord)]
pub struct SaldoLemgramId(String);

impl View for SaldoLemgramId {
    type V = Seq<char>;

    closed spec fn view(&self) -> Seq<char> {
        self.0@
    }
}

impl SaldoLemgramId {
    pub fn new(s: String) -> (r: SaldoLemgramId)
        ensures
            r@ == s@,
    {
        SaldoLemgramId(s)
    }

    pub fn as_str(&self) -> (r: &str)
        ensures
            r@ == self@,
    {
        self.0.as_str()
    }

    /// A copy of the identifier.
    pub fn duplicate(&self) -> (r: SaldoLemgramId)
        ensures
            r@ == self@,
    {
        SaldoLemgramId(self.0.clone())
    }
}

/// What a word-form record holds, with strings as character sequences.
pub struct LemgramView {
    pub id: Seq<char>,
    pub pos: Seq<char>,
    pub para: Option<Seq<char>>,
    pub wf: Seq<char>,
    pub entries: Seq<Seq<char>>,
}

/// A word-form record: part of speech, paradigm, written form, and the
/// entries that own it.
#[derive(Debug, Clone)]
pub struct SaldoLemgram {
    id: SaldoLemgramId,
    pos: String,
    para: Option<String>,
    wf: String,
    entries: Vec<SaldoId>,
}

impl View for SaldoLemgram {
    type V = LemgramView;

    closed spec fn view(&self) -> LemgramView {
        LemgramView {
            id: self.id@,
            pos: self.pos@,
            para: match self.para {
                Some(p) => Some(p@),
                None => None,
            },
            wf: self.wf@,
            entries: id_views(self.entries@),
        }
    }
}

impl SaldoLemgram {
    pub fn new(id: SaldoLemgramId, pos: String, para: Option<String>, wf: String) -> (r: SaldoLemgram)
        ensures
            r@ == (LemgramView {
                id: id@,
                pos: pos@,
                para: match para {
                    Some(p) => Some(p@),
                    None => None,
                },
                wf: wf@,
                entries: Seq::empty(),
            }),
    {
        let r = SaldoLemgram { id, pos, para, wf, entries: Vec::new() };
        assert(id_views(r.entries@) =~= Seq::empty());
        r
    }

    pub fn id(&self) -> (r: &SaldoLemgramId)
        ensures
            r@ == self@.id,
    {
        &self.id
    }

    pub fn pos(&self) -> (r: &str)
        ensures
            r@ == self@.pos,
    {
        self.pos.as_str()
    }

    pub fn para(&self) -> (r: Option<&String>)
        ensures
            r is Some <==> self@.para is Some,
            r is Some ==> r->0@ == self@.para->0,
    {
        self.para.as_ref()
    }

    pub fn wf(&self) -> (r: &str)
        ensures
            r@ == self@.wf,
    {
        self.wf.as_str()
    }

    pub fn entries(&self) -> (r: &[SaldoId])
        ensures
            id_views(r@) == self@.entries,
    {
        self.entries.as_slice()
    }

    pub fn add_entry(&mut self, saldo_id: &SaldoId)
        ensures
            final(self)@ == (LemgramView {
                entries: old(self)@.entries.push(saldo_id@),
                ..old(self)@
            }),
    {
        self.entries.push(saldo_id.duplicate());
        assert(id_views(self.entries@) =~= id_views(old(self).entries@).push(saldo_id@));
    }
}

} // verus!
