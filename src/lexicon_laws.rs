//! What holds of every lexicon that a document loads into: the links are
//! mutual, and only the root lacks a primary reference.
use vstd::prelude::*;
use vstd::string::StringSliceAdditionalSpecFns;
use vstd::utf8::encode_utf8_decode_utf8;

use crate::parser_callback::{
    close_step, feat_step, initial_model, label_step, open_step, ParseModel, SaldoParserCallback,
};
use crate::saldo_entry::EntryView;
use crate::saldo_lemgram::LemgramView;
use crate::saldo_lexicon::{
    document_lexicon, gunzip_of, link, link_primary, link_secondary, source_outcome,
    LexiconFailure, PRIM,
};
use crate::xml_reader::{handle_event, handle_events, XmlEvent};

verus! {

/// Each entry's primary reference names an entry whose reverse-primary edges
/// hold the first one.
pub open spec fn primary_links_mutual(m: Map<Seq<char>, EntryView>) -> bool {
    forall|k: Seq<char>|
        #![trigger m[k].mf]
        m.contains_key(k) && m[k].mf is Some ==> m.contains_key(m[k].mf->0) && m[m[k].mf->0].inv_mf.contains(k)
}

/// Each entry's secondary references name entries, other than the root, whose
/// reverse-secondary edges hold the first one.
pub open spec fn secondary_links_mutual(m: Map<Seq<char>, EntryView>) -> bool {
    forall|k: Seq<char>, j: int|
        #![trigger m[k].pf[j]]
        m.contains_key(k) && 0 <= j < m[k].pf.len() ==> m.contains_key(m[k].pf[j])
            && m[m[k].pf[j]].inv_pf.contains(k) && m[k].pf[j] != PRIM@
}

/// Only the root lacks a primary reference.
pub open spec fn only_root_unlinked(m: Map<Seq<char>, EntryView>) -> bool {
    forall|k: Seq<char>| #![trigger m[k].mf] m.contains_key(k) && m[k].mf is None ==> k == PRIM@
}

/// The entries of a parse: each stands under its own identifier, has no link
/// yet, and was recorded among the records read.
pub open spec fn entries_fresh(p: ParseModel) -> bool {
    forall|k: Seq<char>|
        #![trigger p.entries[k]]
        p.entries.contains_key(k) ==> {
            &&& p.entries[k].id == k
            &&& p.entries[k].mf is None
            &&& p.entries[k].pf.len() == 0
            &&& p.entries[k].inv_mf.len() == 0
            &&& p.entries[k].inv_pf.len() == 0
            &&& p.all_entries.contains(k)
        }
}

/// The state of linking after the entries `done`.
pub open spec fn linked_so_far(m: Map<Seq<char>, EntryView>, done: Seq<Seq<char>>) -> bool {
    &&& forall|k: Seq<char>| #![trigger m[k].id] m.contains_key(k) ==> m[k].id == k
    &&& primary_links_mutual(m)
    &&& secondary_links_mutual(m)
    &&& forall|k: Seq<char>|
        #![trigger m[k].mf, done.contains(k)]
        m.contains_key(k) && m[k].mf is None && done.contains(k) ==> k == PRIM@
}

proof fn lemma_push_contains<T>(s: Seq<T>, x: T, y: T)
    ensures
        s.contains(y) ==> s.push(x).contains(y),
        s.push(x).contains(x),
        s.push(x).contains(y) ==> s.contains(y) || y == x,
{
    if s.contains(y) {
        let i = choose|i: int| 0 <= i < s.len() && s[i] == y;
        assert(s.push(x)[i] == y);
    }
    assert(s.push(x)[s.len() as int] == x);
    if s.push(x).contains(y) && y != x {
        let i = choose|i: int| 0 <= i < s.push(x).len() && s.push(x)[i] == y;
        assert(i < s.len());
        assert(s[i] == y);
    }
}

proof fn lemma_event_keeps_fresh(m: ParseModel, e: XmlEvent)
    requires
        entries_fresh(m),
        handle_event::<SaldoParserCallback>(m, e) is Ok,
    ensures
        entries_fresh(handle_event::<SaldoParserCallback>(m, e)->Ok_0),
{
    match e {
        XmlEvent::Open(name, attributes, closed) => {
            let m1 = open_step(m, name@, attributes@)->Ok_0;
            lemma_open_keeps_entries(m, name@, attributes@);
            if closed {
                lemma_close_keeps_fresh(m1, name@);
            }
        },
        XmlEvent::Close(name) => {
            lemma_close_keeps_fresh(m, name@);
        },
    }
}

proof fn lemma_open_keeps_entries(m: ParseModel, name: Seq<u8>, attributes: Map<Seq<u8>, Seq<u8>>)
    ensures
        open_step(m, name, attributes) is Ok ==> open_step(m, name, attributes)->Ok_0.entries == m.entries
            && open_step(m, name, attributes)->Ok_0.all_entries == m.all_entries,
{
    if open_step(m, name, attributes) is Ok {
        if name == "feat".spec_bytes() && !(name == "LexicalEntry".spec_bytes()) && !(name
            == "Sense".spec_bytes()) && !(name == "SenseRelation".spec_bytes()) {
            assert(feat_step(m, attributes) is Ok);
            if label_step(m, attributes) is Ok {
                assert(label_step(m, attributes)->Ok_0.entries == m.entries);
            }
        }
    }
}

proof fn lemma_close_keeps_fresh(m: ParseModel, name: Seq<u8>)
    requires
        entries_fresh(m),
    ensures
        close_step(m, name) is Ok ==> entries_fresh(close_step(m, name)->Ok_0),
{
    if close_step(m, name) is Ok {
        let m2 = close_step(m, name)->Ok_0;
        if name == "LexicalEntry".spec_bytes() {
            if m.curr_entry is Some {
                let id = m.curr_entry->0.id->0;
                assert forall|k: Seq<char>| m2.entries.contains_key(k) implies #[trigger] m2.entries[k].id
                    == k && m2.all_entries.contains(k) && m2.entries[k].mf is None && m2.entries[k].pf.len()
                    == 0 && m2.entries[k].inv_mf.len() == 0 && m2.entries[k].inv_pf.len() == 0 by {
                    lemma_push_contains(m.all_entries, id, k);
                    if k != id {
                        assert(m.entries[k].id == k);
                    }
                }
            }
        } else if name == "FormRepresentation".spec_bytes() {
            assert(m2.entries == m.entries);
            assert(m2.all_entries == m.all_entries);
        }
    }
}

proof fn lemma_parse_keeps_fresh(evs: Seq<XmlEvent>)
    requires
        handle_events::<SaldoParserCallback>(initial_model(), evs) is Ok,
    ensures
        entries_fresh(handle_events::<SaldoParserCallback>(initial_model(), evs)->Ok_0),
    decreases evs.len(),
{
    if evs.len() > 0 {
        lemma_parse_keeps_fresh(evs.drop_last());
        let m1 = handle_events::<SaldoParserCallback>(initial_model(), evs.drop_last())->Ok_0;
        lemma_event_keeps_fresh(m1, evs.last());
    }
}

proof fn lemma_primary_keeps_linked(
    m: Map<Seq<char>, EntryView>,
    id: Seq<char>,
    mfids: Map<Seq<char>, Seq<char>>,
    done: Seq<Seq<char>>,
)
    requires
        linked_so_far(m, done),
        link_primary(m, id, mfids) is Ok,
    ensures
        linked_so_far(link_primary(m, id, mfids)->Ok_0, done.push(id)),
        link_primary(m, id, mfids)->Ok_0.dom() == m.dom(),
{
    let m2 = link_primary(m, id, mfids)->Ok_0;
    if mfids.contains_key(id) {
        let t = mfids[id];
        let m1 = m.insert(t, EntryView { inv_mf: m[t].inv_mf.push(id), ..m[t] });
        assert(m2.dom() =~= m.dom());
        assert forall|k: Seq<char>| m2.contains_key(k) implies #[trigger] m2[k].id == k
            && m2[k].pf == m[k].pf && m2[k].inv_pf == m[k].inv_pf && (k != id ==> m2[k].mf == m[k].mf)
            && (k == id ==> m2[k].mf == Some(t)) && (k != t ==> m2[k].inv_mf == m[k].inv_mf) && (k == t
            ==> m2[k].inv_mf == m[k].inv_mf.push(id)) by {
            assert(m[k].id == k);
        }
        assert forall|k: Seq<char>|
            #![trigger m2[k].mf]
            m2.contains_key(k) && m2[k].mf is Some implies m2.contains_key(m2[k].mf->0)
                && m2[m2[k].mf->0].inv_mf.contains(k) by {
            let x = m2[k].mf->0;
            assert(m2[x].id == x);
            if k == id {
                lemma_push_contains(m[t].inv_mf, id, id);
            } else {
                assert(m[k].mf is Some);
                assert(m.contains_key(x) && m[x].inv_mf.contains(k));
                lemma_push_contains(m[x].inv_mf, id, k);
            }
        }
        assert forall|k: Seq<char>, j: int|
            #![trigger m2[k].pf[j]]
            m2.contains_key(k) && 0 <= j < m2[k].pf.len() implies m2.contains_key(m2[k].pf[j])
                && m2[m2[k].pf[j]].inv_pf.contains(k) && m2[k].pf[j] != PRIM@ by {
            assert(m[k].pf[j] == m2[k].pf[j]);
            let x = m[k].pf[j];
            assert(m2[x].id == x);
        }
        assert forall|k: Seq<char>|
            #![trigger m2[k].mf, done.push(id).contains(k)]
            m2.contains_key(k) && m2[k].mf is None && done.push(id).contains(k) implies k == PRIM@ by {
            lemma_push_contains(done, id, k);
            assert(m[k].mf is None);
        }
    } else {
        assert forall|k: Seq<char>|
            #![trigger m2[k].mf, done.push(id).contains(k)]
            m2.contains_key(k) && m2[k].mf is None && done.push(id).contains(k) implies k == PRIM@ by {
            lemma_push_contains(done, id, k);
        }
    }
}

proof fn lemma_secondary_keeps_linked(
    m: Map<Seq<char>, EntryView>,
    id: Seq<char>,
    targets: Seq<Seq<char>>,
    done: Seq<Seq<char>>,
)
    requires
        linked_so_far(m, done),
        link_secondary(m, id, targets) is Ok,
    ensures
        linked_so_far(link_secondary(m, id, targets)->Ok_0, done),
        link_secondary(m, id, targets)->Ok_0.dom() == m.dom(),
    decreases targets.len(),
{
    if targets.len() > 0 {
        lemma_secondary_keeps_linked(m, id, targets.drop_last(), done);
        let m1 = link_secondary(m, id, targets.drop_last())->Ok_0;
        let t = targets.last();
        if t != PRIM@ {
            let m3 = link_secondary(m, id, targets)->Ok_0;
            assert(m3.dom() =~= m1.dom());
            assert forall|k: Seq<char>| m3.contains_key(k) implies #[trigger] m3[k].id == k
                && m3[k].mf == m1[k].mf && m3[k].inv_mf == m1[k].inv_mf && (k != id ==> m3[k].pf
                == m1[k].pf) && (k == id ==> m3[k].pf == m1[k].pf.push(t)) && (k != t ==> m3[k].inv_pf
                == m1[k].inv_pf) && (k == t ==> m3[k].inv_pf == m1[k].inv_pf.push(id)) by {
                assert(m1[k].id == k);
            }
            assert forall|k: Seq<char>|
                #![trigger m3[k].mf]
                m3.contains_key(k) && m3[k].mf is Some implies m3.contains_key(m3[k].mf->0)
                    && m3[m3[k].mf->0].inv_mf.contains(k) by {
                assert(m1[k].mf is Some);
                let x = m1[k].mf->0;
                assert(m3[x].id == x);
            }
            assert forall|k: Seq<char>, j: int|
                #![trigger m3[k].pf[j]]
                m3.contains_key(k) && 0 <= j < m3[k].pf.len() implies m3.contains_key(m3[k].pf[j])
                    && m3[m3[k].pf[j]].inv_pf.contains(k) && m3[k].pf[j] != PRIM@ by {
                if k == id && j == m1[k].pf.len() {
                    assert(m3[k].pf[j] == t);
                    assert(m3[t].id == t);
                    lemma_push_contains(m1[t].inv_pf, id, id);
                } else {
                    assert(m3[k].pf[j] == m1[k].pf[j]);
                    let x = m1[k].pf[j];
                    assert(m1.contains_key(x) && m1[x].inv_pf.contains(k));
                    assert(m3[x].id == x);
                    lemma_push_contains(m1[x].inv_pf, id, k);
                }
            }
            assert forall|k: Seq<char>|
                #![trigger m3[k].mf, done.contains(k)]
                m3.contains_key(k) && m3[k].mf is None && done.contains(k) implies k == PRIM@ by {
                assert(m1[k].mf is None);
            }
        }
    }
}

proof fn lemma_link_keeps_linked(
    m: Map<Seq<char>, EntryView>,
    ids: Seq<Seq<char>>,
    mfids: Map<Seq<char>, Seq<char>>,
    pfids: Map<Seq<char>, Seq<Seq<char>>>,
)
    requires
        linked_so_far(m, Seq::empty()),
        link(m, ids, mfids, pfids) is Ok,
    ensures
        linked_so_far(link(m, ids, mfids, pfids)->Ok_0, ids),
        link(m, ids, mfids, pfids)->Ok_0.dom() == m.dom(),
    decreases ids.len(),
{
    if ids.len() > 0 {
        lemma_link_keeps_linked(m, ids.drop_last(), mfids, pfids);
        let m1 = link(m, ids.drop_last(), mfids, pfids)->Ok_0;
        let id = ids.last();
        assert(ids.drop_last().push(id) == ids);
        lemma_primary_keeps_linked(m1, id, mfids, ids.drop_last());
        let m2 = link_primary(m1, id, mfids)->Ok_0;
        if pfids.contains_key(id) {
            lemma_secondary_keeps_linked(m2, id, pfids[id], ids);
        }
    } else {
        assert(ids == Seq::<Seq<char>>::empty());
    }
}

/// The entries of every loaded lexicon are linked: mutual edges, and only the
/// root without a primary reference.
proof fn lemma_loaded_entries_linked(evs: Seq<XmlEvent>)
    requires
        document_lexicon(evs) is Ok,
    ensures
        primary_links_mutual(document_lexicon(evs)->Ok_0.entries),
        secondary_links_mutual(document_lexicon(evs)->Ok_0.entries),
        only_root_unlinked(document_lexicon(evs)->Ok_0.entries),
{
    lemma_parse_keeps_fresh(evs);
    let p = handle_events::<SaldoParserCallback>(initial_model(), evs)->Ok_0;
    assert forall|k: Seq<char>|
        #![trigger p.entries[k].mf]
        p.entries.contains_key(k) && p.entries[k].mf is Some implies p.entries.contains_key(
            p.entries[k].mf->0,
        ) && p.entries[p.entries[k].mf->0].inv_mf.contains(k) by {
        assert(p.entries[k].mf is None);
    }
    assert forall|k: Seq<char>, j: int|
        #![trigger p.entries[k].pf[j]]
        p.entries.contains_key(k) && 0 <= j < p.entries[k].pf.len() implies p.entries.contains_key(
            p.entries[k].pf[j],
        ) && p.entries[p.entries[k].pf[j]].inv_pf.contains(k) && p.entries[k].pf[j] != PRIM@ by {
        assert(p.entries[k].pf.len() == 0);
    }
    assert forall|k: Seq<char>| #![trigger p.entries[k].id] p.entries.contains_key(k) implies p.entries[k].id == k by {
        assert(p.entries[k].id == k);
    }
    assert(linked_so_far(p.entries, Seq::empty()));
    lemma_link_keeps_linked(p.entries, p.all_entries, p.mfids, p.pfids);
    let m = link(p.entries, p.all_entries, p.mfids, p.pfids)->Ok_0;
    assert forall|k: Seq<char>| #![trigger m[k].mf] m.contains_key(k) && m[k].mf is None implies k == PRIM@ by {
        assert(p.entries.contains_key(k));
        assert(p.entries[k].id == k);
        assert(p.all_entries.contains(k));
    }
}

/// For every document that loads, each entry's primary reference `mf` names an
/// entry of the lexicon, and that entry's reverse-primary edges hold the first.
pub proof fn lemma_primary_links_are_mutual(evs: Seq<XmlEvent>)
    requires
        document_lexicon(evs) is Ok,
    ensures
        primary_links_mutual(document_lexicon(evs)->Ok_0.entries),
{
    lemma_loaded_entries_linked(evs);
}

/// For every document that loads, each secondary reference in an entry's `pf`
/// names an entry, never the root, whose reverse-secondary edges hold the first.
pub proof fn lemma_secondary_links_are_mutual(evs: Seq<XmlEvent>)
    requires
        document_lexicon(evs) is Ok,
    ensures
        secondary_links_mutual(document_lexicon(evs)->Ok_0.entries),
{
    lemma_loaded_entries_linked(evs);
}

/// For every document that loads, the root is the only entry of the lexicon
/// without a primary reference.
pub proof fn lemma_only_root_lacks_primary(evs: Seq<XmlEvent>)
    requires
        document_lexicon(evs) is Ok,
    ensures
        only_root_unlinked(document_lexicon(evs)->Ok_0.entries),
{
    lemma_loaded_entries_linked(evs);
}

/// A gzip stream and the document it decompresses to load alike: to the same
/// lexicon, or with the same error.
pub proof fn lemma_compressed_and_plain_load_alike(compressed: Seq<u8>, plain: Seq<u8>)
    requires
        gunzip_of(compressed) == Some(plain),
    ensures
        source_outcome(compressed, true) == source_outcome(plain, false),
{
}

/// Distinct element names have distinct bytes.
proof fn lemma_form_is_not_entry()
    ensures
        "FormRepresentation".spec_bytes() != "LexicalEntry".spec_bytes(),
{
    reveal_strlit("FormRepresentation");
    reveal_strlit("LexicalEntry");
    encode_utf8_decode_utf8("FormRepresentation"@);
    encode_utf8_decode_utf8("LexicalEntry"@);
    assert("FormRepresentation"@.len() != "LexicalEntry"@.len());
}

/// A word form that a record closes when its identifier is already known:
/// with the same part of speech, the word form keeps its owners and gains the
/// record, and the record gains the word form; with another part of speech the
/// load fails, naming the word form.
pub proof fn lemma_shared_form_accumulates_owners(m: ParseModel, lid: Seq<char>, pos: Seq<char>)
    requires
        m.curr_lemgram_id == Some(lid),
        m.curr_pos == Some(pos),
        m.curr_entry is Some,
        m.curr_entry->0.id is Some,
        m.lemgrams.contains_key(lid),
    ensures
        m.lemgrams[lid].pos == pos ==> {
            let r = close_step(m, "FormRepresentation".spec_bytes());
            &&& r is Ok
            &&& r->Ok_0.lemgrams[lid] == (LemgramView {
                entries: m.lemgrams[lid].entries.push(m.curr_entry->0.id->0),
                ..m.lemgrams[lid]
            })
            &&& r->Ok_0.curr_entry->0.lemgrams == m.curr_entry->0.lemgrams.push(lid)
        },
        m.lemgrams[lid].pos != pos ==> close_step(m, "FormRepresentation".spec_bytes()) == Err::<
            ParseModel,
            LexiconFailure,
        >(LexiconFailure::IncompatiblePartOfSpeech(lid)),
{
    lemma_form_is_not_entry();
}

} // verus!
