use vstd::prelude::*;
use std::cmp::Ordering;
use crate::entry::{
    Entry, EntryKind, EntryModel, entry_lt, is_ordered, lemma_entry_lt_irreflexive,
    lemma_entry_lt_transitive, lemma_name_lt_irreflexive, lemma_name_lt_transitive, models, name_lt,
    rank,
};
use crate::text::text_lt;

verus! {

broadcast use vstd::seq_lib::group_to_multiset_ensures;

/// The display group of an entry's kind: links, URLs, ports, invalid items.
pub fn entry_type_ord(entry: &Entry) -> (r: i32)
    ensures
        r == rank(entry.kind@),
{
    match entry.kind {
        EntryKind::Link { .. } => 0,
        EntryKind::Url { .. } => 1,
        EntryKind::Port { .. } => 2,
        EntryKind::Invalid => 3,
    }
}

proof fn lemma_entry_lt_asymmetric(a: EntryModel, b: EntryModel)
    ensures
        !(entry_lt(a, b) && entry_lt(b, a)),
{
    if entry_lt(a, b) && entry_lt(b, a) {
        lemma_entry_lt_transitive(a, b, a);
        lemma_entry_lt_irreflexive(a);
    }
}

fn name_cmp(a: &String, b: &String) -> (r: Ordering)
    ensures
        (r == Ordering::Less) == name_lt(a@, b@),
        (r == Ordering::Greater) == name_lt(b@, a@),
{
    proof {
        if name_lt(a@, b@) && name_lt(b@, a@) {
            lemma_name_lt_transitive(a@, b@, a@);
            lemma_name_lt_irreflexive(a@);
        }
    }
    if text_lt(a.as_str(), b.as_str()) {
        Ordering::Less
    } else if text_lt(b.as_str(), a.as_str()) {
        Ordering::Greater
    } else {
        Ordering::Equal
    }
}

/// Compares two entries in display order.
pub fn entry_cmp(e1: &Entry, e2: &Entry) -> (r: Ordering)
    ensures
        (r == Ordering::Less) == entry_lt(e1@, e2@),
        (r == Ordering::Greater) == entry_lt(e2@, e1@),
{
    let o1 = entry_type_ord(e1);
    let o2 = entry_type_ord(e2);
    if o1 < o2 {
        return Ordering::Less;
    }
    if o1 > o2 {
        return Ordering::Greater;
    }
    match (&e1.kind, &e2.kind) {
        (EntryKind::Port { port: p1 }, EntryKind::Port { port: p2 }) => {
            if *p1 < *p2 {
                Ordering::Less
            } else if *p1 > *p2 {
                Ordering::Greater
            } else {
                name_cmp(&e1.name, &e2.name)
            }
        },
        _ => name_cmp(&e1.name, &e2.name),
    }
}

/// Whether `a` comes strictly before `b` in display order.
pub fn precedes(a: &Entry, b: &Entry) -> (r: bool)
    ensures
        r == entry_lt(a@, b@),
{
    match entry_cmp(a, b) {
        Ordering::Less => true,
        _ => false,
    }
}

proof fn lemma_insert_multiset(s: Seq<EntryModel>, p: int, a: EntryModel)
    requires
        0 <= p <= s.len(),
    ensures
        s.insert(p, a).to_multiset() =~= s.to_multiset().insert(a),
{
    let t = s.insert(p, a);
    assert(t.remove(p) =~= s);
    assert(t[p] == a);
    assert(t.contains(a));
}

/// The entries in display order.
pub fn sort_entries(entries: Vec<Entry>) -> (r: Vec<Entry>)
    ensures
        models(r@).to_multiset() == models(entries@).to_multiset(),
        is_ordered(models(r@)),
{
    let mut r: Vec<Entry> = Vec::new();
    let mut rest = entries;
    assert(models(r@) =~= Seq::<EntryModel>::empty());
    while rest.len() > 0
        invariant
            models(r@).to_multiset().add(models(rest@).to_multiset()) =~= models(
                entries@,
            ).to_multiset(),
            is_ordered(models(r@)),
        decreases rest.len(),
    {
        let ghost before = rest@;
        let e = rest.pop().unwrap();
        assert(models(before) =~= models(rest@).push(e@));
        let mut p: usize = 0;
        while p < r.len() && !precedes(&e, &r[p])
            invariant
                p <= r.len(),
                forall|q: int| 0 <= q < p ==> !entry_lt(e@, #[trigger] r@[q]@),
            decreases r.len() - p,
        {
            p = p + 1;
        }
        let ghost s = models(r@);
        proof {
            lemma_insert_multiset(s, p as int, e@);
        }
        r.insert(p, e);
        assert(models(r@) =~= s.insert(p as int, e@));
        proof {
            let t = models(r@);
            assert forall|i: int, j: int| 0 <= i < j < t.len() implies !entry_lt(
                #[trigger] t[j],
                #[trigger] t[i],
            ) by {
                if j < p {
                    assert(t[i] == s[i] && t[j] == s[j]);
                } else if j == p {
                    assert(t[i] == s[i]);
                } else if i == p {
                    assert(t[j] == s[j - 1]);
                    assert(entry_lt(e@, s[p as int]));
                    if entry_lt(s[j - 1], e@) {
                        lemma_entry_lt_transitive(s[j - 1], e@, s[p as int]);
                        if j - 1 == p {
                            lemma_entry_lt_irreflexive(s[p as int]);
                        }
                    }
                } else if i < p {
                    assert(t[i] == s[i] && t[j] == s[j - 1]);
                } else {
                    assert(t[i] == s[i - 1] && t[j] == s[j - 1]);
                }
            }
        }
    }
    assert(models(rest@) =~= Seq::<EntryModel>::empty());
    r
}

} // verus!
