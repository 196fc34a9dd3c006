use vstd::prelude::*;
use crate::classify::{Item, ItemModel, entry_of, item_kind, parsed_url};
use crate::entry::{EntryModel, KindModel, entry_lt, is_ordered, lemma_entry_lt_total};
use crate::registry::{has_name, scanned};
use crate::text::{
    ends_line_at, first_line_of, int_of, int_text, is_digit, lemma_int_text_round_trip,
    lemma_line_end_unique,
};

verus! {

broadcast use vstd::seq_lib::group_to_multiset_ensures;

/// A listing of symbolic links only scans to link entries only: whatever
/// holds the same entries as the listing's classification has nothing else.
pub proof fn symlinks_scan_to_links(items: Seq<(String, Item)>, result: Seq<EntryModel>)
    requires
        forall|i: int| 0 <= i < items.len() ==> (#[trigger] items[i]).1@ is Symlink,
        result.to_multiset() == scanned(items).to_multiset(),
    ensures
        forall|i: int| 0 <= i < result.len() ==> (#[trigger] result[i]).kind is Link,
{
    assert forall|i: int| 0 <= i < result.len() implies (#[trigger] result[i]).kind is Link by {
        assert(result.to_multiset().count(result[i]) > 0);
        assert(scanned(items).contains(result[i]));
        let j = choose|j: int| 0 <= j < scanned(items).len() && scanned(items)[j] == result[i];
        assert(items[j].1@ is Symlink);
    }
}

/// A link entry comes before every entry of another kind.
pub proof fn links_come_first(a: EntryModel, b: EntryModel)
    requires
        a.kind is Link,
        !(b.kind is Link),
    ensures
        entry_lt(a, b),
{
}

/// A line followed by a newline and anything else is the first line, unless
/// it ends with a carriage return.
proof fn lemma_first_line_of_lines(line: Seq<char>, rest: Seq<char>)
    requires
        !line.contains('\n'),
        line.len() == 0 || line.last() != '\r',
    ensures
        first_line_of(line + seq!['\n'] + rest) == line,
        first_line_of(line) == line,
{
    let c = line + seq!['\n'] + rest;
    assert(ends_line_at(c, line.len() as int)) by {
        assert forall|j: int| 0 <= j < line.len() implies c[j] != '\n' by {
            assert(c[j] == line[j]);
        }
    }
    let k = choose|k: int| ends_line_at(c, k);
    lemma_line_end_unique(c, k, line.len() as int);
    assert(c.take(line.len() as int) =~= line);
    assert(ends_line_at(line, line.len() as int));
    let k2 = choose|k: int| ends_line_at(line, k);
    lemma_line_end_unique(line, k2, line.len() as int);
    assert(line.take(line.len() as int) =~= line);
}

/// A file whose first line is an integer is a port entry with that value,
/// whatever the lines after it hold.
pub proof fn integer_line_is_port(line: Seq<char>, rest: Seq<char>)
    requires
        int_of(line) is Some,
    ensures
        item_kind(ItemModel::File(line + seq!['\n'] + rest)) == KindModel::Port(int_of(line)->0),
        item_kind(ItemModel::File(line)) == KindModel::Port(int_of(line)->0),
{
    assert(!line.contains('\n')) by {
        if line.contains('\n') {
            let j = choose|j: int| 0 <= j < line.len() && line[j] == '\n';
            if j > 0 || !(line[0] == '-' || line[0] == '+') {
                if line[0] == '-' || line[0] == '+' {
                    assert(line.skip(1)[j - 1] == line[j]);
                    assert(is_digit(line.skip(1)[j - 1]));
                } else {
                    assert(is_digit(line[j]));
                }
            }
        }
    }
    assert(line.last() != '\r') by {
        let j = line.len() - 1;
        if line[0] == '-' || line[0] == '+' {
            assert(line.skip(1).len() > 0);
            assert(line.skip(1)[j - 1] == line[j]);
            assert(is_digit(line.skip(1)[j - 1]));
        } else {
            assert(is_digit(line[j]));
        }
    }
    lemma_first_line_of_lines(line, rest);
}

/// A file whose first line is not an integer but an absolute URL is a URL
/// entry, whatever the lines after it hold.
pub proof fn url_line_is_url(line: Seq<char>, rest: Seq<char>)
    requires
        !line.contains('\n'),
        line.len() == 0 || line.last() != '\r',
        int_of(line) is None,
        parsed_url(line) is Some,
    ensures
        item_kind(ItemModel::File(line + seq!['\n'] + rest)) == KindModel::Url(
            parsed_url(line)->0,
        ),
        item_kind(ItemModel::File(line)) == KindModel::Url(parsed_url(line)->0),
{
    lemma_first_line_of_lines(line, rest);
}

/// A listing as plain values: each item's name and what was read of it.
pub open spec fn listing(items: Seq<(String, Item)>) -> Seq<(Seq<char>, ItemModel)> {
    items.map_values(|p: (String, Item)| (p.0@, p.1@))
}

/// No two items of the listing share a name.
pub open spec fn names_unique(l: Seq<(Seq<char>, ItemModel)>) -> bool {
    forall|i: int, j: int| 0 <= i < j < l.len() ==> (#[trigger] l[i]).0 != (#[trigger] l[j]).0
}

/// No two entries share a name.
pub open spec fn entry_names_unique(s: Seq<EntryModel>) -> bool {
    forall|i: int, j: int| 0 <= i < j < s.len() ==> (#[trigger] s[i]).name != (#[trigger] s[j]).name
}

proof fn lemma_map_keeps_permutation<A, B>(s: Seq<A>, t: Seq<A>, f: spec_fn(A) -> B)
    requires
        s.to_multiset() == t.to_multiset(),
    ensures
        s.map_values(f).to_multiset() == t.map_values(f).to_multiset(),
    decreases s.len(),
{
    broadcast use vstd::multiset::group_multiset_axioms;

    if s.len() == 0 {
        assert(t.to_multiset().len() == 0);
        assert(s.map_values(f) =~= t.map_values(f));
    } else {
        let x = s.last();
        let n = s.len() - 1;
        assert(s.to_multiset().count(x) > 0) by {
            assert(s.contains(x));
        }
        assert(t.contains(x));
        let k = choose|k: int| 0 <= k < t.len() && t[k] == x;
        assert(s.remove(n) =~= s.drop_last());
        assert(s.drop_last().to_multiset() =~= t.remove(k).to_multiset());
        lemma_map_keeps_permutation(s.drop_last(), t.remove(k), f);
        assert(s.map_values(f) =~= s.drop_last().map_values(f).push(f(x)));
        assert(t.map_values(f).remove(k) =~= t.remove(k).map_values(f));
        assert(t.map_values(f)[k] == f(x));
        assert(t.map_values(f).contains(f(x)));
        assert(t.map_values(f).to_multiset() =~= t.map_values(f).to_multiset().remove(f(x)).insert(
            f(x),
        ));
    }
}

proof fn lemma_permutation_keeps_unique_names(s: Seq<EntryModel>, u: Seq<EntryModel>)
    requires
        s.to_multiset() == u.to_multiset(),
        entry_names_unique(u),
    ensures
        entry_names_unique(s),
{
    assert(u.no_duplicates()) by {
        assert forall|i: int, j: int| 0 <= i < u.len() && 0 <= j < u.len() && i != j implies u[i]
            != u[j] by {
            if i < j {
                assert(u[i].name != u[j].name);
            } else {
                assert(u[j].name != u[i].name);
            }
        }
    }
    u.lemma_multiset_has_no_duplicates();
    s.lemma_multiset_has_no_duplicates_conv();
    assert forall|i: int, j: int| 0 <= i < j < s.len() implies (#[trigger] s[i]).name != (
    #[trigger] s[j]).name by {
        assert(s.contains(s[i]) && s.contains(s[j]));
        assert(s.to_multiset().count(s[i]) > 0 && s.to_multiset().count(s[j]) > 0);
        assert(u.to_multiset().count(s[i]) > 0 && u.to_multiset().count(s[j]) > 0);
        assert(u.contains(s[i]) && u.contains(s[j]));
        let a = choose|a: int| 0 <= a < u.len() && u[a] == s[i];
        let b = choose|b: int| 0 <= b < u.len() && u[b] == s[j];
        assert(s[i] != s[j]);
        if a < b {
            assert(u[a].name != u[b].name);
        } else {
            assert(u[b].name != u[a].name);
        }
    }
}

proof fn lemma_ordered_permutations_equal(s: Seq<EntryModel>, t: Seq<EntryModel>)
    requires
        s.to_multiset() == t.to_multiset(),
        is_ordered(s),
        is_ordered(t),
        entry_names_unique(s),
    ensures
        s == t,
    decreases s.len(),
{
    broadcast use vstd::multiset::group_multiset_axioms;

    if s.len() == 0 {
        assert(t.to_multiset().len() == 0);
        assert(s =~= t);
    } else {
        assert(s.contains(s[0]));
        assert(s.to_multiset().count(s[0]) > 0);
        assert(t.to_multiset().count(s[0]) > 0);
        assert(t.contains(s[0]));
        assert(t.len() > 0);
        assert(t.contains(t[0]));
        assert(t.to_multiset().count(t[0]) > 0);
        assert(s.to_multiset().count(t[0]) > 0);
        assert(s.contains(t[0]));
        let i = choose|i: int| 0 <= i < s.len() && s[i] == t[0];
        let j = choose|j: int| 0 <= j < t.len() && t[j] == s[0];
        if i != 0 {
            if j == 0 {
                assert(s[0].name != s[i].name);
            } else {
                assert(s[0].name != s[i].name);
                lemma_entry_lt_total(s[0], s[i]);
                assert(!entry_lt(s[i], s[0]));
                assert(!entry_lt(t[j], t[0]));
            }
        }
        assert(s[0] == t[0]);
        assert(s.remove(0) =~= s.drop_first());
        assert(t.remove(0) =~= t.drop_first());
        assert(s.drop_first().to_multiset() == t.drop_first().to_multiset());
        assert(is_ordered(s.drop_first())) by {
            assert forall|a: int, b: int| 0 <= a < b < s.drop_first().len() implies !entry_lt(
                #[trigger] s.drop_first()[b],
                #[trigger] s.drop_first()[a],
            ) by {
                assert(s.drop_first()[a] == s[a + 1] && s.drop_first()[b] == s[b + 1]);
            }
        }
        assert(is_ordered(t.drop_first())) by {
            assert forall|a: int, b: int| 0 <= a < b < t.drop_first().len() implies !entry_lt(
                #[trigger] t.drop_first()[b],
                #[trigger] t.drop_first()[a],
            ) by {
                assert(t.drop_first()[a] == t[a + 1] && t.drop_first()[b] == t[b + 1]);
            }
        }
        assert(entry_names_unique(s.drop_first())) by {
            assert forall|a: int, b: int| 0 <= a < b < s.drop_first().len() implies (
            #[trigger] s.drop_first()[a]).name != (#[trigger] s.drop_first()[b]).name by {
                assert(s.drop_first()[a] == s[a + 1] && s.drop_first()[b] == s[b + 1]);
            }
        }
        lemma_ordered_permutations_equal(s.drop_first(), t.drop_first());
        assert(s.len() == t.len()) by {
            assert(s.to_multiset().len() == s.len() && t.to_multiset().len() == t.len());
        }
        assert forall|k: int| 0 <= k < s.len() implies s[k] == t[k] by {
            if k > 0 {
                assert(s[k] == s.drop_first()[k - 1]);
                assert(t[k] == t.drop_first()[k - 1]);
            }
        }
        assert(s =~= t);
    }
}

/// Scanning is idempotent: two listings of one unchanged directory, in
/// whatever order the directory was read, scan to the same entries in the
/// same display order.
pub proof fn scan_is_idempotent(
    items1: Seq<(String, Item)>,
    items2: Seq<(String, Item)>,
    result1: Seq<EntryModel>,
    result2: Seq<EntryModel>,
)
    requires
        listing(items1).to_multiset() == listing(items2).to_multiset(),
        names_unique(listing(items1)),
        result1.to_multiset() == scanned(items1).to_multiset(),
        is_ordered(result1),
        result2.to_multiset() == scanned(items2).to_multiset(),
        is_ordered(result2),
    ensures
        result1 == result2,
{
    let f = |p: (Seq<char>, ItemModel)| entry_of(p.0, p.1);
    assert(scanned(items1) =~= listing(items1).map_values(f));
    assert(scanned(items2) =~= listing(items2).map_values(f));
    lemma_map_keeps_permutation(listing(items1), listing(items2), f);
    assert(entry_names_unique(scanned(items1))) by {
        assert forall|i: int, j: int| 0 <= i < j < scanned(items1).len() implies (
        #[trigger] scanned(items1)[i]).name != (#[trigger] scanned(items1)[j]).name by {
            assert(listing(items1)[i].0 != listing(items1)[j].0);
        }
    }
    lemma_permutation_keeps_unique_names(result1, scanned(items1));
    lemma_ordered_permutations_equal(result1, result2);
}

/// The file that linking writes for port `p` (its decimal text) scans back
/// as a port entry holding `p`; once it is in the registry under `name`, the
/// name is taken, so linking it again conflicts.
pub proof fn linked_port_reads_back(s: Seq<EntryModel>, name: Seq<char>, p: i32)
    ensures
        item_kind(ItemModel::File(int_text(p as int))) == KindModel::Port(p),
        has_name(s.push(entry_of(name, ItemModel::File(int_text(p as int)))), name),
{
    lemma_int_text_round_trip(p);
    integer_line_is_port(int_text(p as int), Seq::empty());
    let t = s.push(entry_of(name, ItemModel::File(int_text(p as int))));
    assert(t[s.len() as int].name == name);
}

} // verus!
