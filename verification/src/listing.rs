use vstd::prelude::*;

use crate::order::{
    lemma_str_less_irreflexive, lemma_str_less_total, lemma_str_less_transitive, str_less, str_less_exec,
};

verus! {

/// The code of `c`, with the ASCII capitals `A` to `Z` made small.
pub open spec fn ascii_lower(c: char) -> u32 {
    if 65 <= (c as u32) && (c as u32) <= 90 {
        ((c as u32) + 32) as u32
    } else {
        c as u32
    }
}

/// Whether `a` and `b` are equal when ASCII letters are compared without regard to case.
pub open spec fn eq_ignore_ascii_case(a: Seq<char>, b: Seq<char>) -> bool {
    &&& a.len() == b.len()
    &&& forall|i: int| 0 <= i < a.len() ==> ascii_lower(#[trigger] a[i]) == ascii_lower(b[i])
}

/// The position of the last `.` in `name`, or -1 when there is none.
pub open spec fn last_dot(name: Seq<char>) -> int
    decreases name.len(),
{
    if name.len() == 0 {
        -1
    } else if name.last() == '.' {
        name.len() - 1
    } else {
        last_dot(name.drop_last())
    }
}

/// The extension of a file name: what follows its last `.`, unless that dot is the name's
/// first character (or the name is `..`), in which case it has none.
pub open spec fn file_extension(name: Seq<char>) -> Option<Seq<char>> {
    if name.len() == 2 && name[0] == '.' && name[1] == '.' {
        None
    } else if last_dot(name) <= 0 {
        None
    } else {
        Some(name.subrange(last_dot(name) + 1, name.len() as int))
    }
}

/// Whether the file name `name` has the extension `extension`, ignoring ASCII case.
pub open spec fn has_extension(name: Seq<char>, extension: Seq<char>) -> bool {
    file_extension(name) matches Some(e) && eq_ignore_ascii_case(e, extension)
}

/// A directory entry as text: its file name and its path.
pub open spec fn entry_view(entry: (String, String)) -> (Seq<char>, Seq<char>) {
    (entry.0@, entry.1@)
}

/// The entries as text.
pub open spec fn entries_view(entries: Seq<(String, String)>) -> Seq<(Seq<char>, Seq<char>)> {
    entries.map_values(|e: (String, String)| entry_view(e))
}

/// The entries whose file name has the extension, in their order.
pub open spec fn with_extension(entries: Seq<(Seq<char>, Seq<char>)>, extension: Seq<char>) -> Seq<
    (Seq<char>, Seq<char>),
>
    decreases entries.len(),
{
    if entries.len() == 0 {
        Seq::empty()
    } else {
        let rest = with_extension(entries.drop_last(), extension);
        if has_extension(entries.last().0, extension) {
            rest.push(entries.last())
        } else {
            rest
        }
    }
}

/// Where `x` goes into `t`: after every entry whose name is not greater than its name, counted
/// from the end.
pub open spec fn insert_pos(t: Seq<(Seq<char>, Seq<char>)>, x: (Seq<char>, Seq<char>)) -> int
    decreases t.len(),
{
    if t.len() == 0 {
        0
    } else if str_less(x.0, t.last().0) {
        insert_pos(t.drop_last(), x)
    } else {
        t.len() as int
    }
}

/// The entries ordered by name, entries with equal names in their original order.
pub open spec fn sorted_by_name(s: Seq<(Seq<char>, Seq<char>)>) -> Seq<(Seq<char>, Seq<char>)>
    decreases s.len(),
{
    if s.len() == 0 {
        Seq::empty()
    } else {
        let t = sorted_by_name(s.drop_last());
        t.insert(insert_pos(t, s.last()), s.last())
    }
}

/// Whether the names in `s` never decrease.
pub open spec fn names_ordered(s: Seq<(Seq<char>, Seq<char>)>) -> bool {
    forall|i: int, j: int| 0 <= i < j < s.len() ==> !str_less(#[trigger] s[j].0, #[trigger] s[i].0)
}

/// The files of a folder with the given extension, by name.
pub open spec fn media_listing(entries: Seq<(String, String)>, extension: Seq<char>) -> Seq<(Seq<char>, Seq<char>)> {
    sorted_by_name(with_extension(entries_view(entries), extension))
}

proof fn lemma_not_less_transitive(a: Seq<char>, b: Seq<char>, c: Seq<char>)
    requires
        !str_less(b, a),
        !str_less(c, b),
    ensures
        !str_less(c, a),
{
    if str_less(c, a) {
        if a != b && b != c {
            lemma_str_less_total(a, b);
            lemma_str_less_total(b, c);
            lemma_str_less_transitive(a, b, c);
            lemma_str_less_transitive(a, c, a);
            lemma_str_less_irreflexive(a);
        }
    }
}

proof fn lemma_less_asymmetric(a: Seq<char>, b: Seq<char>)
    requires
        str_less(a, b),
    ensures
        !str_less(b, a),
{
    if str_less(b, a) {
        lemma_str_less_transitive(a, b, a);
        lemma_str_less_irreflexive(a);
    }
}

proof fn lemma_insert_pos(t: Seq<(Seq<char>, Seq<char>)>, x: (Seq<char>, Seq<char>))
    ensures
        0 <= insert_pos(t, x) <= t.len(),
        forall|k: int| insert_pos(t, x) <= k < t.len() ==> str_less(x.0, #[trigger] t[k].0),
        insert_pos(t, x) > 0 ==> !str_less(x.0, t[insert_pos(t, x) - 1].0),
    decreases t.len(),
{
    if t.len() > 0 && str_less(x.0, t.last().0) {
        let init = t.drop_last();
        lemma_insert_pos(init, x);
        assert forall|k: int| insert_pos(t, x) <= k < t.len() implies str_less(x.0, #[trigger] t[k].0) by {
            if k < init.len() {
                assert(t[k] == init[k]);
            }
        }
        if insert_pos(t, x) > 0 {
            assert(t[insert_pos(t, x) - 1] == init[insert_pos(t, x) - 1]);
        }
    }
}

/// Ordering by name gives the same entries, with names that never decrease.
pub proof fn law_sorted_by_name(s: Seq<(Seq<char>, Seq<char>)>)
    ensures
        names_ordered(sorted_by_name(s)),
        sorted_by_name(s).to_multiset() == s.to_multiset(),
        sorted_by_name(s).len() == s.len(),
    decreases s.len(),
{
    broadcast use vstd::seq_lib::group_to_multiset_ensures;

    if s.len() > 0 {
        let init = s.drop_last();
        let x = s.last();
        law_sorted_by_name(init);
        let t = sorted_by_name(init);
        let pos = insert_pos(t, x);
        lemma_insert_pos(t, x);
        let u = t.insert(pos, x);
        assert(sorted_by_name(s) == u);
        assert forall|i: int, j: int| 0 <= i < j < u.len() implies !str_less(#[trigger] u[j].0, #[trigger] u[i].0) by {
            if j < pos {
                assert(u[i] == t[i] && u[j] == t[j]);
            } else if i > pos {
                assert(u[i] == t[i - 1] && u[j] == t[j - 1]);
            } else if i < pos && j == pos {
                assert(u[i] == t[i] && u[j] == x);
                if i < pos - 1 {
                    lemma_not_less_transitive(t[i].0, t[pos - 1].0, x.0);
                }
            } else if i == pos {
                assert(u[i] == x && u[j] == t[j - 1]);
                lemma_less_asymmetric(x.0, t[j - 1].0);
            } else {
                assert(u[i] == t[i] && u[j] == t[j - 1]);
            }
        }
        vstd::seq_lib::to_multiset_insert(t, pos, x);
        assert(s == init.push(x));
        vstd::seq_lib::to_multiset_build(init, x);
    }
}

/// `ascii_lower` of `c`.
fn ascii_lower_code(c: char) -> (r: u32)
    ensures
        r == ascii_lower(c),
{
    let code = c as u32;
    if 65 <= code && code <= 90 {
        code + 32
    } else {
        code
    }
}

/// Whether the file name `name` has the extension `extension`, ignoring ASCII case.
pub fn name_has_extension(name: &str, extension: &str) -> (r: bool)
    ensures
        r == has_extension(name@, extension@),
{
    let len = name.unicode_len();
    if len == 2 && name.get_char(0) == '.' && name.get_char(1) == '.' {
        return false;
    }
    let mut d = len;
    assert(name@.take(len as int) =~= name@);
    while d > 0 && name.get_char(d - 1) != '.'
        invariant
            len == name@.len(),
            d <= len,
            last_dot(name@) == last_dot(name@.take(d as int)),
        decreases d,
    {
        assert(name@.take(d as int).drop_last() =~= name@.take(d - 1));
        d -= 1;
    }
    if d > 0 {
        assert(name@.take(d as int).last() == name@[d - 1]);
    }
    if d <= 1 {
        return false;
    }
    let elen = extension.unicode_len();
    if len - d != elen {
        return false;
    }
    let ghost e = name@.subrange(d as int, len as int);
    let mut j: usize = 0;
    while j < elen
        invariant
            len == name@.len(),
            elen == extension@.len(),
            1 < d <= len,
            len - d == elen,
            e == name@.subrange(d as int, len as int),
            last_dot(name@) == d - 1,
            !(name@.len() == 2 && name@[0] == '.' && name@[1] == '.'),
            j <= elen,
            forall|i: int| 0 <= i < j ==> ascii_lower(#[trigger] e[i]) == ascii_lower(extension@[i]),
        decreases elen - j,
    {
        assert(e[j as int] == name@[d + j]);
        if ascii_lower_code(name.get_char(d + j)) != ascii_lower_code(extension.get_char(j)) {
            assert(file_extension(name@) == Some(e));
            assert(ascii_lower(e[j as int]) != ascii_lower(extension@[j as int]));
            return false;
        }
        j += 1;
    }
    assert(file_extension(name@) == Some(e));
    true
}

/// The paths of the files of a folder (given as file name and path) whose name has the
/// extension `extension`, ignoring ASCII case, ordered by file name; files with equal names keep
/// their order.
pub fn media_files(entries: &Vec<(String, String)>, extension: &str) -> (r: Vec<String>)
    ensures
        r@.len() == media_listing(entries@, extension@).len(),
        forall|i: int| 0 <= i < r@.len() ==> (#[trigger] r@[i])@ == media_listing(entries@, extension@)[i].1,
        names_ordered(media_listing(entries@, extension@)),
        media_listing(entries@, extension@).to_multiset() == with_extension(entries_view(entries@), extension@).to_multiset(),
{
    let ghost all = entries_view(entries@);
    let mut sorted: Vec<(String, String)> = Vec::new();
    let mut i: usize = 0;
    assert(all.take(0) =~= Seq::<(Seq<char>, Seq<char>)>::empty());
    while i < entries.len()
        invariant
            all == entries_view(entries@),
            i <= entries.len(),
            entries_view(sorted@) == sorted_by_name(with_extension(all.take(i as int), extension@)),
        decreases entries.len() - i,
    {
        assert(all.take(i + 1).drop_last() =~= all.take(i as int));
        assert(all.take(i + 1).last() == all[i as int]);
        assert(all[i as int] == entry_view(entries@[i as int]));
        if name_has_extension(entries[i].0.as_str(), extension) {
            let item = (entries[i].0.clone(), entries[i].1.clone());
            let ghost x = entry_view(item);
            let ghost t = entries_view(sorted@);
            assert(with_extension(all.take(i + 1), extension@) == with_extension(all.take(i as int), extension@).push(
                all[i as int],
            ));
            let mut k = sorted.len();
            assert(t.take(k as int) =~= t);
            while k > 0 && str_less_exec(item.0.as_str(), sorted[k - 1].0.as_str())
                invariant
                    t == entries_view(sorted@),
                    k <= sorted@.len(),
                    x == entry_view(item),
                    insert_pos(t, x) == insert_pos(t.take(k as int), x),
                decreases k,
            {
                assert(t.take(k as int).drop_last() =~= t.take(k - 1));
                assert(t.take(k as int).last() == t[k - 1]);
                k -= 1;
            }
            if k > 0 {
                assert(t.take(k as int).last() == t[k - 1]);
            } else {
                assert(t.take(0) =~= Seq::<(Seq<char>, Seq<char>)>::empty());
            }
            assert(insert_pos(t, x) == k as int);
            assert(x == all[i as int]);
            let ghost w = with_extension(all.take(i as int), extension@);
            assert(w.push(x).drop_last() =~= w);
            assert(sorted_by_name(w.push(x)) == t.insert(k as int, x));
            sorted.insert(k, item);
            assert(entries_view(sorted@) =~= t.insert(k as int, x));
        } else {
            assert(with_extension(all.take(i + 1), extension@) == with_extension(all.take(i as int), extension@));
        }
        i += 1;
    }
    assert(all.take(i as int) =~= all);
    let mut out: Vec<String> = Vec::new();
    let mut j: usize = 0;
    while j < sorted.len()
        invariant
            j <= sorted.len(),
            out@.len() == j,
            forall|m: int| 0 <= m < j ==> (#[trigger] out@[m])@ == sorted@[m].1@,
        decreases sorted.len() - j,
    {
        let path = sorted[j].1.clone();
        out.push(path);
        j += 1;
    }
    proof {
        law_sorted_by_name(with_extension(all, extension@));
        assert forall|m: int| 0 <= m < out@.len() implies (#[trigger] out@[m])@ == media_listing(entries@, extension@)[m].1 by {
            assert(entries_view(sorted@)[m] == entry_view(sorted@[m]));
        }
    }
    out
}

} // verus!
