//! The entries of the shortcut overlay: numbered "Go to tab" bindings are
//! shown as one range entry.

use vstd::prelude::*;

use crate::help_filter::HelpSection;
use crate::text::{chars_of, chars_start_with, spec_is_ascii_digit, starts_with, str_eq, string_push, string_push_str};

verus! {

/// The digit of a binding `(key, label)` of the form `("alt+N", "Go to tab N")`
/// with `N` one ASCII digit, or `None` for any other binding.
pub open spec fn tab_digit(key: Seq<char>, label: Seq<char>) -> Option<char> {
    let lp = "Go to tab "@;
    let kp = "alt+"@;
    if label.len() == lp.len() + 1 && starts_with(label, lp) && spec_is_ascii_digit(label[lp.len() as int])
        && key.len() == kp.len() + 1 && starts_with(key, kp) && key[kp.len() as int] == label[lp.len() as int] {
        Some(label[lp.len() as int])
    } else {
        None
    }
}

pub open spec fn binding_digit(b: (String, String)) -> Option<char> {
    tab_digit(b.0@, b.1@)
}

/// The digits of the numbered tab bindings in `s`, in order.
pub open spec fn tab_digits(s: Seq<(String, String)>) -> Seq<char>
    decreases s.len(),
{
    if s.len() == 0 {
        Seq::empty()
    } else {
        match binding_digit(s[0]) {
            Some(d) => seq![d] + tab_digits(s.drop_first()),
            None => tab_digits(s.drop_first()),
        }
    }
}

/// The bindings of `s` that are not numbered tab bindings, in order.
pub open spec fn other_bindings(s: Seq<(String, String)>) -> Seq<(String, String)>
    decreases s.len(),
{
    if s.len() == 0 {
        Seq::empty()
    } else {
        match binding_digit(s[0]) {
            Some(_) => other_bindings(s.drop_first()),
            None => seq![s[0]] + other_bindings(s.drop_first()),
        }
    }
}

/// `c` is the least element of `s`.
pub open spec fn is_least(c: char, s: Seq<char>) -> bool {
    s.contains(c) && forall|i: int| 0 <= i < s.len() ==> c <= #[trigger] s[i]
}

/// `c` is the greatest element of `s`.
pub open spec fn is_greatest(c: char, s: Seq<char>) -> bool {
    s.contains(c) && forall|i: int| 0 <= i < s.len() ==> #[trigger] s[i] <= c
}

proof fn lemma_skip_step<T>(s: Seq<T>, j: int)
    requires
        0 < j <= s.len(),
    ensures
        s.skip(j - 1).len() > 0,
        s.skip(j - 1)[0] == s[j - 1],
        s.skip(j - 1).drop_first() == s.skip(j),
{
    assert(s.skip(j - 1).drop_first() =~= s.skip(j));
}

proof fn lemma_tab_digits_len(s: Seq<(String, String)>)
    ensures
        tab_digits(s).len() <= s.len(),
    decreases s.len(),
{
    if s.len() > 0 {
        lemma_tab_digits_len(s.drop_first());
    }
}

fn binding_tab_digit(key: &String, label: &String) -> (r: Option<char>)
    ensures
        r == tab_digit(key@, label@),
{
    let lp = chars_of("Go to tab ");
    let kp = chars_of("alt+");
    let lc = chars_of(label.as_str());
    let kc = chars_of(key.as_str());
    if lc.len() > lp.len() && lc.len() - lp.len() == 1 && kc.len() > kp.len() && kc.len() - kp.len() == 1
        && chars_start_with(&lc, &lp) && chars_start_with(&kc, &kp) {
        let d = lc[lp.len()];
        if '0' <= d && d <= '9' && kc[kp.len()] == d {
            return Some(d);
        }
    }
    None
}

/// The least character of a non-empty `ds`.
pub open spec fn least_char(ds: Seq<char>) -> char
    decreases ds.len(),
{
    if ds.len() <= 1 {
        ds[0]
    } else {
        let m = least_char(ds.drop_last());
        if ds.last() < m {
            ds.last()
        } else {
            m
        }
    }
}

/// The greatest character of a non-empty `ds`.
pub open spec fn greatest_char(ds: Seq<char>) -> char
    decreases ds.len(),
{
    if ds.len() <= 1 {
        ds[0]
    } else {
        let m = greatest_char(ds.drop_last());
        if ds.last() > m {
            ds.last()
        } else {
            m
        }
    }
}

proof fn lemma_least_greatest(ds: Seq<char>)
    requires
        ds.len() > 0,
    ensures
        is_least(least_char(ds), ds),
        is_greatest(greatest_char(ds), ds),
    decreases ds.len(),
{
    if ds.len() == 1 {
        assert(ds[0] == ds[0]);
        assert(ds.contains(ds[0]));
    } else {
        let init = ds.drop_last();
        lemma_least_greatest(init);
        let m = least_char(init);
        let g = greatest_char(init);
        assert forall|i: int| 0 <= i < ds.len() implies least_char(ds) <= #[trigger] ds[i] && ds[i] <= greatest_char(ds) by {
            if i < init.len() {
                assert(ds[i] == init[i]);
            }
        }
        if ds.last() < m {
            assert(ds[ds.len() - 1] == ds.last());
        } else {
            assert(ds[init.index_of(m)] == m);
        }
        if ds.last() > g {
            assert(ds[ds.len() - 1] == ds.last());
        } else {
            assert(ds[init.index_of(g)] == g);
        }
    }
}

/// The bindings as shown after consolidation: unchanged with fewer than
/// three numbered tab bindings; otherwise the other bindings followed by one
/// range entry from the least to the greatest digit.
pub open spec fn consolidated(s: Seq<(String, String)>) -> Seq<(Seq<char>, Seq<char>)> {
    let ds = tab_digits(s);
    if ds.len() < 3 {
        s.map_values(|x: (String, String)| pair_view(x))
    } else {
        let range = seq![least_char(ds), '-', greatest_char(ds)];
        other_bindings(s).map_values(|x: (String, String)| pair_view(x)).push(("alt+"@ + range, "Go to tab "@ + range))
    }
}

/// Replaces the numbered bindings `alt+N` → `Go to tab N` (`N` one digit),
/// when there are at least three of them, by one entry `alt+F-L` →
/// `Go to tab F-L` at the end, where `F` and `L` are the least and the
/// greatest of their digits. The other bindings keep their order.
pub fn consolidate_numbered_bindings(bindings: &mut Vec<(String, String)>)
    ensures
        ({
            let digits = tab_digits(old(bindings)@);
            let rest = other_bindings(old(bindings)@);
            if digits.len() < 3 {
                final(bindings)@ == old(bindings)@
            } else {
                &&& final(bindings)@.len() == rest.len() + 1
                &&& final(bindings)@.take(rest.len() as int) == rest
                &&& exists|first: char, last: char|
                    #![trigger is_least(first, digits), is_greatest(last, digits)]
                    {
                        &&& is_least(first, digits)
                        &&& is_greatest(last, digits)
                        &&& final(bindings)@.last().0@ == "alt+"@ + seq![first, '-', last]
                        &&& final(bindings)@.last().1@ == "Go to tab "@ + seq![first, '-', last]
                    }
            }
        }),
        final(bindings)@.map_values(|x: (String, String)| pair_view(x)) == consolidated(old(bindings)@),
{
    let ghost start = bindings@;
    let mut count: usize = 0;
    let mut first: char = '0';
    let mut last: char = '0';
    let mut j: usize = bindings.len();
    proof {
        assert(start.skip(start.len() as int) =~= Seq::<(String, String)>::empty());
    }
    while j > 0
        invariant
            j <= start.len(),
            bindings@ == start,
            count == tab_digits(start.skip(j as int)).len(),
            count > 0 ==> is_least(first, tab_digits(start.skip(j as int))) && is_greatest(
                last,
                tab_digits(start.skip(j as int)),
            ),
        decreases j,
    {
        proof {
            lemma_skip_step(start, j as int);
            lemma_tab_digits_len(start.skip(j as int));
        }
        assert(count < bindings.len());
        let ghost before = tab_digits(start.skip(j as int));
        let d = binding_tab_digit(&bindings[j - 1].0, &bindings[j - 1].1);
        if let Some(c) = d {
            let ghost after = seq![c] + before;
            assert(tab_digits(start.skip(j - 1)) == after);
            if count == 0 || c < first {
                first = c;
            }
            if count == 0 || c > last {
                last = c;
            }
            count = count + 1;
            proof {
                assert(after[0] == c);
                assert forall|i: int| 0 <= i < after.len() implies first <= #[trigger] after[i] && after[i] <= last by {
                    if i > 0 {
                        assert(after[i] == before[i - 1]);
                    }
                }
                if first == c {
                    assert(after.contains(first));
                } else {
                    assert(after[before.index_of(first) + 1] == first);
                }
                if last == c {
                    assert(after.contains(last));
                } else {
                    assert(after[before.index_of(last) + 1] == last);
                }
            }
        }
        j = j - 1;
    }
    proof {
        assert(start.skip(0) =~= start);
    }
    if count < 3 {
        proof {
            assert(bindings@.map_values(|x: (String, String)| pair_view(x)) == consolidated(start));
        }
        return;
    }
    let mut j: usize = bindings.len();
    proof {
        assert(start.take(start.len() as int) =~= start);
        assert(other_bindings(start.skip(start.len() as int)) =~= Seq::<(String, String)>::empty());
    }
    while j > 0
        invariant
            j <= start.len(),
            bindings@ == start.take(j as int) + other_bindings(start.skip(j as int)),
        decreases j,
    {
        proof {
            lemma_skip_step(start, j as int);
        }
        let ghost kept = other_bindings(start.skip(j as int));
        assert(bindings@[j - 1] == start[j - 1]);
        let d = binding_tab_digit(&bindings[j - 1].0, &bindings[j - 1].1);
        if d.is_some() {
            bindings.remove(j - 1);
            proof {
                assert(bindings@ =~= start.take(j - 1) + kept);
            }
        } else {
            proof {
                assert(other_bindings(start.skip(j - 1)) == seq![start[j - 1]] + kept);
                assert(start.take(j as int) + kept =~= start.take(j - 1) + (seq![start[j - 1]] + kept));
            }
        }
        j = j - 1;
    }
    proof {
        assert(start.take(0) + other_bindings(start) =~= other_bindings(start));
    }
    let ghost rest = bindings@;
    let mut key = String::new();
    string_push_str(&mut key, "alt+");
    string_push(&mut key, first);
    string_push(&mut key, '-');
    string_push(&mut key, last);
    let mut label = String::new();
    string_push_str(&mut label, "Go to tab ");
    string_push(&mut label, first);
    string_push(&mut label, '-');
    string_push(&mut label, last);
    bindings.push((key, label));
    proof {
        assert(bindings@.take(rest.len() as int) =~= rest);
        assert(key@ =~= "alt+"@ + seq![first, '-', last]);
        assert(label@ =~= "Go to tab "@ + seq![first, '-', last]);
        assert(is_least(first, tab_digits(start)) && is_greatest(last, tab_digits(start)));
        let ds = tab_digits(start);
        lemma_least_greatest(ds);
        let lf = least_char(ds);
        let gl = greatest_char(ds);
        assert(first <= lf && lf <= first) by {
            assert(ds[ds.index_of(lf)] == lf);
            assert(ds[ds.index_of(first)] == first);
        }
        assert(last <= gl && gl <= last) by {
            assert(ds[ds.index_of(gl)] == gl);
            assert(ds[ds.index_of(last)] == last);
        }
        let f = |x: (String, String)| pair_view(x);
        assert(bindings@.map_values(f) =~= rest.map_values(f).push(pair_view(bindings@.last())));
        assert(bindings@.map_values(f) =~= consolidated(start));
    }
}

/// `a` sorts before `b`: the order of `String` comparison, which is the
/// lexicographic order of the characters' code points.
pub open spec fn text_less(a: Seq<char>, b: Seq<char>) -> bool
    decreases a.len(),
{
    if b.len() == 0 {
        false
    } else if a.len() == 0 {
        true
    } else if (a[0] as u32) < (b[0] as u32) {
        true
    } else if (a[0] as u32) > (b[0] as u32) {
        false
    } else {
        text_less(a.drop_first(), b.drop_first())
    }
}

/// Whether `a` sorts before `b`.
pub fn text_lt(a: &str, b: &str) -> (r: bool)
    ensures
        r == text_less(a@, b@),
{
    let ca = chars_of(a);
    let cb = chars_of(b);
    let mut i: usize = 0;
    proof {
        assert(ca@.skip(0) =~= ca@);
        assert(cb@.skip(0) =~= cb@);
    }
    while i < ca.len() && i < cb.len()
        invariant
            i <= ca@.len(),
            i <= cb@.len(),
            text_less(a@, b@) == text_less(ca@.skip(i as int), cb@.skip(i as int)),
            ca@ == a@,
            cb@ == b@,
        decreases ca@.len() - i,
    {
        let x = ca[i];
        let y = cb[i];
        proof {
            assert(ca@.skip(i as int)[0] == x);
            assert(cb@.skip(i as int)[0] == y);
        }
        if (x as u32) < (y as u32) {
            return true;
        }
        if (x as u32) > (y as u32) {
            return false;
        }
        proof {
            assert(ca@.skip(i as int).drop_first() =~= ca@.skip(i + 1));
            assert(cb@.skip(i as int).drop_first() =~= cb@.skip(i + 1));
        }
        i = i + 1;
    }
    cb.len() > i
}

/// A binding as plain values: key and label.
pub open spec fn pair_view(b: (String, String)) -> (Seq<char>, Seq<char>) {
    (b.0@, b.1@)
}

/// `sorted` with `b` placed after every entry whose key does not sort after `b`'s.
pub open spec fn insert_by_key(sorted: Seq<(Seq<char>, Seq<char>)>, b: (Seq<char>, Seq<char>)) -> Seq<(Seq<char>, Seq<char>)>
    decreases sorted.len(),
{
    if sorted.len() == 0 {
        seq![b]
    } else if !text_less(b.0, sorted.last().0) {
        sorted.push(b)
    } else {
        insert_by_key(sorted.drop_last(), b).push(sorted.last())
    }
}

/// The stable sort of `s` by key.
pub open spec fn sort_by_key(s: Seq<(Seq<char>, Seq<char>)>) -> Seq<(Seq<char>, Seq<char>)>
    decreases s.len(),
{
    if s.len() == 0 {
        s
    } else {
        insert_by_key(sort_by_key(s.drop_last()), s.last())
    }
}

fn insert_pair_sorted(sorted: &mut Vec<(String, String)>, b: (String, String))
    ensures
        final(sorted)@.map_values(|x: (String, String)| pair_view(x)) == insert_by_key(
            old(sorted)@.map_values(|x: (String, String)| pair_view(x)),
            pair_view(b),
        ),
{
    let ghost f = |x: (String, String)| pair_view(x);
    let ghost old_view = sorted@.map_values(f);
    let ghost bv = pair_view(b);
    let mut p = sorted.len();
    proof {
        assert(old_view.take(p as int) =~= old_view);
        assert(old_view.skip(p as int) =~= Seq::<(Seq<char>, Seq<char>)>::empty());
        assert(insert_by_key(old_view, bv) + Seq::<(Seq<char>, Seq<char>)>::empty() =~= insert_by_key(old_view, bv));
    }
    while p > 0 && text_lt(b.0.as_str(), sorted[p - 1].0.as_str())
        invariant
            p <= sorted@.len(),
            sorted@.map_values(f) == old_view,
            f == (|x: (String, String)| pair_view(x)),
            bv == pair_view(b),
            insert_by_key(old_view, bv) == insert_by_key(old_view.take(p as int), bv) + old_view.skip(p as int),
        decreases p,
    {
        proof {
            let t = old_view.take(p as int);
            assert(t.last() == old_view[p - 1]);
            assert(t.drop_last() =~= old_view.take(p - 1));
            assert(old_view.skip(p - 1) =~= seq![old_view[p - 1]] + old_view.skip(p as int));
            assert(insert_by_key(old_view.take(p - 1), bv).push(t.last()) + old_view.skip(p as int)
                =~= insert_by_key(old_view.take(p - 1), bv) + old_view.skip(p - 1));
        }
        p = p - 1;
    }
    proof {
        let t = old_view.take(p as int);
        if p == 0 {
            assert(t =~= Seq::<(Seq<char>, Seq<char>)>::empty());
        } else {
            assert(t.last() == old_view[p - 1]);
        }
        assert(insert_by_key(t, bv) =~= t.push(bv));
    }
    sorted.insert(p, b);
    proof {
        assert(sorted@.map_values(f) =~= old_view.take(p as int).push(bv) + old_view.skip(p as int));
    }
}

/// Sorts bindings by key, keeping the order of equal keys.
pub fn sort_bindings_by_key(bindings: &Vec<(String, String)>) -> (r: Vec<(String, String)>)
    ensures
        r@.map_values(|x: (String, String)| pair_view(x)) == sort_by_key(
            bindings@.map_values(|x: (String, String)| pair_view(x)),
        ),
{
    let ghost f = |x: (String, String)| pair_view(x);
    let mut out: Vec<(String, String)> = Vec::new();
    let mut i: usize = 0;
    proof {
        assert(bindings@.take(0).map_values(f) =~= Seq::<(Seq<char>, Seq<char>)>::empty());
    }
    while i < bindings.len()
        invariant
            i <= bindings@.len(),
            f == (|x: (String, String)| pair_view(x)),
            out@.map_values(f) == sort_by_key(bindings@.take(i as int).map_values(f)),
        decreases bindings@.len() - i,
    {
        let b = (bindings[i].0.clone(), bindings[i].1.clone());
        proof {
            let pre = bindings@.take(i as int).map_values(f);
            let now = bindings@.take(i + 1).map_values(f);
            assert(now.drop_last() =~= pre);
            assert(now.last() == pair_view(bindings@[i as int]));
            assert(pair_view(b) == pair_view(bindings@[i as int]));
        }
        insert_pair_sorted(&mut out, b);
        i = i + 1;
    }
    proof {
        assert(bindings@.take(bindings@.len() as int) =~= bindings@);
    }
    out
}

/// The categories shown first, in this order.
pub open spec fn known_categories() -> Seq<Seq<char>> {
    seq!["General"@, "Tabs"@, "Panes"@, "Zoom"@, "Scrollback"@, "Search"@, "Help"@]
}

/// The bindings `(key, label)` of the entries `(category, key, label)` in
/// category `cat`, in order.
pub open spec fn bindings_in(entries: Seq<(String, String, String)>, cat: Seq<char>) -> Seq<(String, String)>
    decreases entries.len(),
{
    if entries.len() == 0 {
        seq![]
    } else {
        let rest = bindings_in(entries.drop_last(), cat);
        let e = entries.last();
        if e.0@ == cat {
            rest.push((e.1, e.2))
        } else {
            rest
        }
    }
}

/// The other categories, each once, in order of first appearance.
pub open spec fn other_categories(entries: Seq<(String, String, String)>) -> Seq<Seq<char>>
    decreases entries.len(),
{
    if entries.len() == 0 {
        seq![]
    } else {
        let rest = other_categories(entries.drop_last());
        let c = entries.last().0@;
        if known_categories().contains(c) || rest.contains(c) {
            rest
        } else {
            rest.push(c)
        }
    }
}

/// `sorted` with `c` placed after every name that does not sort after it.
pub open spec fn insert_name(sorted: Seq<Seq<char>>, c: Seq<char>) -> Seq<Seq<char>>
    decreases sorted.len(),
{
    if sorted.len() == 0 {
        seq![c]
    } else if !text_less(c, sorted.last()) {
        sorted.push(c)
    } else {
        insert_name(sorted.drop_last(), c).push(sorted.last())
    }
}

/// The names sorted in `String` order.
pub open spec fn sort_names(s: Seq<Seq<char>>) -> Seq<Seq<char>>
    decreases s.len(),
{
    if s.len() == 0 {
        s
    } else {
        insert_name(sort_names(s.drop_last()), s.last())
    }
}

/// The section shown for category `cat`: its bindings, consolidated and
/// sorted by key.
pub open spec fn section_for(entries: Seq<(String, String, String)>, cat: Seq<char>) -> (Seq<char>, Seq<(Seq<char>, Seq<char>)>) {
    (cat, sort_by_key(consolidated(bindings_in(entries, cat))))
}

/// The sections of the shortcut overlay: the known categories that have
/// bindings, in their fixed order, then the other categories by name.
pub open spec fn help_sections(entries: Seq<(String, String, String)>) -> Seq<(Seq<char>, Seq<(Seq<char>, Seq<char>)>)> {
    known_categories().filter(|c: Seq<char>| bindings_in(entries, c).len() > 0).map_values(
        |c: Seq<char>| section_for(entries, c),
    ) + sort_names(other_categories(entries)).map_values(|c: Seq<char>| section_for(entries, c))
}

/// A help section as plain values.
pub open spec fn help_section_view(h: HelpSection) -> (Seq<char>, Seq<(Seq<char>, Seq<char>)>) {
    (h.title@, h.bindings@.map_values(|x: (String, String)| pair_view(x)))
}

fn collect_bindings(entries: &Vec<(String, String, String)>, cat: &str) -> (r: Vec<(String, String)>)
    ensures
        r@ == bindings_in(entries@, cat@),
{
    let mut out: Vec<(String, String)> = Vec::new();
    let mut i: usize = 0;
    proof {
        assert(entries@.take(0) =~= Seq::<(String, String, String)>::empty());
    }
    while i < entries.len()
        invariant
            i <= entries@.len(),
            out@ == bindings_in(entries@.take(i as int), cat@),
        decreases entries@.len() - i,
    {
        proof {
            assert(entries@.take(i + 1).drop_last() =~= entries@.take(i as int));
            assert(entries@.take(i + 1).last() == entries@[i as int]);
        }
        if str_eq(entries[i].0.as_str(), cat) {
            out.push((entries[i].1.clone(), entries[i].2.clone()));
        }
        i = i + 1;
    }
    proof {
        assert(entries@.take(entries@.len() as int) =~= entries@);
    }
    out
}

fn build_section(entries: &Vec<(String, String, String)>, cat: &str) -> (r: HelpSection)
    ensures
        help_section_view(r) == section_for(entries@, cat@),
{
    let mut bindings = collect_bindings(entries, cat);
    consolidate_numbered_bindings(&mut bindings);
    let sorted = sort_bindings_by_key(&bindings);
    HelpSection { title: cat.to_string(), bindings: sorted }
}

fn insert_name_sorted(sorted: &mut Vec<String>, c: String)
    ensures
        final(sorted)@.map_values(|x: String| x@) == insert_name(old(sorted)@.map_values(|x: String| x@), c@),
{
    let ghost f = |x: String| x@;
    let ghost old_view = sorted@.map_values(f);
    let ghost cv = c@;
    let mut p = sorted.len();
    proof {
        assert(old_view.take(p as int) =~= old_view);
        assert(old_view.skip(p as int) =~= Seq::<Seq<char>>::empty());
        assert(insert_name(old_view, cv) + Seq::<Seq<char>>::empty() =~= insert_name(old_view, cv));
    }
    while p > 0 && text_lt(c.as_str(), sorted[p - 1].as_str())
        invariant
            p <= sorted@.len(),
            sorted@.map_values(f) == old_view,
            f == (|x: String| x@),
            cv == c@,
            insert_name(old_view, cv) == insert_name(old_view.take(p as int), cv) + old_view.skip(p as int),
        decreases p,
    {
        proof {
            let t = old_view.take(p as int);
            assert(t.last() == old_view[p - 1]);
            assert(t.drop_last() =~= old_view.take(p - 1));
            assert(old_view.skip(p - 1) =~= seq![old_view[p - 1]] + old_view.skip(p as int));
            assert(insert_name(old_view.take(p - 1), cv).push(t.last()) + old_view.skip(p as int)
                =~= insert_name(old_view.take(p - 1), cv) + old_view.skip(p - 1));
        }
        p = p - 1;
    }
    proof {
        let t = old_view.take(p as int);
        if p == 0 {
            assert(t =~= Seq::<Seq<char>>::empty());
        } else {
            assert(t.last() == old_view[p - 1]);
        }
        assert(insert_name(t, cv) =~= t.push(cv));
    }
    sorted.insert(p, c);
    proof {
        assert(sorted@.map_values(f) =~= old_view.take(p as int).push(cv) + old_view.skip(p as int));
    }
}

fn contains_name(names: &Vec<String>, c: &str) -> (r: bool)
    ensures
        r == names@.map_values(|x: String| x@).contains(c@),
{
    let ghost f = |x: String| x@;
    let mut i: usize = 0;
    while i < names.len()
        invariant
            i <= names@.len(),
            f == (|x: String| x@),
            forall|j: int| 0 <= j < i ==> names@[j]@ != c@,
        decreases names@.len() - i,
    {
        if str_eq(names[i].as_str(), c) {
            proof {
                assert(names@.map_values(f)[i as int] == c@);
            }
            return true;
        }
        i = i + 1;
    }
    proof {
        if names@.map_values(f).contains(c@) {
            let k = names@.map_values(f).index_of(c@);
            assert(names@[k]@ == c@);
        }
    }
    false
}

fn known_category_names() -> (r: Vec<&'static str>)
    ensures
        r@.map_values(|x: &'static str| x@) == known_categories(),
{
    let v = vec!["General", "Tabs", "Panes", "Zoom", "Scrollback", "Search", "Help"];
    proof {
        assert(v@.map_values(|x: &'static str| x@) =~= known_categories());
    }
    v
}

/// Builds the sections of the shortcut overlay from the bindings to list,
/// given as `(category, key, label)`: each category's bindings consolidated
/// and sorted by key; first the known categories in their fixed order, then
/// the others by name.
pub fn build_help_sections(entries: &Vec<(String, String, String)>) -> (r: Vec<HelpSection>)
    ensures
        r@.map_values(|h: HelpSection| help_section_view(h)) == help_sections(entries@),
{
    let ghost hv = |h: HelpSection| help_section_view(h);
    let ghost present = |c: Seq<char>| bindings_in(entries@, c).len() > 0;
    let ghost sect = |c: Seq<char>| section_for(entries@, c);
    let known = known_category_names();
    let ghost kv = known@.map_values(|x: &'static str| x@);
    let mut out: Vec<HelpSection> = Vec::new();
    let mut i: usize = 0;
    proof {
        assert(kv.take(0).filter(present) =~= Seq::<Seq<char>>::empty()) by {
            reveal_with_fuel(Seq::filter, 1);
        }
        assert(out@.map_values(hv) =~= kv.take(0).filter(present).map_values(sect));
    }
    while i < known.len()
        invariant
            i <= known@.len(),
            kv == known@.map_values(|x: &'static str| x@),
            hv == (|h: HelpSection| help_section_view(h)),
            present == (|c: Seq<char>| bindings_in(entries@, c).len() > 0),
            sect == (|c: Seq<char>| section_for(entries@, c)),
            out@.map_values(hv) == kv.take(i as int).filter(present).map_values(sect),
        decreases known@.len() - i,
    {
        let cat = known[i];
        let found = collect_bindings(entries, cat);
        proof {
            reveal_with_fuel(Seq::filter, 1);
            assert(kv.take(i + 1).drop_last() =~= kv.take(i as int));
            assert(kv.take(i + 1).last() == cat@);
        }
        if found.len() > 0 {
            let section = build_section(entries, cat);
            let ghost before = out@;
            out.push(section);
            proof {
                assert(out@.map_values(hv) =~= before.map_values(hv).push(help_section_view(section)));
                assert(kv.take(i + 1).filter(present) == kv.take(i as int).filter(present).push(cat@));
            }
        }
        i = i + 1;
    }
    proof {
        assert(kv.take(kv.len() as int) =~= kv);
    }
    let ghost known_part = out@.map_values(hv);
    let mut others: Vec<String> = Vec::new();
    let ghost nv = |x: String| x@;
    let mut j: usize = 0;
    proof {
        assert(entries@.take(0) =~= Seq::<(String, String, String)>::empty());
    }
    while j < entries.len()
        invariant
            j <= entries@.len(),
            nv == (|x: String| x@),
            kv == known_categories(),
            kv == known@.map_values(|x: &'static str| x@),
            others@.map_values(nv) == other_categories(entries@.take(j as int)),
        decreases entries@.len() - j,
    {
        proof {
            assert(entries@.take(j + 1).drop_last() =~= entries@.take(j as int));
            assert(entries@.take(j + 1).last() == entries@[j as int]);
        }
        let c = entries[j].0.as_str();
        let mut is_known = false;
        let mut k: usize = 0;
        while k < known.len()
            invariant
                k <= known@.len(),
                kv == known@.map_values(|x: &'static str| x@),
                is_known == exists|m: int| 0 <= m < k && kv[m] == c@,
            decreases known@.len() - k,
        {
            proof {
                assert(kv[k as int] == known@[k as int]@);
            }
            if str_eq(known[k], c) {
                is_known = true;
            }
            k = k + 1;
        }
        proof {
            if kv.contains(c@) {
                let m = kv.index_of(c@);
                assert(kv[m] == c@);
            }
        }
        if !is_known && !contains_name(&others, c) {
            let ghost before = others@;
            others.push(entries[j].0.clone());
            proof {
                assert(others@.map_values(nv) =~= before.map_values(nv).push(c@));
            }
        }
        j = j + 1;
    }
    proof {
        assert(entries@.take(entries@.len() as int) =~= entries@);
    }
    let mut sorted: Vec<String> = Vec::new();
    let mut k: usize = 0;
    let ghost ov = others@.map_values(nv);
    proof {
        assert(ov.take(0) =~= Seq::<Seq<char>>::empty());
    }
    while k < others.len()
        invariant
            k <= others@.len(),
            nv == (|x: String| x@),
            ov == others@.map_values(nv),
            sorted@.map_values(nv) == sort_names(ov.take(k as int)),
        decreases others@.len() - k,
    {
        proof {
            assert(ov.take(k + 1).drop_last() =~= ov.take(k as int));
            assert(ov.take(k + 1).last() == others@[k as int]@);
        }
        insert_name_sorted(&mut sorted, others[k].clone());
        k = k + 1;
    }
    proof {
        assert(ov.take(ov.len() as int) =~= ov);
    }
    let mut m: usize = 0;
    let ghost sv = sorted@.map_values(nv);
    proof {
        assert(out@.map_values(hv) =~= known_part + sv.take(0).map_values(sect));
    }
    while m < sorted.len()
        invariant
            m <= sorted@.len(),
            nv == (|x: String| x@),
            sv == sorted@.map_values(nv),
            hv == (|h: HelpSection| help_section_view(h)),
            sect == (|c: Seq<char>| section_for(entries@, c)),
            out@.map_values(hv) == known_part + sv.take(m as int).map_values(sect),
        decreases sorted@.len() - m,
    {
        let section = build_section(entries, sorted[m].as_str());
        let ghost before = out@;
        out.push(section);
        proof {
            assert(sv.take(m + 1).map_values(sect) =~= sv.take(m as int).map_values(sect).push(sect(sv[m as int])));
            assert(out@.map_values(hv) =~= before.map_values(hv).push(help_section_view(section)));
        }
        m = m + 1;
    }
    proof {
        assert(sv.take(sv.len() as int) =~= sv);
    }
    out
}

proof fn lemma_text_less_asym(a: Seq<char>, b: Seq<char>)
    ensures
        text_less(a, b) ==> !text_less(b, a),
    decreases a.len(),
{
    if a.len() > 0 && b.len() > 0 && (a[0] as u32) == (b[0] as u32) {
        lemma_text_less_asym(a.drop_first(), b.drop_first());
    }
}

/// Not sorting after is transitive: if `a` is not after `b` and `b` not after
/// `c`, then `a` is not after `c`.
proof fn lemma_text_le_trans(a: Seq<char>, b: Seq<char>, c: Seq<char>)
    requires
        !text_less(b, a),
        !text_less(c, b),
    ensures
        !text_less(c, a),
    decreases a.len(),
{
    if a.len() > 0 && b.len() > 0 && c.len() > 0 && (a[0] as u32) == (b[0] as u32) && (b[0] as u32) == (c[0] as u32) {
        lemma_text_le_trans(a.drop_first(), b.drop_first(), c.drop_first());
    }
}

/// No entry of `s` has a key sorting before an earlier entry's.
pub open spec fn by_key(s: Seq<(Seq<char>, Seq<char>)>) -> bool {
    forall|i: int, j: int| 0 <= i < j < s.len() ==> !text_less(#[trigger] s[j].0, #[trigger] s[i].0)
}

proof fn lemma_insert_by_key(sorted: Seq<(Seq<char>, Seq<char>)>, b: (Seq<char>, Seq<char>))
    requires
        by_key(sorted),
    ensures
        by_key(insert_by_key(sorted, b)),
        insert_by_key(sorted, b).to_multiset() == sorted.to_multiset().insert(b),
    decreases sorted.len(),
{
    broadcast use vstd::seq_lib::group_to_multiset_ensures;

    if sorted.len() == 0 {
        assert(seq![b] =~= Seq::<(Seq<char>, Seq<char>)>::empty().push(b));
        assert(sorted =~= Seq::<(Seq<char>, Seq<char>)>::empty());
    } else if !text_less(b.0, sorted.last().0) {
        let r = sorted.push(b);
        assert forall|i: int, j: int| 0 <= i < j < r.len() implies !text_less(#[trigger] r[j].0, #[trigger] r[i].0) by {
            if j == sorted.len() && i < sorted.len() - 1 {
                assert(!text_less(sorted[sorted.len() - 1].0, sorted[i].0));
                lemma_text_le_trans(sorted[i].0, sorted[sorted.len() - 1].0, b.0);
            }
        }
    } else {
        let init = sorted.drop_last();
        let last = sorted.last();
        assert(by_key(init)) by {
            assert forall|i: int, j: int| 0 <= i < j < init.len() implies !text_less(#[trigger] init[j].0, #[trigger] init[i].0) by {
                assert(init[i] == sorted[i] && init[j] == sorted[j]);
            }
        }
        lemma_insert_by_key(init, b);
        let r = insert_by_key(init, b);
        let out = r.push(last);
        assert forall|i: int, j: int| 0 <= i < j < out.len() implies !text_less(#[trigger] out[j].0, #[trigger] out[i].0) by {
            if j == r.len() {
                let x = r[i];
                assert(r.contains(x));
                assert(r.to_multiset().count(x) > 0);
                if x == b {
                    lemma_text_less_asym(b.0, last.0);
                } else {
                    assert(init.to_multiset().count(x) > 0);
                    assert(init.contains(x));
                    let k = init.index_of(x);
                    assert(sorted[k] == x);
                    assert(!text_less(sorted[sorted.len() - 1].0, sorted[k].0));
                }
            }
        }
        assert(sorted =~= init.push(last));
    }
}

/// Sorting bindings by key orders them (no key sorts before an earlier one)
/// and keeps every binding, each as many times as it occurs.
pub proof fn lemma_sort_by_key(s: Seq<(Seq<char>, Seq<char>)>)
    ensures
        by_key(sort_by_key(s)),
        sort_by_key(s).to_multiset() == s.to_multiset(),
    decreases s.len(),
{
    broadcast use vstd::seq_lib::group_to_multiset_ensures;

    if s.len() > 0 {
        lemma_sort_by_key(s.drop_last());
        lemma_insert_by_key(sort_by_key(s.drop_last()), s.last());
        assert(s =~= s.drop_last().push(s.last()));
    }
}

/// No name of `s` sorts before an earlier one.
pub open spec fn by_name(s: Seq<Seq<char>>) -> bool {
    forall|i: int, j: int| 0 <= i < j < s.len() ==> !text_less(#[trigger] s[j], #[trigger] s[i])
}

proof fn lemma_insert_name(sorted: Seq<Seq<char>>, c: Seq<char>)
    requires
        by_name(sorted),
    ensures
        by_name(insert_name(sorted, c)),
        insert_name(sorted, c).to_multiset() == sorted.to_multiset().insert(c),
    decreases sorted.len(),
{
    broadcast use vstd::seq_lib::group_to_multiset_ensures;

    if sorted.len() == 0 {
        assert(seq![c] =~= Seq::<Seq<char>>::empty().push(c));
        assert(sorted =~= Seq::<Seq<char>>::empty());
    } else if !text_less(c, sorted.last()) {
        let r = sorted.push(c);
        assert forall|i: int, j: int| 0 <= i < j < r.len() implies !text_less(#[trigger] r[j], #[trigger] r[i]) by {
            if j == sorted.len() && i < sorted.len() - 1 {
                assert(!text_less(sorted[sorted.len() - 1], sorted[i]));
                lemma_text_le_trans(sorted[i], sorted[sorted.len() - 1], c);
            }
        }
    } else {
        let init = sorted.drop_last();
        let last = sorted.last();
        assert(by_name(init)) by {
            assert forall|i: int, j: int| 0 <= i < j < init.len() implies !text_less(#[trigger] init[j], #[trigger] init[i]) by {
                assert(init[i] == sorted[i] && init[j] == sorted[j]);
            }
        }
        lemma_insert_name(init, c);
        let r = insert_name(init, c);
        let out = r.push(last);
        assert forall|i: int, j: int| 0 <= i < j < out.len() implies !text_less(#[trigger] out[j], #[trigger] out[i]) by {
            if j == r.len() {
                let x = r[i];
                assert(r.contains(x));
                assert(r.to_multiset().count(x) > 0);
                if x == c {
                    lemma_text_less_asym(c, last);
                } else {
                    assert(init.to_multiset().count(x) > 0);
                    assert(init.contains(x));
                    let k = init.index_of(x);
                    assert(sorted[k] == x);
                    assert(!text_less(sorted[sorted.len() - 1], sorted[k]));
                }
            }
        }
        assert(sorted =~= init.push(last));
    }
}

/// The categories after the known ones are in name order, each as often as
/// in the list they were taken from.
pub proof fn lemma_sort_names(s: Seq<Seq<char>>)
    ensures
        by_name(sort_names(s)),
        sort_names(s).to_multiset() == s.to_multiset(),
    decreases s.len(),
{
    broadcast use vstd::seq_lib::group_to_multiset_ensures;

    if s.len() > 0 {
        lemma_sort_names(s.drop_last());
        lemma_insert_name(sort_names(s.drop_last()), s.last());
        assert(s =~= s.drop_last().push(s.last()));
    }
}

/// Every category of the entries gets exactly one section: the known ones
/// among the first sections, each other category once among the rest.
pub proof fn lemma_other_categories(entries: Seq<(String, String, String)>)
    ensures
        other_categories(entries).no_duplicates(),
        forall|c: Seq<char>| #[trigger] other_categories(entries).contains(c) ==> !known_categories().contains(c),
        forall|i: int|
            0 <= i < entries.len() && !known_categories().contains(#[trigger] entries[i].0@) ==> other_categories(
                entries,
            ).contains(entries[i].0@),
    decreases entries.len(),
{
    if entries.len() > 0 {
        let init = entries.drop_last();
        lemma_other_categories(init);
        let rest = other_categories(init);
        let c = entries.last().0@;
        assert forall|i: int|
            0 <= i < entries.len() && !known_categories().contains(#[trigger] entries[i].0@) implies other_categories(
                entries,
            ).contains(entries[i].0@) by {
            if i < init.len() {
                assert(entries[i] == init[i]);
                assert(rest.contains(init[i].0@));
                if !(known_categories().contains(c) || rest.contains(c)) {
                    let k = rest.index_of(init[i].0@);
                    assert(rest.push(c)[k] == init[i].0@);
                }
            } else {
                if !(known_categories().contains(c) || rest.contains(c)) {
                    assert(rest.push(c)[rest.len() as int] == c);
                }
            }
        }
        if !(known_categories().contains(c) || rest.contains(c)) {
            let out = rest.push(c);
            assert forall|i: int, j: int| 0 <= i < out.len() && 0 <= j < out.len() && i != j implies out[i] != out[j] by {
                if i < rest.len() && j < rest.len() {
                    assert(rest[i] != rest[j]);
                } else if i == rest.len() {
                    assert(!rest.contains(c));
                    assert(rest[j] != c);
                } else {
                    assert(!rest.contains(c));
                    assert(rest[i] != c);
                }
            }
            assert forall|x: Seq<char>| #[trigger] out.contains(x) implies !known_categories().contains(x) by {
                if x != c {
                    let k = out.index_of(x);
                    assert(rest[k] == x);
                    assert(rest.contains(x));
                }
            }
        }
    }
}

} // verus!
