//! Help panel fuzzy filter state and matching logic.

use vstd::prelude::*;

use nucleo_matcher::pattern::{CaseMatching, Normalization, Pattern};
use nucleo_matcher::{Config, Matcher, Utf32Str};

use crate::text::{string_clear, string_pop, string_push};

verus! {

/// The fuzzy matcher of nucleo-matcher; its scratch memory is reused between matches.
#[verifier::external_type_specification]
#[verifier::external_body]
pub struct ExMatcher(Matcher);

/// A titled group of keybindings shown in the help panel.
#[derive(Debug, Clone)]
pub struct HelpSection {
    pub title: String,
    /// (key, action label) pairs.
    pub bindings: Vec<(String, String)>,
}

/// A filtered help section with match information.
#[derive(Debug, Clone)]
pub struct FilteredHelpSection {
    pub title: String,
    pub bindings: Vec<FilteredBinding>,
}

/// A filtered keybinding with its relevance.
#[derive(Debug, Clone)]
pub struct FilteredBinding {
    pub key: String,
    pub action: String,
    /// Relevance score for sorting.
    pub score: i32,
}

/// The fuzzy score that nucleo-matcher gives the ASCII text `text` for the
/// pattern `Pattern::parse` makes of `query`, matching with case ignored and
/// no Unicode normalization; `None` when the pattern does not match.
pub uninterp spec fn fuzzy_score(query: Seq<char>, text: Seq<char>) -> Option<u32>;

/// Calls `Matcher::new` with `Config::DEFAULT`.
#[verifier::external_body]
fn new_matcher() -> Matcher {
    Matcher::new(Config::DEFAULT)
}

/// Parses `query` with `Pattern::parse` (case ignored, no normalization) and
/// calls `Pattern::indices` on the ASCII bytes of `text`. The result is named
/// by `fuzzy_score` over the two strings. It does not depend on the matcher:
/// each pattern atom overwrites the matcher's case and normalization
/// settings, and the only matcher this library creates uses
/// `Config::DEFAULT`. nucleo-matcher asserts that the text is at most
/// `u32::MAX` characters long and requires ASCII text in this representation.
#[verifier::external_body]
fn query_score(query: &str, text: &str, matcher: &mut Matcher) -> (r: Option<u32>)
    requires
        vstd::string::is_ascii(text),
        text@.len() <= u32::MAX,
    ensures
        r == fuzzy_score(query@, text@),
{
    let pattern = Pattern::parse(query, CaseMatching::Ignore, Normalization::Never);
    let mut indices = Vec::new();
    pattern.indices(Utf32Str::Ascii(text.as_bytes()), matcher, &mut indices)
}

/// State for the help panel fuzzy filter.
pub struct HelpFilterState {
    /// Whether filter mode is currently active.
    active: bool,
    /// Current filter query string.
    query: String,
    /// Nucleo fuzzy matcher instance.
    matcher: Matcher,
}

/// The score of a binding: the better of the scores of its key and of its
/// action label, a non-match counting as zero.
pub open spec fn binding_score(q: Seq<char>, key: Seq<char>, action: Seq<char>) -> u32 {
    let ks = match fuzzy_score(q, key) {
        Some(s) => s,
        None => 0,
    };
    let acts = match fuzzy_score(q, action) {
        Some(s) => s,
        None => 0,
    };
    if ks >= acts {
        ks
    } else {
        acts
    }
}

/// A filtered binding as plain values: key, action label, score.
pub type BindingView = (Seq<char>, Seq<char>, i32);

/// The bindings that match `q` (score above zero), in their order, with scores.
pub open spec fn matching_bindings(q: Seq<char>, bindings: Seq<(String, String)>) -> Seq<BindingView>
    decreases bindings.len(),
{
    if bindings.len() == 0 {
        seq![]
    } else {
        let rest = matching_bindings(q, bindings.drop_last());
        let (k, a) = bindings.last();
        let s = binding_score(q, k@, a@);
        if s > 0 {
            rest.push((k@, a@, s as i32))
        } else {
            rest
        }
    }
}

/// `sorted` with `b` inserted after every entry whose score is at least `b`'s.
pub open spec fn insert_by_score(sorted: Seq<BindingView>, b: BindingView) -> Seq<BindingView>
    decreases sorted.len(),
{
    if sorted.len() == 0 {
        seq![b]
    } else if sorted.last().2 >= b.2 {
        sorted.push(b)
    } else {
        insert_by_score(sorted.drop_last(), b).push(sorted.last())
    }
}

/// The stable sort of `s` by descending score: entries of equal score keep
/// their relative order.
pub open spec fn sort_by_score(s: Seq<BindingView>) -> Seq<BindingView>
    decreases s.len(),
{
    if s.len() == 0 {
        s
    } else {
        insert_by_score(sort_by_score(s.drop_last()), s.last())
    }
}

/// A filtered section as plain values.
pub type SectionView = (Seq<char>, Seq<BindingView>);

/// The sections as shown for query `q`: with an empty query every binding
/// with score 0; otherwise only the sections with a matching binding, each
/// with its matching bindings sorted by descending score.
pub open spec fn filtered_sections(q: Seq<char>, sections: Seq<HelpSection>) -> Seq<SectionView>
    decreases sections.len(),
{
    if sections.len() == 0 {
        seq![]
    } else {
        let rest = filtered_sections(q, sections.drop_last());
        let s = sections.last();
        if q.len() == 0 {
            rest.push((s.title@, s.bindings@.map_values(|b: (String, String)| (b.0@, b.1@, 0i32))))
        } else {
            let kept = matching_bindings(q, s.bindings@);
            if kept.len() > 0 {
                rest.push((s.title@, sort_by_score(kept)))
            } else {
                rest
            }
        }
    }
}

/// A filtered binding as plain values.
pub open spec fn binding_view(b: FilteredBinding) -> BindingView {
    (b.key@, b.action@, b.score)
}

/// A filtered section as plain values.
pub open spec fn section_view(s: FilteredHelpSection) -> SectionView {
    (s.title@, s.bindings@.map_values(|b: FilteredBinding| binding_view(b)))
}

impl Default for HelpFilterState {
    /// An inactive filter with an empty query.
    fn default() -> (s: Self)
        ensures
            !s.active_view(),
            s.query_view() == Seq::<char>::empty(),
    {
        Self::new()
    }
}

/// Every key and action label is ASCII and short enough for the matcher.
pub open spec fn sections_matchable(sections: Seq<HelpSection>) -> bool {
    forall|i: int, j: int|
        0 <= i < sections.len() && 0 <= j < sections[i].bindings@.len() ==> {
            let (k, a) = #[trigger] sections[i].bindings@[j];
            &&& vstd::utf8::is_ascii_chars(k@)
            &&& vstd::utf8::is_ascii_chars(a@)
            &&& k@.len() <= u32::MAX
            &&& a@.len() <= u32::MAX
        }
}

fn insert_sorted(sorted: &mut Vec<FilteredBinding>, b: FilteredBinding)
    ensures
        final(sorted)@.map_values(|x: FilteredBinding| binding_view(x)) == insert_by_score(
            old(sorted)@.map_values(|x: FilteredBinding| binding_view(x)),
            binding_view(b),
        ),
{
    let ghost f = |x: FilteredBinding| binding_view(x);
    let ghost old_view = sorted@.map_values(f);
    let mut p = sorted.len();
    proof {
        assert(old_view.take(p as int) =~= old_view);
        assert(old_view.skip(p as int) =~= Seq::<BindingView>::empty());
        assert(insert_by_score(old_view, binding_view(b)) + Seq::<BindingView>::empty() =~= insert_by_score(old_view, binding_view(b)));
    }
    while p > 0 && sorted[p - 1].score < b.score
        invariant
            p <= sorted@.len(),
            sorted@.map_values(f) == old_view,
            f == (|x: FilteredBinding| binding_view(x)),
            insert_by_score(old_view, binding_view(b)) == insert_by_score(old_view.take(p as int), binding_view(b))
                + old_view.skip(p as int),
        decreases p,
    {
        proof {
            let t = old_view.take(p as int);
            assert(t.last() == old_view[p - 1]);
            assert(t.drop_last() =~= old_view.take(p - 1));
            assert(insert_by_score(t, binding_view(b)) == insert_by_score(t.drop_last(), binding_view(b)).push(t.last()));
            assert(old_view.skip(p - 1) =~= seq![old_view[p - 1]] + old_view.skip(p as int));
            assert(insert_by_score(old_view.take(p - 1), binding_view(b)).push(t.last()) + old_view.skip(p as int)
                =~= insert_by_score(old_view.take(p - 1), binding_view(b)) + old_view.skip(p - 1));
        }
        p = p - 1;
    }
    proof {
        let t = old_view.take(p as int);
        if p == 0 {
            assert(t =~= Seq::<BindingView>::empty());
        } else {
            assert(t.last() == old_view[p - 1]);
        }
        assert(insert_by_score(t, binding_view(b)) =~= t.push(binding_view(b)));
    }
    sorted.insert(p, b);
    proof {
        assert(sorted@.map_values(f) =~= old_view.take(p as int).push(binding_view(b)) + old_view.skip(p as int));
    }
}

impl HelpFilterState {
    /// The query typed so far.
    pub closed spec fn query_view(&self) -> Seq<char> {
        self.query@
    }

    /// Whether filter mode is active.
    pub closed spec fn active_view(&self) -> bool {
        self.active
    }

    /// Creates a new help filter state.
    pub fn new() -> (s: Self)
        ensures
            !s.active_view(),
            s.query_view() == Seq::<char>::empty(),
    {
        Self { active: false, query: String::new(), matcher: new_matcher() }
    }

    /// Returns whether the filter is currently active.
    pub fn is_active(&self) -> (r: bool)
        ensures
            r == self.active_view(),
    {
        self.active
    }

    /// Returns the current query string.
    pub fn query(&self) -> (r: &str)
        ensures
            r@ == self.query_view(),
    {
        self.query.as_str()
    }

    /// Activates the filter mode.
    pub fn activate(&mut self)
        ensures
            final(self).active_view(),
            final(self).query_view() == old(self).query_view(),
    {
        self.active = true;
    }

    /// Deactivates the filter and clears the query.
    pub fn deactivate(&mut self)
        ensures
            !final(self).active_view(),
            final(self).query_view() == Seq::<char>::empty(),
    {
        self.active = false;
        string_clear(&mut self.query);
    }

    /// Adds a character to the query.
    pub fn push_char(&mut self, ch: char)
        ensures
            final(self).active_view() == old(self).active_view(),
            final(self).query_view() == old(self).query_view().push(ch),
    {
        string_push(&mut self.query, ch);
    }

    /// Removes the last character from the query; the filter deactivates
    /// when the query becomes empty.
    pub fn pop_char(&mut self)
        ensures
            final(self).query_view() == if old(self).query_view().len() == 0 {
                old(self).query_view()
            } else {
                old(self).query_view().drop_last()
            },
            final(self).active_view() == (old(self).active_view() && final(self).query_view().len() > 0),
    {
        let _ = string_pop(&mut self.query);
        if self.query.as_str().is_empty() {
            self.active = false;
        }
    }

    /// Applies the filter to help sections, returning filtered results with match information.
    pub fn update_filter(&mut self, sections: &[HelpSection]) -> (r: Vec<FilteredHelpSection>)
        requires
            old(self).query_view().len() > 0 ==> sections_matchable(sections@),
        ensures
            r@.map_values(|s: FilteredHelpSection| section_view(s)) == filtered_sections(
                old(self).query_view(),
                sections@,
            ),
            final(self).query_view() == old(self).query_view(),
            final(self).active_view() == old(self).active_view(),
    {
        let ghost q = self.query@;
        let ghost sv = |s: FilteredHelpSection| section_view(s);
        let ghost bv = |x: FilteredBinding| binding_view(x);
        let empty_query = self.query.as_str().is_empty();
        let mut out: Vec<FilteredHelpSection> = Vec::new();
        let mut i: usize = 0;
        while i < sections.len()
            invariant
                i <= sections@.len(),
                q == self.query@,
                empty_query == (q.len() == 0),
                !empty_query ==> sections_matchable(sections@),
                sv == (|s: FilteredHelpSection| section_view(s)),
                bv == (|x: FilteredBinding| binding_view(x)),
                out@.map_values(sv) == filtered_sections(q, sections@.take(i as int)),
                self.active == old(self).active,
            decreases sections@.len() - i,
        {
            let section = &sections[i];
            proof {
                assert(sections@.take(i + 1).drop_last() =~= sections@.take(i as int));
                assert(sections@.take(i + 1).last() == sections@[i as int]);
            }
            let mut kept: Vec<FilteredBinding> = Vec::new();
            let mut sorted: Vec<FilteredBinding> = Vec::new();
            let mut j: usize = 0;
            while j < section.bindings.len()
                invariant
                    i < sections@.len(),
                    *section == sections@[i as int],
                    j <= section.bindings@.len(),
                    q == self.query@,
                        empty_query == (q.len() == 0),
                    !empty_query ==> sections_matchable(sections@),
                    bv == (|x: FilteredBinding| binding_view(x)),
                    empty_query ==> kept@.map_values(bv) == section.bindings@.take(j as int).map_values(
                        |b: (String, String)| (b.0@, b.1@, 0i32),
                    ),
                    !empty_query ==> kept@.map_values(bv) == matching_bindings(q, section.bindings@.take(j as int)),
                    !empty_query ==> sorted@.map_values(bv) == sort_by_score(
                        matching_bindings(q, section.bindings@.take(j as int)),
                    ),
                    self.active == old(self).active,
                decreases section.bindings@.len() - j,
            {
                let (key, action) = &section.bindings[j];
                proof {
                    assert(section.bindings@.take(j + 1).drop_last() =~= section.bindings@.take(j as int));
                    assert(section.bindings@.take(j + 1).last() == section.bindings@[j as int]);
                    let _ = sections@[i as int].bindings@[j as int];
                }
                let ghost prefix = section.bindings@.take(j as int);
                let ghost next = section.bindings@.take(j + 1);
                proof {
                    assert(next =~= prefix.push(section.bindings@[j as int]));
                    assert(next.drop_last() =~= prefix);
                }
                if empty_query {
                    let ghost before = kept@;
                    kept.push(FilteredBinding { key: key.clone(), action: action.clone(), score: 0 });
                    proof {
                        assert(kept@.map_values(bv) =~= before.map_values(bv).push((key@, action@, 0i32)));
                        assert(kept@.map_values(bv) =~= section.bindings@.take(j + 1).map_values(
                            |b: (String, String)| (b.0@, b.1@, 0i32),
                        ));
                    }
                } else {
                    let key_score = match query_score(self.query.as_str(), key.as_str(), &mut self.matcher) {
                        Some(s) => s,
                        None => 0,
                    };
                    let action_score = match query_score(self.query.as_str(), action.as_str(), &mut self.matcher) {
                        Some(s) => s,
                        None => 0,
                    };
                    let best_score = if key_score >= action_score { key_score } else { action_score };
                    proof {
                        assert(best_score == binding_score(q, key@, action@));
                    }
                    if best_score > 0 {
                        let score = #[verifier::truncate] (best_score as i32);
                        let b = FilteredBinding { key: key.clone(), action: action.clone(), score };
                        let b2 = FilteredBinding { key: key.clone(), action: action.clone(), score };
                        let ghost before = kept@;
                        kept.push(b);
                        insert_sorted(&mut sorted, b2);
                        proof {
                            assert(matching_bindings(q, next) == matching_bindings(q, prefix).push((key@, action@, best_score as i32)));
                            assert(matching_bindings(q, next).drop_last() =~= matching_bindings(q, prefix));
                            assert(kept@.map_values(bv) =~= before.map_values(bv).push((key@, action@, score)));
                            assert(kept@.map_values(bv) =~= matching_bindings(q, section.bindings@.take(j as int)).push(
                                (key@, action@, best_score as i32),
                            ));
                        }
                    } else {
                        proof {
                            assert(matching_bindings(q, next) == matching_bindings(q, prefix));
                        }
                    }
                }
                j = j + 1;
            }
            proof {
                assert(section.bindings@.take(section.bindings@.len() as int) =~= section.bindings@);
            }
            if empty_query {
                let ghost before = out@.map_values(sv);
                out.push(FilteredHelpSection { title: section.title.clone(), bindings: kept });
                proof {
                    assert(out@.map_values(sv) =~= before.push(section_view(out@.last())));
                }
            } else if sorted.len() > 0 {
                let ghost before = out@.map_values(sv);
                out.push(FilteredHelpSection { title: section.title.clone(), bindings: sorted });
                proof {
                    lemma_sort_len(matching_bindings(q, section.bindings@));
                    assert(out@.map_values(sv) =~= before.push(section_view(out@.last())));
                }
            } else {
                proof {
                    lemma_sort_len(matching_bindings(q, section.bindings@));
                }
            }
            i = i + 1;
        }
        proof {
            assert(sections@.take(sections@.len() as int) =~= sections@);
        }
        out
    }
}

proof fn lemma_insert_len(sorted: Seq<BindingView>, b: BindingView)
    ensures
        insert_by_score(sorted, b).len() == sorted.len() + 1,
    decreases sorted.len(),
{
    if sorted.len() > 0 && sorted.last().2 < b.2 {
        lemma_insert_len(sorted.drop_last(), b);
    }
}

/// Sorting keeps the number of entries.
pub proof fn lemma_sort_len(s: Seq<BindingView>)
    ensures
        sort_by_score(s).len() == s.len(),
    decreases s.len(),
{
    if s.len() > 0 {
        lemma_sort_len(s.drop_last());
        lemma_insert_len(sort_by_score(s.drop_last()), s.last());
    }
}

/// The entries of `s` are in descending order of score.
pub open spec fn by_descending_score(s: Seq<BindingView>) -> bool {
    forall|i: int, j: int| 0 <= i < j < s.len() ==> #[trigger] s[i].2 >= #[trigger] s[j].2
}

proof fn lemma_insert_by_score(sorted: Seq<BindingView>, b: BindingView)
    requires
        by_descending_score(sorted),
    ensures
        by_descending_score(insert_by_score(sorted, b)),
        insert_by_score(sorted, b).to_multiset() == sorted.to_multiset().insert(b),
    decreases sorted.len(),
{
    broadcast use vstd::seq_lib::group_to_multiset_ensures;

    if sorted.len() == 0 {
        assert(seq![b] =~= Seq::<BindingView>::empty().push(b));
        assert(sorted =~= Seq::<BindingView>::empty());
    } else if sorted.last().2 >= b.2 {
        let r = sorted.push(b);
        assert forall|i: int, j: int| 0 <= i < j < r.len() implies #[trigger] r[i].2 >= #[trigger] r[j].2 by {
            if j == sorted.len() && i < sorted.len() - 1 {
                assert(sorted[i].2 >= sorted[sorted.len() - 1].2);
            }
        }
    } else {
        let init = sorted.drop_last();
        let last = sorted.last();
        assert(by_descending_score(init)) by {
            assert forall|i: int, j: int| 0 <= i < j < init.len() implies #[trigger] init[i].2 >= #[trigger] init[j].2 by {
                assert(init[i] == sorted[i] && init[j] == sorted[j]);
            }
        }
        lemma_insert_by_score(init, b);
        let r = insert_by_score(init, b);
        let out = r.push(last);
        assert forall|i: int, j: int| 0 <= i < j < out.len() implies #[trigger] out[i].2 >= #[trigger] out[j].2 by {
            if j == r.len() {
                let x = r[i];
                assert(r.contains(x));
                assert(r.to_multiset().count(x) > 0);
                if x != b {
                    assert(init.to_multiset().count(x) > 0);
                    assert(init.contains(x));
                    let k = init.index_of(x);
                    assert(sorted[k] == x);
                    assert(sorted[k].2 >= sorted[sorted.len() - 1].2);
                }
            }
        }
        assert(sorted =~= init.push(last));
    }
}

/// Sorting by score orders the entries by descending score and keeps every
/// entry, each as many times as it occurs.
pub proof fn lemma_sort_by_score(s: Seq<BindingView>)
    ensures
        by_descending_score(sort_by_score(s)),
        sort_by_score(s).to_multiset() == s.to_multiset(),
    decreases s.len(),
{
    broadcast use vstd::seq_lib::group_to_multiset_ensures;

    if s.len() == 0 {
    } else {
        lemma_sort_by_score(s.drop_last());
        lemma_insert_by_score(sort_by_score(s.drop_last()), s.last());
        assert(s =~= s.drop_last().push(s.last()));
    }
}

/// With an empty query every section is shown with all of its bindings, in
/// order, each with score 0.
pub proof fn lemma_empty_query_shows_all(sections: Seq<HelpSection>)
    ensures
        filtered_sections(Seq::<char>::empty(), sections).len() == sections.len(),
        forall|i: int|
            0 <= i < sections.len() ==> {
                let v = #[trigger] filtered_sections(Seq::<char>::empty(), sections)[i];
                &&& v.0 == sections[i].title@
                &&& v.1.len() == sections[i].bindings@.len()
                &&& forall|j: int|
                    0 <= j < v.1.len() ==> #[trigger] v.1[j] == (
                        sections[i].bindings@[j].0@,
                        sections[i].bindings@[j].1@,
                        0i32,
                    )
            },
    decreases sections.len(),
{
    if sections.len() > 0 {
        lemma_empty_query_shows_all(sections.drop_last());
        let out = filtered_sections(Seq::<char>::empty(), sections);
        let prev = filtered_sections(Seq::<char>::empty(), sections.drop_last());
        assert forall|i: int| 0 <= i < sections.len() - 1 implies out[i] == prev[i] && sections[i] == sections.drop_last()[i] by {}
    }
}

proof fn lemma_matching_positive(q: Seq<char>, bindings: Seq<(String, String)>)
    ensures
        forall|j: int| 0 <= j < matching_bindings(q, bindings).len() ==> shown_match(q, #[trigger] matching_bindings(q, bindings)[j]),
    decreases bindings.len(),
{
    if bindings.len() > 0 {
        let rest = matching_bindings(q, bindings.drop_last());
        lemma_matching_positive(q, bindings.drop_last());
        let out = matching_bindings(q, bindings);
        assert forall|j: int| 0 <= j < out.len() implies shown_match(q, #[trigger] out[j]) by {
            if j < rest.len() {
                assert(out[j] == rest[j]);
            }
        }
    }
}

/// `v` is a binding that matches `q`: its score is above zero, and it is
/// shown with that score.
pub open spec fn shown_match(q: Seq<char>, v: BindingView) -> bool {
    binding_score(q, v.0, v.1) > 0 && v.2 == binding_score(q, v.0, v.1) as i32
}

/// With a non-empty query only sections with a match are shown, and every
/// binding shown matches, with its score.
pub proof fn lemma_query_shows_matches(q: Seq<char>, sections: Seq<HelpSection>)
    requires
        q.len() > 0,
    ensures
        forall|i: int|
            0 <= i < filtered_sections(q, sections).len() ==> {
                let v = #[trigger] filtered_sections(q, sections)[i];
                &&& v.1.len() > 0
                &&& forall|j: int| 0 <= j < v.1.len() ==> shown_match(q, #[trigger] v.1[j])
            },
    decreases sections.len(),
{
    broadcast use vstd::seq_lib::group_to_multiset_ensures;

    if sections.len() > 0 {
        lemma_query_shows_matches(q, sections.drop_last());
        let kept = matching_bindings(q, sections.last().bindings@);
        lemma_matching_positive(q, sections.last().bindings@);
        lemma_sort_by_score(kept);
        let sorted = sort_by_score(kept);
        assert forall|j: int| 0 <= j < sorted.len() implies shown_match(q, #[trigger] sorted[j]) by {
            let x = sorted[j];
            assert(sorted.contains(x));
            assert(sorted.to_multiset().count(x) > 0);
            assert(kept.contains(x));
            let k = kept.index_of(x);
            assert(shown_match(q, kept[k]));
        }
        assert(sorted.len() == kept.len()) by {
            assert(sorted.to_multiset().len() == kept.to_multiset().len());
        }
        let prev = filtered_sections(q, sections.drop_last());
        let out = filtered_sections(q, sections);
        assert forall|i: int| 0 <= i < out.len() implies ({
            let v = #[trigger] out[i];
            &&& v.1.len() > 0
            &&& forall|j: int| 0 <= j < v.1.len() ==> shown_match(q, #[trigger] v.1[j])
        }) by {
            if i < prev.len() {
                assert(out[i] == prev[i]);
            }
        }
    }
}

} // verus!
