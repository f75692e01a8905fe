//! The score store: score records grouped by difficulty, with ranked
//! high-score queries, aggregate playtime, and appending the record of a
//! finished run.
use vstd::prelude::*;
use vstd::multiset::Multiset;
use vstd::seq_lib::lemma_multiset_commutative;

use crate::difficulty::Difficulty;
use crate::text::spec_pad2;
use crate::text::u64_to_padded_string;

verus! {

/// One persisted run: the score, the player's name, and the elapsed time in
/// milliseconds — absent on records that predate time tracking.
pub type ScoreEntry = (u64, String, Option<u64>);

/// The mathematical value of one score entry.
pub type EntryView = (u64, Seq<char>, Option<u64>);

/// The mathematical value of one score group: the difficulty name and the
/// entries recorded under it, in document order.
pub type GroupView = (Seq<char>, Seq<EntryView>);

/// The mathematical value of one score entry.
pub open spec fn entry_view(e: ScoreEntry) -> EntryView {
    (e.0, e.1@, e.2)
}

/// The mathematical values of a row of score entries.
pub open spec fn entries_view(es: Seq<ScoreEntry>) -> Seq<EntryView> {
    es.map_values(|e: ScoreEntry| entry_view(e))
}

/// Returned when the persisted score document cannot be read as a
/// well-formed store.
#[derive(Clone, Copy, PartialEq, Eq, Structural, Debug)]
pub struct ScoreParseError;

/// All score entries recorded under one difficulty name.
pub struct ScoreGroup {
    pub name: String,
    pub entries: Vec<ScoreEntry>,
}

impl View for ScoreGroup {
    type V = GroupView;

    open spec fn view(&self) -> GroupView {
        (self.name@, entries_view(self.entries@))
    }
}

/// The in-memory score store: one group per difficulty name, in the order
/// the persisted document lists them.
pub struct ScoreManager {
    pub groups: Vec<ScoreGroup>,
}

impl View for ScoreManager {
    type V = Seq<GroupView>;

    open spec fn view(&self) -> Seq<GroupView> {
        self.groups@.map_values(|g: ScoreGroup| g@)
    }
}

/// Whether a group is selected by the optional difficulty-name filter;
/// no filter selects every group.
pub open spec fn spec_group_selected(g: GroupView, filter: Option<Seq<char>>) -> bool {
    match filter {
        None => true,
        Some(n) => g.0 == n,
    }
}

/// The entries of all selected groups, in group order and entry order.
pub open spec fn spec_scores_for(m: Seq<GroupView>, filter: Option<Seq<char>>) -> Seq<EntryView>
    decreases m.len(),
{
    if m.len() == 0 {
        Seq::<EntryView>::empty()
    } else {
        spec_scores_for(m.drop_last(), filter) + if spec_group_selected(m.last(), filter) {
            m.last().1
        } else {
            Seq::<EntryView>::empty()
        }
    }
}

/// Descending order on the score component; nothing is said of the relative
/// order of equal scores.
pub open spec fn spec_sorted_desc(s: Seq<EntryView>) -> bool {
    forall|i: int, j: int| 0 <= i < j < s.len() ==> s[i].0 >= s[j].0
}

/// The sum of the elapsed times of the entries, an absent time counting as
/// zero.
pub open spec fn spec_entry_time(e: EntryView) -> int {
    match e.2 {
        Some(t) => t as int,
        None => 0,
    }
}

/// The sum of the elapsed times of the entries, an absent time counting as
/// zero.
pub open spec fn spec_total_time(es: Seq<EntryView>) -> int
    decreases es.len(),
{
    if es.len() == 0 {
        0int
    } else {
        spec_total_time(es.drop_last()) + spec_entry_time(es.last())
    }
}

/// The store after recording one run under the given difficulty name: the
/// entry is appended to the first group of that name, or to a fresh group at
/// the end if no group carries the name yet.
pub open spec fn spec_add_score(m: Seq<GroupView>, name: Seq<char>, e: EntryView) -> Seq<
    GroupView,
>
    decreases m.len(),
{
    if m.len() == 0 {
        seq![(name, seq![e])]
    } else if m.first().0 == name {
        seq![(m.first().0, m.first().1.push(e))] + m.drop_first()
    } else {
        seq![m.first()] + spec_add_score(m.drop_first(), name, e)
    }
}

/// The optional filter as a difficulty name.
pub open spec fn spec_filter_name(d: Option<&Difficulty>) -> Option<Seq<char>> {
    match d {
        Some(d) => Some(d.spec_name()),
        None => None,
    }
}

impl ScoreManager {
    /// A store holding no groups at all: the state before any run was
    /// recorded.
    pub fn new() -> (r: ScoreManager)
        ensures
            r@ == Seq::<GroupView>::empty(),
    {
        let r = ScoreManager { groups: Vec::new() };
        proof {
            assert(r@ =~= Seq::<GroupView>::empty());
        }
        r
    }

    /// Reads a store back from its persisted document. A malformed document
    /// is a fatal read error; an entry missing its score or user is skipped,
    /// as the grammar says.
    pub fn from_document(doc: &str) -> (r: Result<ScoreManager, ScoreParseError>)
        ensures
            match r {
                Ok(m) => crate::score_doc::spec_parse_doc(doc@) == Some(m@),
                Err(_) => crate::score_doc::spec_parse_doc(doc@) is None,
            },
    {
        let cs = crate::text::str_chars(doc);
        match crate::score_doc::parse_document(&cs) {
            Some(gs) => {
                let m = ScoreManager { groups: gs };
                proof {
                    assert(m@ =~= crate::score_doc::groups_view(m.groups@));
                }
                Ok(m)
            },
            None => Err(ScoreParseError),
        }
    }

    /// Writes the whole store out as one document, the form `from_document`
    /// reads back.
    pub fn to_document(&self) -> (r: String)
        ensures
            r@ == crate::score_doc::spec_doc(self@),
    {
        proof {
            assert(self@ =~= crate::score_doc::groups_view(self.groups@));
        }
        crate::score_doc::serialize_document(&self.groups)
    }

    /// Returns all scores, in store order, optionally restricted to one
    /// difficulty.
    pub fn get_scores(&self, difficulty_opt: Option<&Difficulty>) -> (r: Vec<ScoreEntry>)
        ensures
            entries_view(r@) == spec_scores_for(self@, spec_filter_name(difficulty_opt)),
    {
        let target: Option<String> = match difficulty_opt {
            Some(d) => Some(String::from_str(d.name())),
            None => None,
        };
        proof {
            assert(match (target, spec_filter_name(difficulty_opt)) {
                (Some(t), Some(n)) => t@ == n,
                (None, None) => true,
                _ => false,
            });
        }
        let ghost filter = spec_filter_name(difficulty_opt);
        let mut r: Vec<ScoreEntry> = Vec::new();
        let mut gi: usize = 0;
        while gi < self.groups.len()
            invariant
                gi <= self.groups@.len(),
                self@.len() == self.groups@.len(),
                forall|k: int| 0 <= k < self.groups@.len() ==> self@[k] == #[trigger] self.groups@[k]@,
                match (target, filter) {
                    (Some(t), Some(n)) => t@ == n,
                    (None, None) => true,
                    _ => false,
                },
                entries_view(r@) == spec_scores_for(self@.take(gi as int), filter),
            decreases self.groups@.len() - gi,
        {
            let g = &self.groups[gi];
            let selected = match &target {
                Some(t) => g.name.eq(t),
                None => true,
            };
            proof {
                assert(selected == spec_group_selected(g@, filter));
            }
            if selected {
                let mut ei: usize = 0;
                while ei < g.entries.len()
                    invariant
                        ei <= g.entries@.len(),
                        entries_view(r@) == spec_scores_for(self@.take(gi as int), filter)
                            + entries_view(g.entries@.take(ei as int)),
                    decreases g.entries@.len() - ei,
                {
                    let ghost pre_r = r@;
                    let e = &g.entries[ei];
                    r.push((e.0, e.1.clone(), e.2));
                    proof {
                        assert(entries_view(r@) =~= entries_view(pre_r).push(entry_view(
                            g.entries@[ei as int],
                        )));
                        assert(entries_view(g.entries@.take(ei + 1)) =~= entries_view(
                            g.entries@.take(ei as int),
                        ).push(entry_view(g.entries@[ei as int])));
                        assert(entries_view(r@) =~= spec_scores_for(self@.take(gi as int), filter)
                            + entries_view(g.entries@.take(ei + 1)));
                    }
                    ei = ei + 1;
                }
                proof {
                    assert(g.entries@.take(g.entries@.len() as int) =~= g.entries@);
                    assert(self@.take(gi + 1).drop_last() =~= self@.take(gi as int));
                    assert(self@.take(gi + 1).last() == self@[gi as int]);
                    assert(entries_view(r@) =~= spec_scores_for(self@.take(gi + 1), filter));
                }
            } else {
                proof {
                    assert(self@.take(gi + 1).drop_last() =~= self@.take(gi as int));
                    assert(self@.take(gi + 1).last() == self@[gi as int]);
                    assert(entries_view(r@) =~= spec_scores_for(self@.take(gi + 1), filter));
                }
            }
            gi = gi + 1;
        }
        proof {
            assert(self@.take(self@.len() as int) =~= self@);
        }
        r
    }

    /// The highest scores of one difficulty: its entries ordered by score
    /// descending — equal scores in no promised order — and cut off after
    /// `limit` entries.
    pub fn get_high_scores(&self, difficulty: &Difficulty, limit: usize) -> (r: Vec<ScoreEntry>)
        ensures
            ({
                let filtered = spec_scores_for(self@, Some(difficulty.spec_name()));
                exists|s: Seq<EntryView>|
                    {
                        &&& #[trigger] s.to_multiset() == filtered.to_multiset()
                        &&& spec_sorted_desc(s)
                        &&& entries_view(r@) == s.take(
                            if limit <= s.len() {
                                limit as int
                            } else {
                                s.len() as int
                            },
                        )
                    }
            }),
    {
        let mut rest = self.get_scores(Some(difficulty));
        let ghost filtered = spec_scores_for(self@, Some(difficulty.spec_name()));
        let mut out: Vec<ScoreEntry> = Vec::new();
        proof {
            broadcast use vstd::seq_lib::group_to_multiset_ensures;

            assert(entries_view(out@) =~= Seq::<EntryView>::empty());
            assert(entries_view(out@).to_multiset().add(entries_view(rest@).to_multiset())
                =~= filtered.to_multiset());
        }
        while rest.len() > 0
            invariant
                entries_view(out@).to_multiset().add(entries_view(rest@).to_multiset())
                    == filtered.to_multiset(),
                spec_sorted_desc(entries_view(out@)),
                forall|a: int, b: int|
                    0 <= a < out@.len() && 0 <= b < rest@.len() ==> entries_view(out@)[a].0
                        >= entries_view(rest@)[b].0,
            decreases rest@.len(),
        {
            let mut mi: usize = 0;
            let mut k: usize = 1;
            while k < rest.len()
                invariant
                    rest@.len() > 0,
                    mi < k,
                    k <= rest@.len(),
                    forall|t: int| 0 <= t < k ==> rest@[t].0 <= rest@[mi as int].0,
                decreases rest@.len() - k,
            {
                if rest[k].0 > rest[mi].0 {
                    mi = k;
                }
                k = k + 1;
            }
            let ghost pre_rest = rest@;
            let ghost pre_out = out@;
            let e = rest.remove(mi);
            out.push(e);
            proof {
                broadcast use vstd::seq_lib::group_to_multiset_ensures;
                broadcast use vstd::multiset::group_multiset_axioms;

                let ev = entry_view(e);
                assert(e == pre_rest[mi as int]);
                assert(entries_view(rest@) =~= entries_view(pre_rest).remove(mi as int));
                assert(entries_view(pre_rest)[mi as int] == ev);
                assert(entries_view(pre_rest).remove(mi as int).to_multiset() =~= entries_view(
                    pre_rest,
                ).to_multiset().remove(ev));
                assert(entries_view(out@) =~= entries_view(pre_out).push(ev));
                assert(entries_view(pre_out).push(ev).to_multiset() =~= entries_view(
                    pre_out,
                ).to_multiset().insert(ev));
                assert(entries_view(pre_rest).contains(ev));
                assert(entries_view(pre_rest).to_multiset().count(ev) > 0);
                assert(entries_view(out@).to_multiset().add(entries_view(rest@).to_multiset())
                    =~= filtered.to_multiset());
                // the removed maximum keeps the output sorted and dominates the rest
                assert(forall|b: int|
                    0 <= b < rest@.len() ==> entries_view(rest@)[b].0 <= ev.0);
                assert(forall|a: int|
                    0 <= a < pre_out.len() ==> entries_view(pre_out)[a].0 >= ev.0);
                assert(spec_sorted_desc(entries_view(out@)));
            }
        }
        proof {
            broadcast use vstd::seq_lib::group_to_multiset_ensures;

            assert(entries_view(rest@) =~= Seq::<EntryView>::empty());
            assert(entries_view(rest@).to_multiset() =~= Multiset::<EntryView>::empty());
            assert(entries_view(out@).to_multiset() =~= filtered.to_multiset());
        }
        let ghost sorted_all = entries_view(out@);
        out.truncate(limit);
        proof {
            broadcast use vstd::seq_lib::group_to_multiset_ensures;

            if limit <= sorted_all.len() {
                assert(entries_view(out@) =~= sorted_all.take(limit as int));
            } else {
                assert(entries_view(out@) =~= sorted_all.take(sorted_all.len() as int));
            }
        }
        out
    }

    /// The total playtime across every difficulty, in milliseconds; records
    /// without a time contribute nothing.
    pub fn get_total_playtime(&self) -> (r: u64)
        requires
            spec_total_time(spec_scores_for(self@, None)) <= u64::MAX,
        ensures
            r == spec_total_time(spec_scores_for(self@, None)),
    {
        let scores = self.get_scores(None);
        let ghost all = spec_scores_for(self@, None);
        let mut sum: u64 = 0;
        let mut i: usize = 0;
        while i < scores.len()
            invariant
                i <= scores@.len(),
                entries_view(scores@) == all,
                spec_total_time(all) <= u64::MAX,
                sum == spec_total_time(all.take(i as int)),
            decreases scores@.len() - i,
        {
            proof {
                assert(all.take(i + 1).drop_last() =~= all.take(i as int));
                assert(all.take(i + 1).last() == entry_view(scores@[i as int]));
                lemma_total_time_bounds(all, i + 1);
            }
            let t = match scores[i].2 {
                Some(t) => t,
                None => 0,
            };
            sum = sum + t;
            i = i + 1;
        }
        proof {
            assert(all.take(all.len() as int) =~= all);
        }
        sum
    }

    /// The total playtime as `HH:MM:SS`, each part zero-padded to two digits;
    /// the hour count is not capped.
    pub fn get_total_playtime_display(&self) -> (r: String)
        requires
            spec_total_time(spec_scores_for(self@, None)) <= u64::MAX,
        ensures
            ({
                let total = spec_total_time(spec_scores_for(self@, None));
                let total_seconds = total / 1000;
                r@ == spec_pad2((total_seconds / 60 / 60) as nat) + ":"@ + spec_pad2(
                    ((total_seconds / 60) % 60) as nat,
                ) + ":"@ + spec_pad2((total_seconds % 60) as nat)
            }),
    {
        let total_time = self.get_total_playtime();
        let total_seconds = total_time / 1000;
        let seconds = total_seconds % 60;
        let total_minutes = total_seconds / 60;
        let minutes = total_minutes % 60;
        let hours = total_minutes / 60;
        let mut r = u64_to_padded_string(hours);
        r.append(":");
        let minute_part = u64_to_padded_string(minutes);
        r.append(minute_part.as_str());
        r.append(":");
        let second_part = u64_to_padded_string(seconds);
        r.append(second_part.as_str());
        r
    }

    /// Records one finished run: appends the entry to the group of the given
    /// difficulty, creating the group at the end of the store if it is the
    /// first run of that difficulty.
    pub fn write_score(&mut self, score: u64, difficulty: &Difficulty, user_name: &str, time: u64)
        ensures
            final(self)@ == spec_add_score(
                old(self)@,
                difficulty.spec_name(),
                (score, user_name@, Some(time)),
            ),
    {
        let ghost e = (score, user_name@, Some(time));
        let target = String::from_str(difficulty.name());
        let mut gi: usize = 0;
        while gi < self.groups.len()
            invariant
                gi <= self.groups@.len(),
                *self == *old(self),
                e == (score, user_name@, Some(time)),
                target@ == difficulty.spec_name(),
                forall|k: int| 0 <= k < gi ==> self@[k].0 != difficulty.spec_name(),
            decreases self.groups@.len() - gi,
        {
            if self.groups[gi].name.eq(&target) {
                let entry = (score, user_name.to_owned(), Some(time));
                proof {
                    assert(entry_view(entry) == e);
                }
                let ghost pre_entries = self.groups@[gi as int].entries@;
                let mut g = self.groups.remove(gi);
                g.entries.push(entry);
                self.groups.insert(gi, g);
                proof {
                    assert(self.groups@ =~= old(self).groups@.update(
                        gi as int,
                        self.groups@[gi as int],
                    ));
                    assert(entries_view(pre_entries.push(entry)) =~= entries_view(
                        pre_entries,
                    ).push(e));
                    assert(self@ =~= old(self)@.update(
                        gi as int,
                        (old(self)@[gi as int].0, old(self)@[gi as int].1.push(e)),
                    ));
                    lemma_add_score_found(old(self)@, difficulty.spec_name(), e, gi as int);
                }
                return ;
            }
            gi = gi + 1;
        }
        let entry = (score, user_name.to_owned(), Some(time));
        let mut entries: Vec<ScoreEntry> = Vec::new();
        entries.push(entry);
        let group = ScoreGroup { name: target, entries };
        self.groups.push(group);
        proof {
            assert(entries_view(self.groups@[old(self).groups@.len() as int].entries@)
                =~= seq![e]);
            assert(self@ =~= old(self)@ + seq![(difficulty.spec_name(), seq![e])]);
            lemma_add_score_missing(old(self)@, difficulty.spec_name(), e);
        }
    }
}

/// The playtime total is a sum of non-negative terms.
proof fn lemma_total_time_nonneg(s: Seq<EntryView>)
    ensures
        spec_total_time(s) >= 0,
    decreases s.len(),
{
    if s.len() > 0 {
        lemma_total_time_nonneg(s.drop_last());
    }
}

/// Prefix sums of the playtime total never exceed the total: every term is
/// non-negative.
proof fn lemma_total_time_bounds(s: Seq<EntryView>, i: int)
    requires
        0 <= i <= s.len(),
    ensures
        0 <= spec_total_time(s.take(i)) <= spec_total_time(s),
    decreases s.len() - i,
{
    lemma_total_time_nonneg(s.take(i));
    if i < s.len() {
        lemma_total_time_bounds(s, i + 1);
        assert(s.take(i + 1).drop_last() =~= s.take(i));
        assert(s.take(i + 1).last() == s[i]);
    } else {
        assert(s.take(i) =~= s);
    }
}

/// Appending a score to the store, seen through `spec_add_score`, is exactly
/// an update of the first group carrying the difficulty name.
proof fn lemma_add_score_found(m: Seq<GroupView>, name: Seq<char>, e: EntryView, gi: int)
    requires
        0 <= gi < m.len(),
        m[gi].0 == name,
        forall|k: int| 0 <= k < gi ==> m[k].0 != name,
    ensures
        spec_add_score(m, name, e) == m.update(gi, (m[gi].0, m[gi].1.push(e))),
    decreases m.len(),
{
    if gi == 0 {
        assert(spec_add_score(m, name, e) =~= m.update(0, (m[0].0, m[0].1.push(e))));
    } else {
        lemma_add_score_found(m.drop_first(), name, e, gi - 1);
        assert(spec_add_score(m, name, e) =~= m.update(gi, (m[gi].0, m[gi].1.push(e))));
    }
}

/// Appending a score under a name no group carries adds one fresh group at
/// the end of the store.
proof fn lemma_add_score_missing(m: Seq<GroupView>, name: Seq<char>, e: EntryView)
    requires
        forall|k: int| 0 <= k < m.len() ==> m[k].0 != name,
    ensures
        spec_add_score(m, name, e) == m + seq![(name, seq![e])],
    decreases m.len(),
{
    if m.len() == 0 {
        assert(spec_add_score(m, name, e) =~= m + seq![(name, seq![e])]);
    } else {
        lemma_add_score_missing(m.drop_first(), name, e);
        assert(spec_add_score(m, name, e) =~= m + seq![(name, seq![e])]);
    }
}

/// Listing the scores of a one-group store yields that group's entries when
/// it is selected, and nothing otherwise.
proof fn lemma_scores_for_singleton(g: GroupView, filter: Option<Seq<char>>)
    ensures
        spec_scores_for(seq![g], filter) == if spec_group_selected(g, filter) {
            g.1
        } else {
            Seq::<EntryView>::empty()
        },
{
    assert(seq![g].drop_last() =~= Seq::<GroupView>::empty());
    assert(seq![g].last() == g);
    assert(spec_scores_for(Seq::<GroupView>::empty(), filter) == Seq::<EntryView>::empty());
    if spec_group_selected(g, filter) {
        assert(spec_scores_for(seq![g], filter) =~= g.1);
    } else {
        assert(spec_scores_for(seq![g], filter) =~= Seq::<EntryView>::empty());
    }
}

/// Listing selected scores distributes over splitting the store.
pub proof fn lemma_scores_for_concat(a: Seq<GroupView>, b: Seq<GroupView>, filter: Option<
    Seq<char>,
>)
    ensures
        spec_scores_for(a + b, filter) == spec_scores_for(a, filter) + spec_scores_for(b, filter),
    decreases b.len(),
{
    if b.len() == 0 {
        assert(a + b =~= a);
        assert(spec_scores_for(a, filter) + spec_scores_for(b, filter) =~= spec_scores_for(
            a,
            filter,
        ));
    } else {
        lemma_scores_for_concat(a, b.drop_last(), filter);
        assert((a + b).drop_last() =~= a + b.drop_last());
        assert((a + b).last() == b.last());
        assert(spec_scores_for(a, filter) + spec_scores_for(b, filter) =~= spec_scores_for(
            a + b,
            filter,
        ));
    }
}

/// After recording a run, the bag of all stored entries is the old bag plus
/// exactly the new entry: nothing is lost and nothing else appears.
pub proof fn lemma_write_then_read_all(m: Seq<GroupView>, name: Seq<char>, e: EntryView)
    ensures
        spec_scores_for(spec_add_score(m, name, e), None).to_multiset() == spec_scores_for(
            m,
            None,
        ).to_multiset().insert(e),
    decreases m.len(),
{
    broadcast use vstd::seq_lib::group_to_multiset_ensures;

    if m.len() == 0 {
        assert(spec_add_score(m, name, e) =~= seq![(name, seq![e])]);
        lemma_scores_for_singleton((name, seq![e]), None);
        assert(spec_scores_for(seq![(name, seq![e])], None) =~= seq![e]);
        assert(spec_scores_for(m, None) =~= Seq::<EntryView>::empty());
        assert(seq![e] =~= Seq::<EntryView>::empty().push(e));
        assert(spec_scores_for(spec_add_score(m, name, e), None).to_multiset()
            =~= spec_scores_for(m, None).to_multiset().insert(e));
    } else if m.first().0 == name {
        let g2 = (m.first().0, m.first().1.push(e));
        assert(spec_add_score(m, name, e) == seq![g2] + m.drop_first());
        lemma_scores_for_concat(seq![g2], m.drop_first(), None);
        lemma_scores_for_concat(seq![m.first()], m.drop_first(), None);
        assert(seq![m.first()] + m.drop_first() =~= m);
        lemma_scores_for_singleton(g2, None);
        lemma_scores_for_singleton(m.first(), None);
        assert(spec_scores_for(seq![g2], None) =~= m.first().1.push(e));
        assert(spec_scores_for(seq![m.first()], None) =~= m.first().1);
        lemma_multiset_commutative(m.first().1.push(e), spec_scores_for(m.drop_first(), None));
        lemma_multiset_commutative(m.first().1, spec_scores_for(m.drop_first(), None));
        assert(spec_scores_for(spec_add_score(m, name, e), None).to_multiset()
            =~= spec_scores_for(m, None).to_multiset().insert(e));
    } else {
        lemma_write_then_read_all(m.drop_first(), name, e);
        assert(spec_add_score(m, name, e) == seq![m.first()] + spec_add_score(
            m.drop_first(),
            name,
            e,
        ));
        lemma_scores_for_concat(seq![m.first()], spec_add_score(m.drop_first(), name, e), None);
        lemma_scores_for_concat(seq![m.first()], m.drop_first(), None);
        assert(seq![m.first()] + m.drop_first() =~= m);
        lemma_multiset_commutative(
            spec_scores_for(seq![m.first()], None),
            spec_scores_for(spec_add_score(m.drop_first(), name, e), None),
        );
        lemma_multiset_commutative(
            spec_scores_for(seq![m.first()], None),
            spec_scores_for(m.drop_first(), None),
        );
        assert(spec_scores_for(spec_add_score(m, name, e), None).to_multiset()
            =~= spec_scores_for(m, None).to_multiset().insert(e));
    }
}

/// Recording a run under one difficulty name leaves the listing of every
/// other difficulty exactly as it was.
pub proof fn lemma_write_other_difficulty(
    m: Seq<GroupView>,
    name: Seq<char>,
    e: EntryView,
    other: Seq<char>,
)
    requires
        other != name,
    ensures
        spec_scores_for(spec_add_score(m, name, e), Some(other)) == spec_scores_for(
            m,
            Some(other),
        ),
    decreases m.len(),
{
    if m.len() == 0 {
        lemma_scores_for_singleton((name, seq![e]), Some(other));
        assert(spec_scores_for(seq![(name, seq![e])], Some(other)) =~= spec_scores_for(
            m,
            Some(other),
        ));
    } else if m.first().0 == name {
        let g2 = (m.first().0, m.first().1.push(e));
        lemma_scores_for_concat(seq![g2], m.drop_first(), Some(other));
        lemma_scores_for_concat(seq![m.first()], m.drop_first(), Some(other));
        assert(seq![m.first()] + m.drop_first() =~= m);
        lemma_scores_for_singleton(g2, Some(other));
        lemma_scores_for_singleton(m.first(), Some(other));
        assert(spec_scores_for(seq![g2], Some(other)) =~= spec_scores_for(
            seq![m.first()],
            Some(other),
        ));
        assert(spec_scores_for(spec_add_score(m, name, e), Some(other)) =~= spec_scores_for(
            m,
            Some(other),
        ));
    } else {
        lemma_write_other_difficulty(m.drop_first(), name, e, other);
        lemma_scores_for_concat(seq![m.first()], spec_add_score(m.drop_first(), name, e), Some(other));
        lemma_scores_for_concat(seq![m.first()], m.drop_first(), Some(other));
        assert(seq![m.first()] + m.drop_first() =~= m);
        assert(spec_scores_for(spec_add_score(m, name, e), Some(other)) =~= spec_scores_for(
            m,
            Some(other),
        ));
    }
}

/// Recording a run adds exactly the new entry to the listing of its own
/// difficulty.
pub proof fn lemma_write_same_difficulty(m: Seq<GroupView>, name: Seq<char>, e: EntryView)
    ensures
        spec_scores_for(spec_add_score(m, name, e), Some(name)).to_multiset() == spec_scores_for(
            m,
            Some(name),
        ).to_multiset().insert(e),
    decreases m.len(),
{
    broadcast use vstd::seq_lib::group_to_multiset_ensures;

    if m.len() == 0 {
        lemma_scores_for_singleton((name, seq![e]), Some(name));
        assert(spec_scores_for(seq![(name, seq![e])], Some(name)) =~= seq![e]);
        assert(spec_scores_for(m, Some(name)) =~= Seq::<EntryView>::empty());
        assert(seq![e] =~= Seq::<EntryView>::empty().push(e));
        assert(spec_scores_for(spec_add_score(m, name, e), Some(name)).to_multiset()
            =~= spec_scores_for(m, Some(name)).to_multiset().insert(e));
    } else if m.first().0 == name {
        let g2 = (m.first().0, m.first().1.push(e));
        lemma_scores_for_concat(seq![g2], m.drop_first(), Some(name));
        lemma_scores_for_concat(seq![m.first()], m.drop_first(), Some(name));
        assert(seq![m.first()] + m.drop_first() =~= m);
        lemma_scores_for_singleton(g2, Some(name));
        lemma_scores_for_singleton(m.first(), Some(name));
        assert(spec_scores_for(seq![g2], Some(name)) =~= m.first().1.push(e));
        assert(spec_scores_for(seq![m.first()], Some(name)) =~= m.first().1);
        lemma_multiset_commutative(
            m.first().1.push(e),
            spec_scores_for(m.drop_first(), Some(name)),
        );
        lemma_multiset_commutative(m.first().1, spec_scores_for(m.drop_first(), Some(name)));
        assert(spec_scores_for(spec_add_score(m, name, e), Some(name)).to_multiset()
            =~= spec_scores_for(m, Some(name)).to_multiset().insert(e));
    } else {
        lemma_write_same_difficulty(m.drop_first(), name, e);
        lemma_scores_for_concat(seq![m.first()], spec_add_score(m.drop_first(), name, e), Some(name));
        lemma_scores_for_concat(seq![m.first()], m.drop_first(), Some(name));
        assert(seq![m.first()] + m.drop_first() =~= m);
        lemma_scores_for_singleton(m.first(), Some(name));
        assert(spec_scores_for(seq![m.first()], Some(name)) =~= Seq::<EntryView>::empty());
        lemma_multiset_commutative(
            spec_scores_for(seq![m.first()], Some(name)),
            spec_scores_for(spec_add_score(m.drop_first(), name, e), Some(name)),
        );
        lemma_multiset_commutative(
            spec_scores_for(seq![m.first()], Some(name)),
            spec_scores_for(m.drop_first(), Some(name)),
        );
        assert(spec_scores_for(spec_add_score(m, name, e), Some(name)).to_multiset()
            =~= spec_scores_for(m, Some(name)).to_multiset().insert(e));
    }
}

/// A difficulty's listing is contained in the listing of all difficulties:
/// filtering never invents an entry.
pub proof fn lemma_filtered_within_all(m: Seq<GroupView>, name: Seq<char>)
    ensures
        forall|e: EntryView|
            #[trigger] spec_scores_for(m, Some(name)).to_multiset().count(e) <= spec_scores_for(
                m,
                None,
            ).to_multiset().count(e),
    decreases m.len(),
{
    broadcast use vstd::seq_lib::group_to_multiset_ensures;
    broadcast use vstd::multiset::group_multiset_axioms;

    if m.len() > 0 {
        lemma_filtered_within_all(m.drop_last(), name);
        let tail_sel = if spec_group_selected(m.last(), Some(name)) {
            m.last().1
        } else {
            Seq::<EntryView>::empty()
        };
        lemma_multiset_commutative(spec_scores_for(m.drop_last(), Some(name)), tail_sel);
        lemma_multiset_commutative(spec_scores_for(m.drop_last(), None), m.last().1);
        assert forall|e: EntryView|
            #[trigger] spec_scores_for(m, Some(name)).to_multiset().count(e) <= spec_scores_for(
                m,
                None,
            ).to_multiset().count(e) by {
            assert(tail_sel.to_multiset().count(e) <= m.last().1.to_multiset().count(e));
        }
    }
}

} // verus!
